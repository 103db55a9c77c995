use tank_hub::{
    choose_hub, handle_message, Admission, DirectionChange, Entity, EntityType, Frame, GridPos,
    Hub, Id, Player, ServerEvent, SessionAction, Stat, UserEvent, UserMessage, Vec2Bits, Yaw,
};

fn at(x: f64, y: f64) -> Vec2Bits {
    Vec2Bits { x: x.to_bits(), y: y.to_bits() }
}

fn cell(x: f64, y: f64) -> GridPos {
    GridPos { x: x.abs() as usize, y: y.abs() as usize }
}

fn mentions(e: &ServerEvent, id: Id) -> bool {
    match e {
        ServerEvent::EntityDelete { id: i } => *i == id,
        ServerEvent::EntityCreate { id: i, .. } => *i == id,
        ServerEvent::Position { user, .. } => *user == id,
    }
}

#[test]
fn admission_and_snapshot() {
    let mut hub = Hub::new(1000);
    let id = hub.spawn_player(0);
    assert_eq!(id, 1);
    let batch = hub.take_events();
    assert_eq!(batch, vec![ServerEvent::EntityCreate { id: 1, tank: 0, position: at(0.0, 0.0) }]);
    assert!(hub.take_events().is_empty());
    let e = hub.get(1).unwrap();
    assert_eq!(e.inner, EntityType::Player(Player { points: 0, score: 0 }));
    assert_eq!(hub.spawn_player(0), 2);
    let mut ids = hub.ids();
    ids.sort();
    assert_eq!(ids, vec![1, 2]);
}

#[test]
fn events_route_to_entities() {
    let mut hub = Hub::new(1000);
    let id = hub.spawn_player(0);
    let down = DirectionChange { up: false, left: false, down: true, right: false };
    hub.handle_message(UserMessage::Event { event: UserEvent::DirectionChange { direction: down }, user: id });
    hub.handle_message(UserMessage::Event { event: UserEvent::Yaw { yaw: Yaw(90) }, user: id });
    hub.handle_message(UserMessage::Event { event: UserEvent::Yaw { yaw: Yaw(10) }, user: 42 });
    let e = hub.get(id).unwrap();
    assert_eq!(e.max_velocity.y, 1);
    assert_eq!(e.yaw, Yaw(90));
    assert!(hub.get(42).is_none());
}

#[test]
fn motion_reports_positions() {
    let mut hub = Hub::new(1000);
    let id = hub.spawn_player(0);
    hub.take_events();
    assert!(hub.update_entity(id, at(0.0, 0.1), cell(0.0, 0.1), at(0.0, 0.1)));
    let batch = hub.take_events();
    assert_eq!(
        batch,
        vec![ServerEvent::Position { user: id, coordinates: at(0.0, 0.1), yaw: Yaw(0), velocity: at(0.0, 0.1) }]
    );
    assert!(hub.update_entity(id, at(0.0, 150.0), cell(0.0, 150.0), at(0.0, 0.0)));
    let e = hub.get(id).unwrap();
    assert_eq!(e.cell, GridPos { x: 0, y: 150 });
    assert_eq!(e.coordinates, at(0.0, 150.0));
    assert!(!hub.update_entity(99, at(1.0, 1.0), cell(1.0, 1.0), at(0.0, 0.0)));
}

#[test]
fn positions_only_on_change() {
    let mut hub = Hub::new(1000);
    let id = hub.spawn_player(0);
    hub.take_events();
    hub.update_entity(id, at(0.0, 0.0), cell(0.0, 0.0), at(0.0, 0.0));
    assert!(hub.take_events().is_empty());
    hub.update_entity(id, at(0.0, 0.5), cell(0.0, 0.5), at(0.0, 0.5));
    assert_eq!(hub.take_events().len(), 1);
    hub.update_entity(id, at(0.0, 0.5), cell(0.0, 0.5), at(0.0, 0.5));
    assert!(hub.take_events().is_empty());
    hub.handle_message(UserMessage::Event { event: UserEvent::Yaw { yaw: Yaw(45) }, user: id });
    hub.update_entity(id, at(0.0, 0.5), cell(0.0, 0.5), at(0.0, 0.5));
    assert_eq!(
        hub.take_events(),
        vec![ServerEvent::Position { user: id, coordinates: at(0.0, 0.5), yaw: Yaw(45), velocity: at(0.0, 0.5) }]
    );
    hub.update_entity(id, at(0.0, 0.5), cell(0.0, 0.5), at(0.0, 0.0));
    assert_eq!(hub.take_events().len(), 1);
}

#[test]
fn still_props_stay_quiet() {
    let mut hub = Hub::new(1000);
    let prop = Entity::new(at(5.0, -5.0), cell(5.0, -5.0), 3, EntityType::Prop);
    let id = hub.spawn_entity(prop);
    hub.take_events();
    hub.update_entity(id, at(5.0, -5.0), cell(5.0, -5.0), at(0.0, 0.0));
    assert!(hub.take_events().is_empty());
    hub.update_entity(id, at(6.0, -5.0), cell(6.0, -5.0), at(0.0, 0.0));
    assert_eq!(hub.take_events().len(), 1);
}

#[test]
fn departure() {
    let mut hub = Hub::new(1000);
    let c = hub.spawn_player(0);
    let other = hub.spawn_player(0);
    hub.take_events();
    hub.handle_message(UserMessage::GoingAway(c));
    hub.update_entity(c, at(1.0, 1.0), cell(1.0, 1.0), at(0.0, 0.0));
    hub.update_entity(other, at(1.0, 1.0), cell(1.0, 1.0), at(0.0, 0.0));
    let batch = hub.take_events();
    let deletes = batch.iter().filter(|e| **e == ServerEvent::EntityDelete { id: c }).count();
    assert_eq!(deletes, 1);
    assert!(hub.get(c).is_none());
    hub.handle_message(UserMessage::GoingAway(c));
    hub.handle_message(UserMessage::Event { event: UserEvent::SetShooting { shooting: true }, user: c });
    hub.update_entity(c, at(2.0, 2.0), cell(2.0, 2.0), at(0.0, 0.0));
    hub.update_entity(other, at(2.0, 2.0), cell(2.0, 2.0), at(0.0, 0.0));
    let later = hub.take_events();
    assert_eq!(later.len(), 1);
    assert!(later.iter().all(|e| !mentions(e, c)));
}

#[test]
fn hits_and_respawn() {
    let mut hub = Hub::new(1000);
    let p = hub.spawn_player(0);
    let prop = hub.spawn_entity(Entity::new(at(5.0, 5.0), cell(5.0, 5.0), 3, EntityType::Prop));
    hub.take_events();
    hub.resolve_hit(p, 50.0f32.to_bits(), true, at(0.0, 0.0), cell(0.0, 0.0));
    assert_eq!(f32::from_bits(hub.get(p).unwrap().health), 50.0);
    assert!(hub.take_events().is_empty());
    hub.resolve_hit(prop, (-1.0f32).to_bits(), false, at(-300.0, 20.0), cell(-300.0, 20.0));
    assert!(hub.get(prop).is_none());
    let fresh = hub.get(3).unwrap();
    assert_eq!(fresh.inner, EntityType::Prop);
    assert_eq!(fresh.tank, 3);
    assert_eq!(fresh.coordinates, at(-300.0, 20.0));
    assert_eq!(
        hub.take_events(),
        vec![
            ServerEvent::EntityCreate { id: 3, tank: 3, position: at(-300.0, 20.0) },
            ServerEvent::EntityDelete { id: prop },
        ]
    );
    hub.resolve_hit(p, 0u32, false, at(0.0, 0.0), cell(0.0, 0.0));
    assert!(hub.get(p).is_none());
    assert_eq!(hub.take_events(), vec![ServerEvent::EntityDelete { id: p }]);
    hub.resolve_hit(p, 0u32, false, at(0.0, 0.0), cell(0.0, 0.0));
    assert!(hub.take_events().is_empty());
}

#[test]
fn upgrades_through_hub() {
    let mut hub = Hub::new(1000);
    let e = Entity::new(at(0.0, 0.0), cell(0.0, 0.0), 0, EntityType::Player(Player { points: 20, score: 0 }));
    let id = hub.spawn_entity(e);
    for _ in 0..20 {
        hub.handle_message(UserMessage::Event { event: UserEvent::LevelUpgrade { stat: Stat::MaxHealth }, user: id });
    }
    let e = hub.get(id).unwrap();
    assert_eq!(e.level(Stat::MaxHealth), 9);
    assert_eq!(e.inner, EntityType::Player(Player { points: 11, score: 0 }));
}

#[test]
fn hub_load_balancing() {
    let max = 2;
    let mut counts: Vec<i32> = Vec::new();
    let mut members: Vec<Vec<u32>> = Vec::new();
    for client in 1..=5u32 {
        match choose_hub(&counts, max) {
            Admission::Join(i) => {
                counts[i] += 1;
                members[i].push(client);
            }
            Admission::Create => {
                counts.push(0);
                members.push(vec![client]);
            }
        }
    }
    assert_eq!(members, vec![vec![1, 2, 3], vec![4, 5]]);
    assert_eq!(counts, vec![2, 1]);
}

#[test]
fn choose_hub_picks_first_least_loaded() {
    assert_eq!(choose_hub(&vec![], 4), Admission::Create);
    assert_eq!(choose_hub(&vec![3, 1, 1, 2], 4), Admission::Join(1));
    assert_eq!(choose_hub(&vec![3, 4], 3), Admission::Create);
    assert_eq!(choose_hub(&vec![0], 0), Admission::Create);
}

#[test]
fn session_decisions() {
    let ev = UserEvent::Yaw { yaw: Yaw(7) };
    assert_eq!(handle_message(Frame::Binary(ev.encode())), SessionAction::Forward(ev));
    assert_eq!(handle_message(Frame::Binary(vec![9, 9])), SessionAction::Stop);
    assert_eq!(handle_message(Frame::Close), SessionAction::Close);
    assert_eq!(handle_message(Frame::Ping(vec![1, 2, 3])), SessionAction::Pong(vec![1, 2, 3]));
    assert_eq!(handle_message(Frame::Other), SessionAction::Ignore);
    assert_eq!(handle_message(Frame::End), SessionAction::Stop);
}

#[test]
fn collision_candidates_share_a_tile() {
    let mut hub = Hub::new(1000);
    let a = hub.spawn_entity(Entity::new(at(10.0, 10.0), cell(10.0, 10.0), 0, EntityType::Prop));
    let b = hub.spawn_entity(Entity::new(at(-20.0, 30.0), cell(-20.0, 30.0), 0, EntityType::Prop));
    let c = hub.spawn_entity(Entity::new(at(500.0, 500.0), cell(500.0, 500.0), 0, EntityType::Prop));
    let d = hub.spawn_entity(Entity::new(at(0.0, 1000.0), cell(0.0, 1000.0), 0, EntityType::Prop));
    assert_eq!(hub.collision_candidates(), vec![(a, b), (b, a)]);
    assert_eq!(hub.ids(), vec![a, b, c, d]);
    assert!(hub.tile_ids(&cell(500.0, 500.0)).unwrap() == vec![c]);
    assert!(hub.tile_ids(&cell(0.0, 1000.0)).is_none());
    assert!(hub.get(d).is_some());
    hub.update_entity(b, at(510.0, 505.0), cell(510.0, 505.0), at(0.0, 0.0));
    let mut pairs = hub.collision_candidates();
    pairs.sort();
    assert_eq!(pairs, vec![(b, c), (c, b)]);
    let mut tile = hub.tile_ids(&cell(500.0, 500.0)).unwrap();
    tile.sort();
    assert_eq!(tile, vec![b, c]);
    assert_eq!(hub.tile_ids(&cell(10.0, 10.0)).unwrap(), vec![a]);
    hub.remove_entity(c);
    assert!(hub.collision_candidates().is_empty());
}
