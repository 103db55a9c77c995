use tank_hub::{
    Acceleration, Direction, DirectionChange, Entity, EntityType, GridPos, IdCounter, Player,
    Stat, UserEvent, Vec2Bits, Yaw, FULL_HEALTH, MAX_LEVEL,
};

fn player(points: i32) -> Entity {
    Entity::new(
        Vec2Bits { x: 0, y: 0 },
        GridPos { x: 0, y: 0 },
        0,
        EntityType::Player(Player { points, score: 0 }),
    )
}

fn points(e: &Entity) -> i32 {
    match e.inner {
        EntityType::Player(p) => p.points,
        _ => panic!("not a player"),
    }
}

fn keys(up: bool, left: bool, down: bool, right: bool) -> DirectionChange {
    DirectionChange { up, left, down, right }
}

#[test]
fn id_counter_starts_at_one() {
    let mut ids = IdCounter::new();
    assert_eq!(ids.next(), 1);
    assert_eq!(ids.next(), 2);
    assert_eq!(ids.0, 2);
}

#[test]
fn new_entity_is_at_rest() {
    let e = player(0);
    assert_eq!(e.levels, [0u8; 8]);
    assert_eq!(e.yaw, Yaw(0));
    assert!(!e.shooting);
    assert_eq!(e.health, FULL_HEALTH);
    assert_eq!(f32::from_bits(e.health), 100.0);
    assert_eq!(e.max_velocity, Direction { x: 0, y: 0 });
    assert_eq!(e.acceleration, Acceleration::Steering(Direction { x: 0, y: 0 }));
}

#[test]
fn upgrade_caps() {
    let mut e = player(20);
    for _ in 0..20 {
        e.handle_event(UserEvent::LevelUpgrade { stat: Stat::MaxHealth });
    }
    assert_eq!(e.level(Stat::MaxHealth), 9);
    assert_eq!(points(&e), 11);
    for i in 0..8 {
        assert!(e.levels[i] < MAX_LEVEL);
    }
}

#[test]
fn upgrade_needs_points_and_a_player() {
    let mut e = player(0);
    e.increment_level(Stat::Reload);
    assert_eq!(e.level(Stat::Reload), 0);
    assert_eq!(points(&e), 0);
    let mut b = Entity::new(Vec2Bits { x: 0, y: 0 }, GridPos { x: 0, y: 0 }, 1, EntityType::Bullet { author: 3 });
    b.increment_level(Stat::BodyDamage);
    assert_eq!(b.levels, [0u8; 8]);
    let mut prop = Entity::new(Vec2Bits { x: 0, y: 0 }, GridPos { x: 0, y: 0 }, 1, EntityType::Prop);
    prop.increment_level(Stat::BodyDamage);
    assert_eq!(prop.levels, [0u8; 8]);
}

#[test]
fn level_cap_is_idempotent() {
    let mut e = player(30);
    for _ in 0..9 {
        e.increment_level(Stat::Reload);
    }
    assert_eq!(e.level(Stat::Reload), 9);
    assert_eq!(points(&e), 21);
    e.increment_level(Stat::Reload);
    e.increment_level(Stat::Reload);
    assert_eq!(e.level(Stat::Reload), 9);
    assert_eq!(points(&e), 21);
}

#[test]
fn upgrade_moves_stat_multiplier() {
    let mut e = player(5);
    assert_eq!(e.stat_multiplier(Stat::BodyDamage), 20);
    assert_eq!(e.stat_multiplier(Stat::Reload), 20);
    e.increment_level(Stat::BodyDamage);
    e.increment_level(Stat::Reload);
    assert_eq!(e.stat_multiplier(Stat::BodyDamage), 22);
    assert_eq!(e.stat_multiplier(Stat::Reload), 19);
    assert_eq!(Stat::MovementSpeed.multiplier_twentieths(9), 38);
    assert_eq!(Stat::Reload.multiplier_twentieths(9), 11);
}

#[test]
fn direction_to_vec() {
    assert_eq!(keys(false, false, true, false).to_vec(), Direction { x: 0, y: 1 });
    assert_eq!(keys(true, true, false, false).to_vec(), Direction { x: -1, y: -1 });
    assert_eq!(keys(true, true, true, true).to_vec(), Direction { x: 0, y: 0 });
    assert_eq!(keys(false, false, false, true).to_vec(), Direction { x: 1, y: 0 });
}

#[test]
fn steering_and_coast() {
    let mut e = player(0);
    e.handle_event(UserEvent::DirectionChange { direction: keys(false, false, true, false) });
    assert_eq!(e.max_velocity, Direction { x: 0, y: 1 });
    assert_eq!(e.acceleration, Acceleration::Steering(Direction { x: 0, y: 1 }));
    e.handle_event(UserEvent::DirectionChange { direction: keys(false, false, false, false) });
    assert_eq!(e.max_velocity, Direction { x: 0, y: 0 });
    assert_eq!(e.acceleration, Acceleration::Steering(Direction { x: 0, y: -1 }));
}

#[test]
fn yaw_and_shooting_events() {
    let mut e = player(0);
    e.handle_event(UserEvent::Yaw { yaw: Yaw(-90) });
    e.handle_event(UserEvent::SetShooting { shooting: true });
    assert_eq!(e.yaw, Yaw(-90));
    assert!(e.shooting);
    e.handle_event(UserEvent::SetShooting { shooting: false });
    assert!(!e.shooting);
}

#[test]
fn bullet_inheritance() {
    let mut e = player(10);
    e.increment_level(Stat::BodyDamage);
    e.increment_level(Stat::BodyDamage);
    e.increment_level(Stat::MaxHealth);
    e.increment_level(Stat::MovementSpeed);
    e.increment_level(Stat::MovementSpeed);
    e.increment_level(Stat::MovementSpeed);
    e.increment_level(Stat::Reload);
    e.handle_event(UserEvent::Yaw { yaw: Yaw(30) });
    let v = Vec2Bits { x: 0.5f64.to_bits(), y: 0.25f64.to_bits() };
    let d = Vec2Bits { x: (-0.05f64).to_bits(), y: (-0.025f64).to_bits() };
    let b = e.create_bullet(15, 4, 7, v, d);
    assert_eq!(b.level(Stat::BulletDamage), 2);
    assert_eq!(b.level(Stat::BulletPenetration), 1);
    assert_eq!(b.level(Stat::BulletSpeed), 3);
    assert_eq!(b.level(Stat::Reload), 0);
    assert_eq!(b.level(Stat::BodyDamage), 0);
    assert_eq!(b.levels, [0, 0, 0, 3, 1, 2, 0, 0]);
    assert_eq!(b.yaw, Yaw(45));
    assert_eq!(b.tank, 4);
    assert_eq!(b.inner, EntityType::Bullet { author: 7 });
    assert_eq!(b.velocity, v);
    assert_eq!(b.acceleration, Acceleration::Drift(d));
    assert_eq!(b.max_velocity, Direction { x: 0, y: 0 });
    assert!(!b.shooting);
}

#[test]
fn for_child_mapping() {
    assert_eq!(Stat::for_child(5), Some(Stat::BodyDamage));
    assert_eq!(Stat::for_child(4), Some(Stat::MaxHealth));
    assert_eq!(Stat::for_child(3), Some(Stat::MovementSpeed));
    assert_eq!(Stat::for_child(0), None);
    assert_eq!(Stat::for_child(7), None);
    assert_eq!(Stat::for_child(8), None);
}

#[test]
fn active_cannons_by_period() {
    let delays = vec![2, 3, 4, 5];
    assert_eq!(Entity::active_cannons(&delays, 1, 2), vec![0, 2]);
    assert_eq!(Entity::active_cannons(&delays, 3, 3), vec![0, 1, 2, 3]);
    assert_eq!(Entity::active_cannons(&delays, 1, 7), Vec::<usize>::new());
    assert_eq!(Entity::active_cannons(&Vec::new(), 1, 1), Vec::<usize>::new());
}
