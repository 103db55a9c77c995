use tank_hub::{encode_batch, DirectionChange, ServerEvent, Stat, UserEvent, Vec2Bits, Yaw};

fn all_user_events() -> Vec<UserEvent> {
    let mut v = vec![
        UserEvent::SetShooting { shooting: true },
        UserEvent::SetShooting { shooting: false },
        UserEvent::Yaw { yaw: Yaw(0) },
        UserEvent::Yaw { yaw: Yaw(-1) },
        UserEvent::Yaw { yaw: Yaw(i16::MIN) },
        UserEvent::Yaw { yaw: Yaw(i16::MAX) },
        UserEvent::Yaw { yaw: Yaw(359) },
    ];
    for i in 0..8u32 {
        v.push(UserEvent::LevelUpgrade { stat: Stat::from_index(i).unwrap() });
    }
    for m in 0..16u8 {
        v.push(UserEvent::DirectionChange {
            direction: DirectionChange {
                up: m & 1 != 0,
                left: m & 2 != 0,
                down: m & 4 != 0,
                right: m & 8 != 0,
            },
        });
    }
    v
}

#[test]
fn user_event_round_trip() {
    for e in all_user_events() {
        assert_eq!(UserEvent::decode(&e.encode()), Some(e));
    }
}

#[test]
fn user_event_bytes() {
    assert_eq!(UserEvent::SetShooting { shooting: true }.encode(), vec![0, 0, 0, 0, 1]);
    assert_eq!(UserEvent::Yaw { yaw: Yaw(-2) }.encode(), vec![1, 0, 0, 0, 0xfe, 0xff]);
    assert_eq!(UserEvent::Yaw { yaw: Yaw(300) }.encode(), vec![1, 0, 0, 0, 44, 1]);
    assert_eq!(
        UserEvent::LevelUpgrade { stat: Stat::Reload }.encode(),
        vec![2, 0, 0, 0, 6, 0, 0, 0]
    );
    let d = DirectionChange { up: false, left: true, down: true, right: false };
    assert_eq!(UserEvent::DirectionChange { direction: d }.encode(), vec![3, 0, 0, 0, 0, 1, 1, 0]);
}

#[test]
fn user_event_decode_errors() {
    assert_eq!(UserEvent::decode(&[]), None);
    assert_eq!(UserEvent::decode(&[0, 0, 0]), None);
    assert_eq!(UserEvent::decode(&[0, 0, 0, 0]), None);
    assert_eq!(UserEvent::decode(&[0, 0, 0, 0, 2]), None);
    assert_eq!(UserEvent::decode(&[4, 0, 0, 0, 0, 0, 0, 0]), None);
    assert_eq!(UserEvent::decode(&[0, 1, 0, 0, 1]), None);
    assert_eq!(UserEvent::decode(&[2, 0, 0, 0, 8, 0, 0, 0]), None);
    assert_eq!(UserEvent::decode(&[2, 0, 0, 0, 6, 0, 0]), None);
    assert_eq!(UserEvent::decode(&[3, 0, 0, 0, 0, 1, 1]), None);
    assert_eq!(UserEvent::decode(&[1, 0, 0, 0, 5]), None);
    assert_eq!(
        UserEvent::decode(&[0, 0, 0, 0, 1, 9, 9]),
        Some(UserEvent::SetShooting { shooting: true })
    );
}

#[test]
fn server_event_round_trip() {
    let p = Vec2Bits { x: 12.5f64.to_bits(), y: (-3.0f64).to_bits() };
    let v = Vec2Bits { x: 0.1f64.to_bits(), y: f64::MAX.to_bits() };
    let events = vec![
        ServerEvent::EntityDelete { id: 0 },
        ServerEvent::EntityDelete { id: u32::MAX },
        ServerEvent::EntityCreate { id: 1, tank: 0, position: p },
        ServerEvent::EntityCreate { id: 77, tank: -5, position: v },
        ServerEvent::Position { user: 3, coordinates: p, yaw: Yaw(-45), velocity: v },
        ServerEvent::Position { user: 70000, coordinates: v, yaw: Yaw(i16::MAX), velocity: p },
    ];
    for e in events {
        assert_eq!(ServerEvent::decode(&e.encode()), Some(e));
    }
}

#[test]
fn server_event_bytes() {
    assert_eq!(
        ServerEvent::EntityDelete { id: 0x01020304 }.encode(),
        vec![0, 0, 0, 0, 4, 3, 2, 1]
    );
    let position = Vec2Bits { x: 1.0f64.to_bits(), y: 0 };
    let mut expected = vec![1, 0, 0, 0, 1, 0, 0, 0, 0xff, 0xff, 0xff, 0xff];
    expected.extend_from_slice(&1.0f64.to_le_bytes());
    expected.extend_from_slice(&0.0f64.to_le_bytes());
    assert_eq!(ServerEvent::EntityCreate { id: 1, tank: -1, position }.encode(), expected);
    let e = ServerEvent::Position {
        user: 2,
        coordinates: position,
        yaw: Yaw(1),
        velocity: Vec2Bits { x: 0, y: 2.0f64.to_bits() },
    };
    let b = e.encode();
    assert_eq!(b.len(), 42);
    assert_eq!(&b[24..26], &[1, 0]);
    assert_eq!(&b[34..42], &2.0f64.to_le_bytes());
    assert_eq!(ServerEvent::decode(&b[..41]), None);
    assert_eq!(ServerEvent::decode(&[3, 0, 0, 0, 0, 0, 0, 0]), None);
}

#[test]
fn batch_encoding() {
    assert_eq!(encode_batch(&Vec::new()), vec![0u8; 8]);
    let a = ServerEvent::EntityDelete { id: 9 };
    let b = ServerEvent::EntityCreate { id: 10, tank: 2, position: Vec2Bits { x: 0, y: 0 } };
    let mut expected = vec![2, 0, 0, 0, 0, 0, 0, 0];
    expected.extend(a.encode());
    expected.extend(b.encode());
    assert_eq!(encode_batch(&vec![a, b]), expected);
}
