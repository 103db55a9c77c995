use tank_hub::{GridPos, PlayerPositions};

#[test]
fn player_positions() {
    let mut positions = PlayerPositions::new(100);

    let pos = GridPos { x: 99, y: 99 };

    assert!(positions.add(&pos, 0));

    assert!(!positions.add(&pos, 0));

    let pos = GridPos { x: 200, y: 200 };

    assert!(!positions.add(&pos, 0));

    let pos = GridPos { x: 50, y: 70 };

    assert!(positions.add(&pos, 0));

    assert!(!positions.add(&pos, 0));
}

#[test]
fn grid_index_mirrors_and_bounds() {
    let positions = PlayerPositions::new(1000);
    assert_eq!(positions.index(&GridPos { x: 0, y: 0 }), Some(0));
    assert_eq!(positions.index(&GridPos { x: 150, y: 250 }), Some(21));
    assert_eq!(positions.index(&GridPos { x: 999, y: 999 }), Some(99));
    assert_eq!(positions.index(&GridPos { x: 0, y: 1000 }), None);
    assert_eq!(positions.index(&GridPos { x: 1000, y: 0 }), None);
    assert_eq!(positions.index(&GridPos { x: 1500, y: 0 }), None);
    assert_eq!(positions.index(&GridPos { x: 150, y: 0 }), Some(1));
    assert_eq!(positions.index(&GridPos { x: usize::MAX, y: usize::MAX }), None);
}

#[test]
fn grid_remove_and_list() {
    let mut positions = PlayerPositions::new(100);
    let a = GridPos { x: 5, y: 5 };
    assert!(positions.add(&a, 1));
    assert!(positions.add(&a, 2));
    let mut ids = positions.ids_at(&a).unwrap();
    ids.sort();
    assert_eq!(ids, vec![1, 2]);
    positions.remove(&a, 1);
    positions.remove(&a, 7);
    assert_eq!(positions.ids_at(&a).unwrap(), vec![2]);
    assert!(positions.add(&a, 1));
    assert_eq!(positions.ids_at(&GridPos { x: 500, y: 500 }), None);
    let b = GridPos { x: 15, y: 5 };
    assert_eq!(positions.ids_at(&b).unwrap(), Vec::<u32>::new());
}

#[test]
fn grid_keeps_tile_order() {
    let mut positions = PlayerPositions::new(100);
    let a = GridPos { x: 1, y: 1 };
    for id in [4, 2, 9, 7] {
        assert!(positions.add(&a, id));
    }
    assert_eq!(positions.ids_at(&a).unwrap(), vec![4, 2, 9, 7]);
    positions.remove(&a, 2);
    assert_eq!(positions.ids_at(&a).unwrap(), vec![4, 7, 9]);
    let mut narrow = PlayerPositions::new(100);
    assert!(!narrow.add(&GridPos { x: 150, y: 0 }, 1));
}
