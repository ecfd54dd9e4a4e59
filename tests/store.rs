use hexadventure::store::Store;

fn collect(store: &Store<i32>) -> Vec<i32> {
    let mut out = Vec::new();
    let mut it = store.iter();
    while let Some(v) = it.next() {
        out.push(*v);
    }
    out
}

#[test]
fn inserted_handles_are_distinct_and_valid() {
    let mut store = Store::new();
    let ids: Vec<_> = (0..10).map(|v| store.insert(v)).collect();
    for (k, id) in ids.iter().enumerate() {
        assert_eq!(store.get(*id), Some(&(k as i32)));
        for other in ids.iter().skip(k + 1) {
            assert_ne!(id, other);
        }
    }
}

#[test]
fn removed_handle_is_gone() {
    let mut store = Store::new();
    let a = store.insert(1);
    let b = store.insert(2);
    assert!(store.remove(a));
    assert_eq!(store.get(a), None);
    assert!(!store.remove(a));
    assert_eq!(store.get(b), Some(&2));
}

#[test]
fn reused_slot_gets_new_handle() {
    let mut store = Store::new();
    let a = store.insert(1);
    let _b = store.insert(2);
    assert!(store.remove(a));
    let c = store.insert(3);
    assert_ne!(a, c);
    assert_eq!(store.get(a), None);
    assert_eq!(store.get(c), Some(&3));
    assert_eq!(collect(&store), vec![3, 2]);
}

#[test]
fn get_mut_changes_value() {
    let mut store = Store::new();
    let a = store.insert(10);
    if let Some(v) = store.get_mut(a) {
        *v += 5;
    }
    assert_eq!(store.get(a), Some(&15));
    assert!(store.remove(a));
    assert!(store.get_mut(a).is_none());
}

#[test]
fn iteration_skips_free_slots() {
    let mut store = Store::new();
    assert_eq!(collect(&store), Vec::<i32>::new());
    let ids: Vec<_> = (0..5).map(|v| store.insert(v * 10)).collect();
    assert!(store.remove(ids[1]));
    assert!(store.remove(ids[3]));
    assert_eq!(collect(&store), vec![0, 20, 40]);
    let it = store.insert(99);
    assert_eq!(collect(&store), vec![0, 20, 99, 40]);
    assert!(store.remove(it));
    assert!(store.remove(ids[0]));
    assert_eq!(collect(&store), vec![20, 40]);
}

#[test]
fn handles_copy_and_compare_by_value() {
    let mut store = Store::new();
    let a = store.insert("x");
    let copy = a;
    assert_eq!(a, copy);
    assert_eq!(store.get(copy), Some(&"x"));
}

#[test]
fn player_starts_facing_east() {
    let p = hexadventure::player::Player::new(hexadventure::grid::center());
    assert_eq!(p.pos, hexadventure::grid::center());
    assert_eq!(p.facing, hexadventure::grid::Direction::East);
}
