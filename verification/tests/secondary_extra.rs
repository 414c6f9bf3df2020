use deferred_map::secondary::Slot;
use deferred_map::DefaultKey;
use deferred_map::Generation;
use deferred_map::Key;
use deferred_map::SecondaryMap;

fn key(index: u32, generation: u32) -> DefaultKey {
    DefaultKey::new(index, Generation::new(generation).unwrap())
}

#[test]
fn test_secondary_generation_law() {
    let mut sec = SecondaryMap::new();
    assert_eq!(sec.insert(key(5, 1), "V1"), None);
    assert_eq!(sec.insert(key(5, 2), "V2"), None);
    assert_eq!(sec.get(key(5, 1)), None);
    assert_eq!(sec.get(key(5, 2)), Some(&"V2"));
    assert_eq!(sec.insert(key(5, 1), "V3"), None);
    assert_eq!(sec.get(key(5, 2)), Some(&"V2"));
    assert_eq!(sec.get(key(5, 1)), None);
    assert_eq!(sec.len(), 1);
}

#[test]
fn test_secondary_insert_same_generation_returns_old_value() {
    let mut sec = SecondaryMap::new();
    assert_eq!(sec.insert(key(3, 4), 10), None);
    assert_eq!(sec.insert(key(3, 4), 11), Some(10));
    assert_eq!(sec.get(key(3, 4)), Some(&11));
    assert_eq!(sec.len(), 1);
}

#[test]
fn test_secondary_insert_grows_to_cover_index() {
    let mut sec: SecondaryMap<i32> = SecondaryMap::new();
    assert_eq!(sec.capacity(), 0);
    sec.insert(key(9, 1), 1);
    assert_eq!(sec.capacity(), 10);
    assert_eq!(sec.len(), 1);
    sec.insert(key(2, 1), 2);
    assert_eq!(sec.capacity(), 10);
    assert_eq!(sec.len(), 2);
    assert_eq!(sec.get(key(9, 1)), Some(&1));
    assert_eq!(sec.get(key(2, 1)), Some(&2));
    assert_eq!(sec.get(key(3, 1)), None);
    assert_eq!(sec.get(key(100, 1)), None);
}

#[test]
fn test_secondary_with_capacity() {
    let mut sec: SecondaryMap<i32> = SecondaryMap::with_capacity(16);
    assert_eq!(sec.capacity(), 16);
    assert!(sec.is_empty());
    sec.insert(key(3, 1), 1);
    assert_eq!(sec.capacity(), 16);
    sec.insert(key(20, 1), 1);
    assert_eq!(sec.capacity(), 21);
}

#[test]
fn test_secondary_remove_needs_matching_generation() {
    let mut sec = SecondaryMap::new();
    sec.insert(key(1, 2), 'a');
    assert_eq!(sec.remove(key(1, 1)), None);
    assert_eq!(sec.remove(key(1, 3)), None);
    assert_eq!(sec.remove(key(7, 2)), None);
    assert_eq!(sec.len(), 1);
    assert_eq!(sec.remove(key(1, 2)), Some('a'));
    assert_eq!(sec.len(), 0);
    assert!(sec.is_empty());
    // After a removal an older generation can be stored again.
    assert_eq!(sec.insert(key(1, 1), 'b'), None);
    assert_eq!(sec.get(key(1, 1)), Some(&'b'));
}

#[test]
fn test_secondary_get_mut_only_for_matching_generation() {
    let mut sec = SecondaryMap::new();
    sec.insert(key(4, 2), 1);
    assert!(sec.get_mut(key(4, 1)).is_none());
    assert!(sec.get_mut(key(5, 2)).is_none());
    *sec.get_mut(key(4, 2)).unwrap() += 5;
    assert_eq!(sec.get(key(4, 2)), Some(&6));
    assert_eq!(sec.len(), 1);
}

#[test]
fn test_secondary_iter_order_and_keys() {
    let mut sec = SecondaryMap::new();
    sec.insert(key(7, 3), 70);
    sec.insert(key(2, 1), 20);
    sec.insert(key(4, 9), 40);
    let items: Vec<(DefaultKey, i32)> = sec.iter().map(|(k, v)| (k, *v)).collect();
    assert_eq!(items, vec![(key(2, 1), 20), (key(4, 9), 40), (key(7, 3), 70)]);
    for (k, v) in sec.iter_mut() {
        *v += k.generation().get() as i32;
    }
    let items: Vec<(DefaultKey, i32)> = sec.iter().map(|(k, v)| (k, *v)).collect();
    assert_eq!(items, vec![(key(2, 1), 21), (key(4, 9), 49), (key(7, 3), 73)]);
}

#[test]
fn test_secondary_retain_sees_every_entry_once() {
    let mut sec = SecondaryMap::new();
    for i in 0..8u32 {
        sec.insert(key(i, i + 1), i);
    }
    let mut visited = Vec::new();
    sec.retain(|k: DefaultKey, v| {
        visited.push((k.index(), k.generation().get()));
        *v *= 2;
        k.index() % 3 != 0
    });
    assert_eq!(visited, (0..8).map(|i| (i, i + 1)).collect::<Vec<_>>());
    assert_eq!(sec.len(), 5);
    for i in 0..8u32 {
        let expected = if i % 3 != 0 { Some(i * 2) } else { None };
        assert_eq!(sec.get(key(i, i + 1)).copied(), expected);
    }
}

#[test]
fn test_secondary_clear_keeps_capacity() {
    let mut sec = SecondaryMap::new();
    sec.insert(key(5, 1), 1);
    sec.clear();
    assert_eq!(sec.len(), 0);
    assert_eq!(sec.capacity(), 6);
    assert_eq!(sec.get(key(5, 1)), None);
    assert_eq!(sec.iter().count(), 0);
}

#[test]
fn test_secondary_clone_is_independent() {
    let mut sec = SecondaryMap::new();
    sec.insert(key(1, 1), "a".to_string());
    sec.insert(key(3, 2), "b".to_string());
    let mut copy = sec.clone();
    assert_eq!(copy.len(), 2);
    assert_eq!(copy.capacity(), sec.capacity());
    copy.get_mut(key(1, 1)).unwrap().push('!');
    copy.remove(key(3, 2));
    assert_eq!(sec.get(key(1, 1)).map(|s| s.as_str()), Some("a"));
    assert_eq!(sec.get(key(3, 2)).map(|s| s.as_str()), Some("b"));
    assert_eq!(copy.get(key(1, 1)).map(|s| s.as_str()), Some("a!"));
    assert_eq!(copy.get(key(3, 2)), None);
}

#[test]
fn test_secondary_default_is_empty() {
    let sec: SecondaryMap<i32> = SecondaryMap::default();
    assert!(sec.is_empty());
    assert_eq!(sec.capacity(), 0);
}

#[test]
fn test_secondary_slot_keeps_value_and_generation() {
    let slot = Slot::new(5u8, Generation::new(7).unwrap());
    assert_eq!(slot.generation().get(), 7);
    let copy = slot.clone();
    assert_eq!(copy.generation().get(), 7);
}
