use deferred_map::generation::MAX_GENERATION;
use deferred_map::DefaultKey;
use deferred_map::DeferredMap;
use deferred_map::DeferredMapError;
use deferred_map::Generation;
use deferred_map::Handle;
use deferred_map::Key;

#[test]
fn test_allocate_insert_remove_reallocate() {
    let mut map = DeferredMap::new();
    let h1 = map.allocate_handle();
    assert_eq!(h1.index(), 1);
    let gen1 = h1.generation().get();
    let k1 = map.insert(h1, 42).unwrap();
    assert_eq!(map.get(k1), Some(&42));
    assert_eq!(map.remove(k1), Some(42));
    assert_eq!(map.get(k1), None);

    let h2 = map.allocate_handle();
    assert_eq!(h2.index(), 1);
    assert_eq!(h2.generation().get(), gen1 + 1);
    let k2 = map.insert(h2, 100).unwrap();
    assert_eq!(map.get(k1), None);
    assert_eq!(map.get(k2), Some(&100));
}

#[test]
fn test_release_without_insert_reuses_index() {
    let mut map: DeferredMap<i32> = DeferredMap::new();
    let h = map.allocate_handle();
    let index = h.index();
    let generation = h.generation().get();
    map.release_handle(h).unwrap();
    assert_eq!(map.len(), 0);
    let h2 = map.allocate_handle();
    assert_eq!(h2.index(), index);
    assert_eq!(h2.generation().get(), generation + 1);
}

#[test]
fn test_first_handle_is_index_one_generation_one() {
    let mut map: DeferredMap<i32> = DeferredMap::new();
    let h = map.allocate_handle();
    assert_eq!(h.index(), 1);
    assert_eq!(h.generation().get(), 1);
    assert_eq!(h.key().raw(), (1u64 << 32) | 1);
}

#[test]
fn test_insert_returns_the_key_of_the_handle() {
    let mut map = DeferredMap::new();
    let h = map.allocate_handle();
    let expected = h.key();
    let key = map.insert(h, 5).unwrap();
    assert_eq!(key, expected);
}

#[test]
fn test_removed_key_stays_absent() {
    let mut map = DeferredMap::new();
    let h = map.allocate_handle();
    let k = map.insert(h, 1).unwrap();
    assert_eq!(map.remove(k), Some(1));

    for round in 0..200 {
        assert_eq!(map.get(k), None);
        assert_eq!(map.get_mut(k), None);
        assert_eq!(map.remove(k), None);
        assert!(!map.contains_key(k));
        let h = map.allocate_handle();
        assert_eq!(h.index(), k.index());
        assert!(h.generation() > k.generation());
        if round % 2 == 0 {
            let fresh = map.insert(h, round).unwrap();
            assert!(!map.contains_key(k));
            assert_eq!(map.remove(fresh), Some(round));
        } else {
            map.release_handle(h).unwrap();
        }
    }
    assert_eq!(map.get(k), None);
}

#[test]
fn test_generation_grows_by_one_each_cycle() {
    let mut map = DeferredMap::new();
    let mut expected = 1;
    for cycle in 0..500 {
        let h = map.allocate_handle();
        assert_eq!(h.index(), 1);
        assert_eq!(h.generation().get(), expected);
        assert_ne!(h.generation().get(), 0);
        if cycle % 3 == 0 {
            map.release_handle(h).unwrap();
        } else {
            let k = map.insert(h, cycle).unwrap();
            assert_eq!(map.remove(k), Some(cycle));
        }
        expected += 1;
    }
    assert!(expected < MAX_GENERATION);
}

#[test]
fn test_lifo_reuse_after_removals() {
    let mut map = DeferredMap::new();
    let mut keys = Vec::new();
    for i in 0..3 {
        let h = map.allocate_handle();
        keys.push(map.insert(h, i).unwrap());
    }
    map.remove(keys[0]);
    map.remove(keys[1]);
    map.remove(keys[2]);
    let order: Vec<u32> = (0..3).map(|_| map.allocate_handle().index()).collect();
    assert_eq!(order, vec![keys[2].index(), keys[1].index(), keys[0].index()]);
    // The free list is used up: the next slot is a new one.
    assert_eq!(map.allocate_handle().index(), 4);
}

#[test]
fn test_insert_error_invalid_handle() {
    let mut map = DeferredMap::new();
    let sentinel = Handle::new(DefaultKey::new(0, Generation::min()));
    assert_eq!(map.insert(sentinel, 1), Err(DeferredMapError::InvalidHandle));
    let beyond = Handle::new(DefaultKey::new(1, Generation::min()));
    assert_eq!(map.insert(beyond, 1), Err(DeferredMapError::InvalidHandle));
    assert_eq!(map.len(), 0);
    assert_eq!(map.capacity(), 0);
}

#[test]
fn test_insert_error_generation_mismatch() {
    let mut map = DeferredMap::new();
    let h = map.allocate_handle();
    let k = h.key();
    map.release_handle(h).unwrap();
    let h2 = map.allocate_handle();
    let stale = Handle::new(k);
    assert_eq!(map.insert(stale, 1), Err(DeferredMapError::GenerationMismatch));
    assert_eq!(map.len(), 0);
    let k2 = map.insert(h2, 2).unwrap();
    assert_eq!(map.get(k2), Some(&2));
}

#[test]
fn test_insert_error_handle_already_used() {
    let mut map = DeferredMap::new();
    let h = map.allocate_handle();
    let k = map.insert(h, 1).unwrap();
    let again = Handle::new(k);
    assert_eq!(map.insert(again, 2), Err(DeferredMapError::HandleAlreadyUsed));
    assert_eq!(map.get(k), Some(&1));
    assert_eq!(map.len(), 1);
}

#[test]
fn test_error_messages() {
    assert_eq!(DeferredMapError::HandleAlreadyUsed.message(), "Handle has already been used");
    assert_eq!(DeferredMapError::InvalidHandle.message(), "Invalid handle");
    assert_eq!(DeferredMapError::GenerationMismatch.message(), "Generation mismatch");
}

#[test]
fn test_sentinel_is_never_addressable() {
    let mut map = DeferredMap::new();
    let h = map.allocate_handle();
    map.insert(h, 1).unwrap();
    let sentinel = DefaultKey::new(0, Generation::min());
    assert_eq!(map.get(sentinel), None);
    assert_eq!(map.get_mut(sentinel), None);
    assert_eq!(map.remove(sentinel), None);
    assert!(!map.contains_key(sentinel));
    assert_eq!(map.release_handle(Handle::new(sentinel)), Err(DeferredMapError::InvalidHandle));
}

#[test]
fn test_reserved_slot_is_not_visible() {
    let mut map: DeferredMap<i32> = DeferredMap::new();
    let h = map.allocate_handle();
    let k = h.key();
    assert_eq!(map.get(k), None);
    assert!(!map.contains_key(k));
    assert_eq!(map.remove(k), None);
    assert_eq!(map.iter().count(), 0);
    assert_eq!(map.iter_mut().count(), 0);
    assert_eq!(map.len(), 0);
    map.insert(h, 3).unwrap();
    assert_eq!(map.get(k), Some(&3));
}

#[test]
fn test_iter_yields_keys_in_index_order() {
    let mut map = DeferredMap::new();
    let mut keys = Vec::new();
    for i in 0..6 {
        let h = map.allocate_handle();
        keys.push(map.insert(h, i * 10).unwrap());
    }
    map.remove(keys[1]);
    map.remove(keys[4]);
    let items: Vec<(DefaultKey, i32)> = map.iter().map(|(k, v)| (k, *v)).collect();
    assert_eq!(items, vec![(keys[0], 0), (keys[2], 20), (keys[3], 30), (keys[5], 50)]);
    let items: Vec<(DefaultKey, i32)> = map.iter_mut().map(|(k, v)| (k, *v)).collect();
    assert_eq!(items, vec![(keys[0], 0), (keys[2], 20), (keys[3], 30), (keys[5], 50)]);
}

#[test]
fn test_iter_mut_writes_reach_the_map() {
    let mut map = DeferredMap::new();
    let mut keys = Vec::new();
    for i in 0..4 {
        let h = map.allocate_handle();
        keys.push(map.insert(h, i).unwrap());
    }
    for (key, value) in map.iter_mut() {
        *value += key.index() as i32 * 100;
    }
    for (i, key) in keys.iter().enumerate() {
        assert_eq!(map.get(*key), Some(&(i as i32 + (i as i32 + 1) * 100)));
    }
    assert_eq!(map.len(), 4);
}

#[test]
fn test_retain_puts_removed_slots_on_the_free_list() {
    let mut map = DeferredMap::new();
    let mut keys = Vec::new();
    for i in 0..6 {
        let h = map.allocate_handle();
        keys.push(map.insert(h, i).unwrap());
    }
    let mut visited = Vec::new();
    map.retain(|k, v| {
        visited.push(k);
        *v += 10;
        *v % 2 == 0
    });
    assert_eq!(visited, keys);
    assert_eq!(map.len(), 3);
    for (i, key) in keys.iter().enumerate() {
        if i % 2 == 0 {
            assert_eq!(map.get(*key), Some(&(i as i32 + 10)));
        } else {
            assert_eq!(map.get(*key), None);
        }
    }
    // Slots 2, 4 and 6 were vacated in that order: the last one is reused first.
    let order: Vec<u32> = (0..3).map(|_| map.allocate_handle().index()).collect();
    assert_eq!(order, vec![6, 4, 2]);
}

#[test]
fn test_retain_advances_generation_of_removed_slots() {
    let mut map = DeferredMap::new();
    let h = map.allocate_handle();
    let k = map.insert(h, 1).unwrap();
    map.retain(|_, _| false);
    assert!(map.is_empty());
    assert_eq!(map.get(k), None);
    let h2 = map.allocate_handle();
    assert_eq!(h2.index(), k.index());
    assert_eq!(h2.generation().get(), k.generation().get() + 1);
}

#[test]
fn test_reserve_and_shrink_keep_contents() {
    let mut map = DeferredMap::new();
    let mut keys = Vec::new();
    for i in 0..5 {
        let h = map.allocate_handle();
        keys.push(map.insert(h, i).unwrap());
    }
    map.remove(keys[2]);
    assert_eq!(map.capacity(), 5);
    map.reserve(20);
    assert_eq!(map.capacity(), 25);
    map.reserve(3);
    assert_eq!(map.capacity(), 25);
    for (i, key) in keys.iter().enumerate() {
        assert_eq!(map.get(*key), if i == 2 { None } else { Some(&i) });
    }
    map.shrink_to_fit();
    assert_eq!(map.capacity(), 5);
    assert_eq!(map.len(), 4);
    for (i, key) in keys.iter().enumerate() {
        assert_eq!(map.get(*key), if i == 2 { None } else { Some(&i) });
    }
    // The vacant slot is still on the free list.
    assert_eq!(map.allocate_handle().index(), 3);
}

#[test]
fn test_clear_starts_afresh() {
    let mut map = DeferredMap::new();
    for i in 0..3 {
        let h = map.allocate_handle();
        map.insert(h, i).unwrap();
    }
    let pending = map.allocate_handle();
    map.clear();
    assert_eq!(map.len(), 0);
    assert_eq!(map.capacity(), 0);
    assert_eq!(map.insert(pending, 9), Err(DeferredMapError::InvalidHandle));
    let h = map.allocate_handle();
    assert_eq!(h.index(), 1);
    assert_eq!(h.generation().get(), 1);
}

#[test]
fn test_clone_keeps_keys_free_list_and_capacity() {
    let mut map = DeferredMap::with_capacity(8);
    let mut keys = Vec::new();
    for i in 0..4 {
        let h = map.allocate_handle();
        keys.push(map.insert(h, i.to_string()).unwrap());
    }
    map.remove(keys[1]);
    let mut copy = map.clone();
    assert_eq!(copy.len(), 3);
    assert_eq!(copy.capacity(), 8);
    for (i, key) in keys.iter().enumerate() {
        assert_eq!(copy.get(*key), map.get(*key));
        assert_eq!(copy.get(*key).is_some(), i != 1);
    }
    // Both reuse the same slot next, independently.
    assert_eq!(copy.allocate_handle().index(), 2);
    assert_eq!(map.allocate_handle().index(), 2);
    if let Some(value) = copy.get_mut(keys[0]) {
        value.push('!');
    }
    assert_eq!(copy.get(keys[0]).map(|s| s.as_str()), Some("0!"));
    assert_eq!(map.get(keys[0]).map(|s| s.as_str()), Some("0"));
}

#[test]
fn test_capacity_follows_the_slots() {
    let mut map: DeferredMap<u8> = DeferredMap::with_capacity(2);
    assert_eq!(map.capacity(), 2);
    let a = map.allocate_handle();
    let _b = map.allocate_handle();
    assert_eq!(map.capacity(), 2);
    let _c = map.allocate_handle();
    assert_eq!(map.capacity(), 3);
    map.release_handle(a).unwrap();
    assert_eq!(map.capacity(), 3);
}

#[test]
fn test_removed_key_stays_absent_whatever_else_happens() {
    let mut map = DeferredMap::new();
    let h = map.allocate_handle();
    let stale = map.insert(h, 0).unwrap();
    let h = map.allocate_handle();
    let other = map.insert(h, 0).unwrap();
    assert_eq!(map.remove(stale), Some(0));

    // Operations that do not give the slot back leave its generation alone.
    for round in 0..1000 {
        *map.get_mut(other).unwrap() += 1;
        assert_eq!(map.get(other), Some(&(round + 1)));
        map.reserve(1);
        map.shrink_to_fit();
        assert!(!map.contains_key(stale));
        assert_eq!(map.insert(Handle::new(stale), 5), Err(DeferredMapError::GenerationMismatch));
    }
    let h = map.allocate_handle();
    assert_eq!(h.index(), stale.index());
    assert_eq!(h.generation().get(), stale.generation().get() + 1);
}
