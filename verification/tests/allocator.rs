use gen_index::{AllocError, GenIndex, GenIndexAllocator};

fn filled(count: usize) -> (GenIndexAllocator<usize>, Vec<GenIndex>) {
    let mut allocator = GenIndexAllocator::with_capacity(count);
    let mut keys = Vec::new();
    for value in 0..count {
        assert!(allocator.can_allocate());
        keys.push(allocator.allocate(value).unwrap());
    }
    (allocator, keys)
}

#[test]
fn new_allocator_is_empty() {
    let allocator = GenIndexAllocator::<u8>::new();
    assert_eq!(allocator.len(), 0);
    assert!(allocator.capacity() >= 100);
    assert!(allocator.can_allocate());
}

#[test]
fn default_allocator_is_empty() {
    let allocator: GenIndexAllocator<String> = Default::default();
    assert_eq!(allocator.len(), 0);
    assert!(allocator.capacity() >= 100);
}

#[test]
fn with_capacity_zero_still_allocates() {
    let mut allocator = GenIndexAllocator::with_capacity(0);
    assert_eq!(allocator.len(), 0);
    let key = allocator.allocate('a').unwrap();
    assert_eq!(key.index(), 0);
    assert_eq!(key.generation(), 0);
    assert_eq!(allocator.len(), 1);
    assert!(allocator.capacity() >= 1);
    assert_eq!(allocator.get(&key), Some(&'a'));
}

#[test]
fn first_handles_count_up_at_generation_zero() {
    let (allocator, keys) = filled(4);
    for (position, key) in keys.iter().enumerate() {
        assert_eq!(key.index(), position);
        assert_eq!(key.generation(), 0);
    }
    assert_eq!(allocator.len(), 4);
}

#[test]
fn allocations_without_deallocation_have_distinct_positions() {
    let (mut allocator, keys) = filled(6);
    allocator.deallocate(&keys[1]).unwrap();
    allocator.deallocate(&keys[4]).unwrap();
    let mut fresh = Vec::new();
    for value in 10..15 {
        fresh.push(allocator.allocate(value).unwrap());
    }
    let positions: Vec<usize> = fresh.iter().map(|key| key.index()).collect();
    assert_eq!(positions, vec![4, 1, 6, 7, 8]);
    for i in 0..fresh.len() {
        for j in (i + 1)..fresh.len() {
            assert_ne!(fresh[i].index(), fresh[j].index());
        }
    }
}

#[test]
fn allocated_value_is_reachable_at_once() {
    let mut allocator = GenIndexAllocator::new();
    let key = allocator.allocate(String::from("first")).unwrap();
    assert_eq!(allocator.get(&key), Some(&String::from("first")));
    let other = allocator.allocate(String::from("second")).unwrap();
    assert_eq!(allocator.get(&other), Some(&String::from("second")));
    assert_eq!(allocator.get(&key), Some(&String::from("first")));
}

#[test]
fn reuse_invalidates_the_old_handle() {
    let mut allocator = GenIndexAllocator::new();
    let first = allocator.allocate(1u32).unwrap();
    assert_eq!(allocator.deallocate(&first), Ok(Some(1)));
    let second = allocator.allocate(2u32).unwrap();
    assert_eq!(second.index(), first.index());
    assert_eq!(second.generation(), first.generation() + 1);
    assert_ne!(first, second);
    assert_eq!(allocator.get(&first), None);
    assert_eq!(allocator.get(&second), Some(&2));
    assert_eq!(allocator.deallocate(&first), Err(AllocError::StaleHandle));
    assert_eq!(allocator.set(&first, 9), Err(AllocError::StaleHandle));
    assert!(allocator.get_mut(&first).is_none());
    assert_eq!(allocator.get(&second), Some(&2));
}

#[test]
fn generation_rises_by_one_with_each_reuse() {
    let mut allocator = GenIndexAllocator::new();
    let mut key = allocator.allocate(0u32).unwrap();
    assert_eq!(key.generation(), 0);
    for round in 1..50u32 {
        assert_eq!(allocator.deallocate(&key), Ok(Some(round - 1)));
        let next = allocator.allocate(round).unwrap();
        assert_eq!(next.index(), 0);
        assert_eq!(next.generation(), round);
        key = next;
    }
    assert_eq!(allocator.len(), 1);
}

#[test]
fn deallocation_does_not_change_the_generation() {
    let (mut allocator, keys) = filled(2);
    assert_eq!(allocator.deallocate(&keys[0]), Ok(Some(0)));
    // The handle still validates, and reaches nothing.
    assert_eq!(allocator.get(&keys[0]), None);
    assert_eq!(allocator.deallocate(&keys[0]), Ok(None));
    assert_eq!(allocator.set(&keys[0], 5), Err(AllocError::OverwriteEmpty));
}

#[test]
fn second_deallocation_changes_nothing() {
    let (mut allocator, keys) = filled(3);
    assert_eq!(allocator.deallocate(&keys[1]), Ok(Some(1)));
    assert_eq!(allocator.deallocate(&keys[1]), Ok(None));
    assert_eq!(allocator.deallocate(&keys[1]), Ok(None));
    // The position was queued once: the next two allocations differ in position.
    let reused = allocator.allocate(10).unwrap();
    let appended = allocator.allocate(11).unwrap();
    assert_eq!((reused.index(), reused.generation()), (1, 1));
    assert_eq!((appended.index(), appended.generation()), (3, 0));
    assert_eq!(allocator.get(&reused), Some(&10));
    assert_eq!(allocator.get(&appended), Some(&11));
    assert_eq!(allocator.len(), 4);
}

#[test]
fn handles_that_were_never_issued_reach_nothing() {
    let (mut small, small_keys) = filled(2);
    let (mut large, large_keys) = filled(5);
    // A position that the small table does not have.
    assert_eq!(small.get(&large_keys[4]), None);
    assert!(small.get_mut(&large_keys[4]).is_none());
    assert_eq!(small.deallocate(&large_keys[4]), Err(AllocError::NotFound));
    assert_eq!(small.set(&large_keys[4], 1), Err(AllocError::NotFound));
    // The first position just past the end.
    assert_eq!(small.deallocate(&large_keys[2]), Err(AllocError::NotFound));
    // A generation that the small table's slot has not reached.
    large.deallocate(&large_keys[0]).unwrap();
    let later = large.allocate(50).unwrap();
    assert_eq!((later.index(), later.generation()), (0, 1));
    assert_eq!(small.get(&later), None);
    assert!(small.get_mut(&later).is_none());
    assert_eq!(small.deallocate(&later), Err(AllocError::StaleHandle));
    assert_eq!(small.set(&later, 1), Err(AllocError::StaleHandle));
    // None of it changed the small table.
    assert_eq!(small.len(), 2);
    assert_eq!(small.get(&small_keys[0]), Some(&0));
    assert_eq!(small.get(&small_keys[1]), Some(&1));
    let next = small.allocate(2).unwrap();
    assert_eq!((next.index(), next.generation()), (2, 0));
}

#[test]
fn recycling_keeps_the_table_length() {
    let (mut allocator, keys) = filled(7);
    let capacity = allocator.capacity();
    for key in &keys[2..5] {
        assert!(allocator.deallocate(key).unwrap().is_some());
        assert!(allocator.capacity() >= capacity);
    }
    assert_eq!(allocator.len(), 7);
    for value in 0..3 {
        allocator.allocate(value).unwrap();
        assert!(allocator.capacity() >= capacity);
    }
    assert_eq!(allocator.len(), 7);
    assert_eq!(allocator.capacity(), capacity);
    allocator.allocate(100).unwrap();
    assert_eq!(allocator.len(), 8);
    assert!(allocator.capacity() >= capacity);
}

#[test]
fn freed_positions_are_reused_last_freed_first() {
    let mut allocator = GenIndexAllocator::with_capacity(5);
    let keys: Vec<GenIndex> = (0..5).map(|value| allocator.allocate(value).unwrap()).collect();
    for (position, key) in keys.iter().enumerate() {
        assert_eq!(key.index(), position);
        assert_eq!(key.generation(), 0);
    }
    assert_eq!(allocator.deallocate(&keys[3]), Ok(Some(3)));
    assert_eq!(allocator.deallocate(&keys[4]), Ok(Some(4)));
    assert_eq!(allocator.get(&keys[3]), None);
    assert_eq!(allocator.get(&keys[4]), None);
    let fifth = allocator.allocate(5).unwrap();
    let sixth = allocator.allocate(6).unwrap();
    assert_eq!((fifth.index(), fifth.generation()), (4, 1));
    assert_eq!((sixth.index(), sixth.generation()), (3, 1));
    assert_eq!(allocator.get(&fifth), Some(&5));
    assert_eq!(allocator.get(&sixth), Some(&6));
    assert_eq!(allocator.len(), 5);
}

#[test]
fn set_returns_the_previous_value() {
    let (mut allocator, keys) = filled(3);
    assert_eq!(allocator.set(&keys[1], 41), Ok(1));
    assert_eq!(allocator.set(&keys[1], 42), Ok(41));
    assert_eq!(allocator.get(&keys[1]), Some(&42));
    assert_eq!(allocator.get(&keys[0]), Some(&0));
    assert_eq!(allocator.get(&keys[2]), Some(&2));
    assert_eq!(allocator.len(), 3);
}

#[test]
fn set_does_not_fill_a_vacant_slot() {
    let (mut allocator, keys) = filled(2);
    assert_eq!(allocator.deallocate(&keys[1]), Ok(Some(1)));
    assert_eq!(allocator.set(&keys[1], 7), Err(AllocError::OverwriteEmpty));
    assert_eq!(allocator.get(&keys[1]), None);
    assert_eq!(allocator.deallocate(&keys[1]), Ok(None));
    // The slot is still the one that is reused next.
    let reused = allocator.allocate(8).unwrap();
    assert_eq!((reused.index(), reused.generation()), (1, 1));
    assert_eq!(allocator.get(&reused), Some(&8));
}

#[test]
fn get_mut_writes_in_place() {
    let (mut allocator, keys) = filled(3);
    match allocator.get_mut(&keys[2]) {
        Some(value) => {
            assert_eq!(*value, 2);
            *value = 20;
        }
        None => panic!("the handle reaches a value"),
    }
    assert_eq!(allocator.get(&keys[2]), Some(&20));
    assert_eq!(allocator.get(&keys[0]), Some(&0));
    assert_eq!(allocator.get(&keys[1]), Some(&1));
    assert_eq!(allocator.len(), 3);
    // Occupancy and generation are as before: the same handle frees the slot.
    assert_eq!(allocator.deallocate(&keys[2]), Ok(Some(20)));
    assert!(allocator.get_mut(&keys[2]).is_none());
}

#[test]
fn handles_compare_by_position_and_generation() {
    let (mut allocator, keys) = filled(2);
    let copy = keys[0];
    assert_eq!(copy, keys[0]);
    assert_ne!(keys[0], keys[1]);
    allocator.deallocate(&keys[0]).unwrap();
    let reused = allocator.allocate(9).unwrap();
    assert_eq!(reused.index(), keys[0].index());
    assert_ne!(reused, keys[0]);
}

#[test]
fn capacity_is_never_below_the_length() {
    let mut allocator = GenIndexAllocator::with_capacity(2);
    let mut last = allocator.capacity();
    for value in 0..40 {
        allocator.allocate(value).unwrap();
        assert!(allocator.capacity() >= allocator.len());
        assert!(allocator.capacity() >= last);
        last = allocator.capacity();
    }
    assert_eq!(allocator.len(), 40);
}
