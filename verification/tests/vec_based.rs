use gen_index::{AllocError, GenIndex, GenIndexAllocator};

#[test]
fn test_create_with_capacity() -> Result<(), AllocError> {
    let capacity = 200;
    let gen_alloc = GenIndexAllocator::<i32>::with_capacity(capacity);
    assert_eq!(gen_alloc.capacity(), capacity);
    Ok(())
}

#[test]
fn test_allocate_and_get() -> Result<(), AllocError> {
    let mut gen_alloc = GenIndexAllocator::with_capacity(10);

    // Create value and check it
    let value1 = 1i32;
    let key1 = gen_alloc.allocate(value1)?;
    assert_eq!(gen_alloc.len(), 1);
    assert_eq!(gen_alloc.get(&key1), Some(&value1));

    Ok(())
}

#[test]
fn test_allocate_and_set() -> Result<(), AllocError> {
    let mut gen_alloc = GenIndexAllocator::with_capacity(10);

    // Create value and check it
    let value1 = 1i32;
    let key1 = gen_alloc.allocate(value1)?;
    assert_eq!(gen_alloc.len(), 1);
    assert_eq!(gen_alloc.get(&key1), Some(&value1));

    // Create value and check it
    let value2 = 2i32;
    let key2 = gen_alloc.allocate(value2)?;
    assert_eq!(gen_alloc.len(), 2);
    assert_eq!(gen_alloc.get(&key2), Some(&value2));

    // Set first key to different value - the second value should be unchanged
    let new_value1 = 99i32;
    gen_alloc.set(&key1, new_value1)?;
    assert_eq!(gen_alloc.len(), 2);
    assert_eq!(gen_alloc.get(&key1), Some(&new_value1));
    assert_eq!(gen_alloc.get(&key2), Some(&value2));

    Ok(())
}

#[test]
fn test_reuse_free_indices() -> Result<(), AllocError> {
    let capacity = 5;
    let mut gen_alloc = GenIndexAllocator::with_capacity(capacity);
    assert_eq!(gen_alloc.len(), 0);
    assert_eq!(gen_alloc.capacity(), capacity);

    let mut alloced_keys: Vec<GenIndex> = (0..capacity)
        .into_iter()
        .map(|value| gen_alloc.allocate(value).expect("Should allocate"))
        .collect();

    // We created the values in order - check that each key points to the right value
    for (value, key) in alloced_keys.iter().enumerate() {
        assert_eq!(gen_alloc.get(key), Some(&value));
    }

    // Split the keys and free some of them
    let num_keys_to_free = 2;
    let to_free = alloced_keys.split_off(capacity - num_keys_to_free);

    for key in to_free.iter() {
        gen_alloc.deallocate(key)?;
    }

    assert_eq!(
        gen_alloc.len(),
        capacity,
        "We do not remove entries so the length should be unchanged"
    );
    assert_eq!(
        gen_alloc.capacity(),
        capacity,
        "We do not exceed capacity so it should be unchanged"
    );

    // Reuse indices, the capacity should be unchanged but old keys should get invalid
    let reused_entries_keys: Vec<GenIndex> = (0..num_keys_to_free)
        .into_iter()
        .map(|value| gen_alloc.allocate(value).expect("Should allocate"))
        .collect();

    assert_eq!(
        gen_alloc.len(),
        capacity,
        "We do not remove entries so the length should be unchanged"
    );
    assert_eq!(
        gen_alloc.capacity(),
        capacity,
        "We do not exceed capacity so it should be unchanged"
    );

    for key in to_free.iter() {
        assert_eq!(
            gen_alloc.get(key),
            None,
            "This key should be invalid because the generation does not match"
        );
    }

    for (value, key) in reused_entries_keys.iter().enumerate() {
        assert_eq!(gen_alloc.get(key), Some(&value));
    }

    Ok(())
}
