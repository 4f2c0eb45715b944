use gateway_mesh::cache::Cache;

#[test]
fn test_cache() {
    let mut cache: Cache<usize> = Cache::new(5);
    assert_eq!(0, cache.len());

    assert!(cache.add(1));
    assert!(!cache.add(1));
    assert!(cache.add(2));
    assert!(cache.add(3));
    assert!(cache.add(4));
    assert!(cache.add(5));

    assert_eq!(5, cache.len());
    assert!(cache.add(6));
    assert_eq!(5, cache.len());
}

#[test]
fn test_cache_eviction_forgets_oldest() {
    let mut cache: Cache<usize> = Cache::new(2);
    assert!(cache.add(1));
    assert!(cache.add(2));
    // adding a third value evicts 1, so 1 counts as fresh again
    assert!(cache.add(3));
    assert!(cache.add(1));
    // 3 is still present
    assert!(!cache.add(3));
}
