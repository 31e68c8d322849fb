use image_sieve::lru_map::LruMap;

#[test]
fn test_lru() {
    let mut list: LruMap<u32, u32, 3> = LruMap::new();

    assert!(list.get(3).is_none());
    list.put(3, 6);
    assert_eq!(*list.get(3).unwrap(), 6);

    list.put(4, 8);
    list.put(5, 10);

    assert_eq!(*list.get(4).unwrap(), 8);
    assert_eq!(*list.get(5).unwrap(), 10);

    list.put(6, 12);

    assert_eq!(*list.get(6).unwrap(), 12);

    assert!(list.get(3).is_none());

    list.put(4, 4);
    list.put(7, 14);

    assert!(list.get(5).is_none());
    assert_eq!(*list.get(4).unwrap(), 4);

    list.clear();
    assert!(list.get(4).is_none());
}

#[test]
fn cache_eviction_discipline() {
    // Filling the cache one past its capacity, never re-reading the first
    // key, evicts exactly that first key.
    let mut cache: LruMap<u32, u32, 3> = LruMap::new();
    cache.put(1, 10);
    cache.put(2, 20);
    cache.put(3, 30);
    cache.put(4, 40);
    assert!(!cache.contains(1));
    assert!(cache.contains(2));
    assert!(cache.contains(3));
    assert!(cache.contains(4));

    // Reading a key before the capacity is exceeded protects it from the
    // next eviction.
    let mut cache2: LruMap<u32, u32, 3> = LruMap::new();
    cache2.put(1, 10);
    cache2.put(2, 20);
    cache2.put(3, 30);
    assert_eq!(*cache2.get(1).unwrap(), 10);
    cache2.put(4, 40);
    assert!(cache2.contains(1));
    assert!(!cache2.contains(2));

    // `contains` does not protect: it leaves recency untouched.
    let mut cache3: LruMap<u32, u32, 3> = LruMap::new();
    cache3.put(1, 10);
    cache3.put(2, 20);
    cache3.put(3, 30);
    assert!(cache3.contains(1));
    cache3.put(4, 40);
    assert!(!cache3.contains(1));
}

#[test]
fn cache_degenerate_capacities() {
    let mut tiny: LruMap<u32, u32, 1> = LruMap::new();
    tiny.put(1, 10);
    tiny.put(2, 20);
    assert!(!tiny.contains(1));
    assert_eq!(*tiny.get(2).unwrap(), 20);

    let mut zero: LruMap<u32, u32, 0> = LruMap::new();
    zero.put(1, 10);
    zero.put(2, 20);
    assert!(!zero.contains(1));
}
