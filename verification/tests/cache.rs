use worldgen::layer::LayerCache;

#[test]
fn cache_finds_what_was_inserted() {
    let mut cache: LayerCache<i32> = LayerCache::new();
    assert_eq!(cache.get(3, 4), None);
    cache.insert(3, 4, 99);
    assert_eq!(cache.get(3, 4), Some(&99));
    // Same slot (low 4 bits), other cell: evicts.
    assert_eq!(cache.get(19, 4), None);
    cache.insert(19, 4, 7);
    assert_eq!(cache.get(19, 4), Some(&7));
    assert_eq!(cache.get(3, 4), None);
    // Another slot keeps its value.
    cache.insert(5, 5, 1);
    assert_eq!(cache.get(19, 4), Some(&7));
    assert_eq!(cache.get(5, 5), Some(&1));
}

#[test]
fn cache_clear_empties_every_slot() {
    let mut cache: LayerCache<u8> = LayerCache::new();
    for x in -20..20 {
        cache.insert(x, -x, 1);
    }
    cache.clear();
    for x in -20..20 {
        assert_eq!(cache.get(x, -x), None);
    }
}

#[test]
fn cache_get_or_insert_computes_once() {
    let mut cache: LayerCache<i64> = LayerCache::new();
    assert_eq!(*cache.get_or_insert(-1, -1, || 10), 10);
    assert_eq!(*cache.get_or_insert(-1, -1, || 20), 10);
    assert_eq!(*cache.get_or_insert(15, -17, || 30), 30);
    assert_eq!(cache.get(-1, -1), None);
    assert_eq!(cache.get(15, -17), Some(&30));
}
