use ttl_lru_cache::VecLRUCache;

#[derive(Clone)]
struct MyValue {
    id: u32,
    name: &'static str,
}

#[test]
fn vec_lru_cache_test_lru_cache() {
    let mut lru_cache = VecLRUCache::new(2);
    let key1 = "some Key 1";
    let val1 = "some Value";
    let key2 = "some Key 2";
    lru_cache.insert(key1, "some Value");
    lru_cache.insert(key2, "some Value");
    assert_eq!(val1, lru_cache.get(&key1).unwrap());
}

#[test]
fn vec_lru_cache_test_lru_cache_size() {
    let mut lru_cache = VecLRUCache::new(2);
    let k1 = "K1";
    let k2 = "K2";
    let k3 = "K3";
    let v1 = "V1";
    let v2 = "V2";
    let v3 = "V3";
    lru_cache.insert(k1, v1);
    lru_cache.insert(k2, v2);
    lru_cache.insert(k3, v3);
    assert!(lru_cache.get(&k1).is_none());
}

#[test]
fn test() {
    // Create an empty cache, then insert some items.
    let k1 = "k1";
    let k2 = "k2";
    let k3 = "k3";
    let mut cache = VecLRUCache::new(3);
    cache.insert(k1, MyValue { id: 1, name: "Mercury" });
    cache.insert(k2, MyValue { id: 2, name: "Venus" });
    cache.insert(k3, MyValue { id: 3, name: "Earth" });

    // Use the `get` method to retrieve an item from the cache.
    // This also "touches" the item, marking it most-recently-used.
    let item = cache.get(&k1);
    assert_eq!(item.unwrap().name, "Mercury");

    // If the cache is full, inserting a new item evicts the least-recently-used item:
    let k4 = "k4";
    cache.insert(k4, MyValue { id: 4, name: "Mars" });
    assert!(cache.get(&k2).is_none());
}

#[test]
fn vec_lru_insert_twice_keeps_one_entry() {
    let mut cache = VecLRUCache::new(2);
    cache.insert("k", MyValue { id: 1, name: "Mercury" });
    cache.insert("k", MyValue { id: 2, name: "Venus" });
    assert_eq!(cache.len(), 1);
    let item = cache.get(&"k").unwrap();
    assert_eq!(item.id, 2);
    assert_eq!(item.name, "Venus");
}

#[test]
fn vec_lru_never_holds_more_than_its_capacity() {
    let mut cache = VecLRUCache::new(4);
    for i in 0..50u64 {
        cache.insert(i, i);
        assert!(cache.len() <= 4);
    }
    assert_eq!(cache.len(), 4);
    assert_eq!(cache.get(&45), None);
    assert_eq!(cache.get(&46), Some(46));
    assert_eq!(cache.get(&49), Some(49));
}
