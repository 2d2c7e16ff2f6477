use ttl_lru_cache::{CacheEngine, EntryStore, Ratio, RecencyIndex};

const SECOND: u128 = 1_000_000_000;

#[test]
fn engine_never_holds_more_than_its_capacity() {
    let mut cache = CacheEngine::new(5);
    assert_eq!(cache.capacity(), 5);
    assert_eq!(cache.len(), 0);
    for i in 0..40u32 {
        cache.set(i, i, (i % 3) as usize, i as u128 * SECOND);
        assert!(cache.len() <= 5);
        assert_eq!(cache.len(), std::cmp::min(i as usize + 1, 5));
    }
}

#[test]
fn engine_evicts_the_key_that_was_used_longest_ago() {
    let mut cache = CacheEngine::new(3);
    cache.set("a", 1, 0, 0);
    cache.set("b", 2, 0, 0);
    cache.set("c", 3, 0, 0);
    assert_eq!(cache.get(&"a", 0), Some(&1));
    cache.set("b", 20, 0, 0);
    cache.set("d", 4, 0, 0);
    assert_eq!(cache.len(), 3);
    assert_eq!(cache.get(&"c", 0), None);
    assert_eq!(cache.get(&"a", 0), Some(&1));
    assert_eq!(cache.get(&"b", 0), Some(&20));
    assert_eq!(cache.get(&"d", 0), Some(&4));
    cache.set("e", 5, 0, 0);
    assert_eq!(cache.get(&"a", 0), None);
}

#[test]
fn engine_counts_each_lookup_once() {
    let mut cache = CacheEngine::new(2);
    cache.set("k", 1, 1, 0);
    assert_eq!((cache.hits(), cache.misses()), (0, 0));
    cache.get(&"k", 0);
    assert_eq!((cache.hits(), cache.misses()), (1, 0));
    cache.get(&"absent", 0);
    assert_eq!((cache.hits(), cache.misses()), (1, 1));
    assert_eq!(cache.hit_ratio(), Some(Ratio { part: 1, whole: 2 }));
    assert_eq!(cache.miss_ratio(), Some(Ratio { part: 1, whole: 2 }));
    cache.get(&"k", 2 * SECOND);
    assert_eq!((cache.hits(), cache.misses()), (1, 2));
    cache.remove(&"k");
    cache.set("k", 2, 0, 0);
    assert_eq!((cache.hits(), cache.misses()), (1, 2));
    assert_eq!(cache.miss_ratio(), Some(Ratio { part: 2, whole: 3 }));
}

#[test]
fn engine_ratios_have_no_value_without_lookups() {
    let cache: CacheEngine<u8, u8> = CacheEngine::new(1);
    assert_eq!(cache.hit_ratio(), None);
    assert_eq!(cache.miss_ratio(), None);
}

#[test]
fn engine_expiry_removes_the_entry_and_frees_its_place() {
    let mut cache = CacheEngine::new(2);
    cache.set(1, "a", 1, 0);
    cache.set(2, "b", 0, 0);
    assert_eq!(cache.get(&1, 2 * SECOND), None);
    assert_eq!(cache.len(), 1);
    cache.set(3, "c", 0, 2 * SECOND);
    assert_eq!(cache.len(), 2);
    assert_eq!(cache.get(&2, 2 * SECOND), Some(&"b"));
    assert_eq!(cache.get(&3, 2 * SECOND), Some(&"c"));
}

#[test]
fn engine_expired_entry_still_takes_a_place_until_looked_up() {
    let mut cache = CacheEngine::new(2);
    cache.set(1, "a", 1, 0);
    cache.set(2, "b", 0, 0);
    cache.set(3, "c", 0, 10 * SECOND);
    assert_eq!(cache.len(), 2);
    assert_eq!(cache.get(&1, 10 * SECOND), None);
    assert_eq!(cache.get(&2, 10 * SECOND), Some(&"b"));
}

#[test]
fn engine_get_mut_changes_a_live_entry_only() {
    let mut cache = CacheEngine::new(2);
    cache.set("k", 1, 1, 0);
    *cache.get_mut(&"k", SECOND).unwrap() = 5;
    assert_eq!(cache.get(&"k", SECOND), Some(&5));
    assert!(cache.get_mut(&"k", SECOND + 1).is_none());
    assert_eq!(cache.len(), 0);
    assert_eq!((cache.hits(), cache.misses()), (2, 1));
}

#[test]
fn engine_remove_is_not_counted() {
    let mut cache = CacheEngine::new(2);
    cache.set("k", 1, 0, 0);
    assert_eq!(cache.remove(&"k"), Some(1));
    assert_eq!(cache.remove(&"k"), None);
    assert_eq!((cache.hits(), cache.misses()), (0, 0));
    assert_eq!(cache.len(), 0);
}

#[test]
fn recency_index_reports_the_key_that_makes_room() {
    let mut index = RecencyIndex::new(2);
    assert_eq!(index.capacity(), 2);
    assert_eq!(index.touch("a"), None);
    assert_eq!(index.touch("b"), None);
    assert_eq!(index.touch("a"), None);
    assert_eq!(index.len(), 2);
    assert_eq!(index.touch("c"), Some("b"));
    assert!(index.contains(&"a"));
    assert!(index.contains(&"c"));
    assert!(!index.contains(&"b"));
    assert_eq!(index.touch("d"), Some("a"));
    assert_eq!(index.len(), 2);
}

#[test]
fn recency_index_remove_takes_a_key_out_wherever_it_stands() {
    let mut index = RecencyIndex::new(4);
    for key in [1, 2, 3, 4] {
        assert_eq!(index.touch(key), None);
    }
    assert!(index.remove(&4));
    assert!(index.remove(&1));
    assert!(index.remove(&3));
    assert!(!index.remove(&3));
    assert_eq!(index.len(), 1);
    assert_eq!(index.touch(5), None);
    assert_eq!(index.touch(6), None);
    assert_eq!(index.touch(7), None);
    assert_eq!(index.touch(8), Some(2));
    assert_eq!(index.touch(9), Some(5));
    assert!(index.remove(&9));
    assert_eq!(index.len(), 3);
    assert_eq!(index.touch(6), None);
    assert_eq!(index.touch(10), None);
    assert_eq!(index.touch(11), Some(7));
    assert_eq!(index.touch(12), Some(8));
    assert_eq!(index.touch(13), Some(6));
}

#[test]
fn entry_store_keeps_metadata_and_does_not_judge_expiry() {
    let mut store = EntryStore::new();
    assert!(!store.contains(&"k"));
    store.put("k", 1, 1, 5);
    assert!(store.contains(&"k"));
    assert_eq!(store.len(), 1);
    let entry = store.get(&"k").unwrap();
    assert_eq!((entry.value, entry.inserted_at, entry.ttl), (1, 5, 1));
    assert!(entry.is_expired(5 + 2 * SECOND));
    assert!(entry.is_expired(5 + SECOND + 1));
    assert!(!entry.is_expired(5 + SECOND));
    assert!(!entry.is_expired(5));
    assert!(!entry.is_expired(0));
    store.put("k", 2, 0, 9);
    assert_eq!(store.len(), 1);
    store.get_mut(&"k").unwrap().value = 3;
    assert!(store.get_mut(&"absent").is_none());
    let removed = store.remove(&"k").unwrap();
    assert_eq!((removed.value, removed.inserted_at, removed.ttl), (3, 9, 0));
    assert!(!removed.is_expired(u128::MAX));
    assert!(store.remove(&"k").is_none());
    assert!(store.get(&"k").is_none());
}

#[test]
fn recency_index_promote_moves_a_key_that_is_there() {
    let mut index = RecencyIndex::new(3);
    index.touch(1);
    index.touch(2);
    index.touch(3);
    assert!(index.promote(&1));
    assert!(!index.promote(&4));
    assert_eq!(index.len(), 3);
    assert_eq!(index.touch(5), Some(2));
    assert_eq!(index.touch(6), Some(3));
    assert_eq!(index.touch(7), Some(1));
}

#[test]
fn clone_key_hands_back_an_equal_key() {
    let key = String::from("k");
    assert_eq!(ttl_lru_cache::key::clone_key(&key), key);
    assert_eq!(ttl_lru_cache::key::clone_key(&7u8), 7);
}
