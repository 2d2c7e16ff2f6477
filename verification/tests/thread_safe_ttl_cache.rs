use std::sync::Arc;
use std::time::{Duration, Instant};
use ttl_lru_cache::ThreadSafeTTLCache;

#[test]
fn shared_cache_is_used_through_shared_references() {
    let cache: Arc<ThreadSafeTTLCache<u8, &str>> = Arc::new(ThreadSafeTTLCache::new());
    let other = Arc::clone(&cache);
    assert_eq!(cache.get(&1), None);
    other.set(&1, "hello from the thread!", 0);
    assert_eq!(cache.get(&1), Some("hello from the thread!"));
    assert_eq!(other.len(), 1);
    assert_eq!(cache.remove(&1), Some("hello from the thread!"));
    assert_eq!(other.len(), 0);
}

#[test]
fn shared_cache_stays_within_its_capacity() {
    let cache: ThreadSafeTTLCache<u32, u32> = ThreadSafeTTLCache::with_capacity(3);
    assert_eq!(cache.capacity(), 3);
    for i in 0..20 {
        cache.set(&i, i, 300);
        assert!(cache.len() <= 3);
    }
    assert_eq!(cache.len(), 3);
    assert_eq!(cache.get(&16), None);
    assert_eq!(cache.get(&17), Some(17));
    assert_eq!(cache.get(&19), Some(19));
}

#[test]
fn shared_cache_drops_an_expired_entry_on_lookup() {
    let cache: ThreadSafeTTLCache<u8, &str> = ThreadSafeTTLCache::new();
    cache.set(&1, "short", 1);
    cache.set(&2, "long", 300);
    assert_eq!(cache.get(&1), Some("short"));
    let start = Instant::now();
    while start.elapsed() < Duration::from_millis(2500) {
        std::hint::spin_loop();
    }
    assert_eq!(cache.len(), 2);
    assert_eq!(cache.get(&1), None);
    assert_eq!(cache.len(), 1);
    assert_eq!(cache.get(&2), Some("long"));
}

fn needs_send_and_sync<T: Send + Sync>(_: &T) {}

#[test]
fn shared_cache_can_be_handed_to_other_threads() {
    let cache: ThreadSafeTTLCache<u8, &str> = ThreadSafeTTLCache::new();
    needs_send_and_sync(&cache);
    assert_eq!(cache.capacity(), usize::MAX);
}

#[test]
fn shared_cache_counts_hits_and_misses() {
    let cache: ThreadSafeTTLCache<u8, u8> = ThreadSafeTTLCache::with_capacity(2);
    assert!(cache.hit_ratio().is_none());
    assert!(cache.miss_ratio().is_none());
    cache.set(&1, 1, 0);
    assert_eq!(cache.get(&1), Some(1));
    assert_eq!(cache.get(&2), None);
    let hit = cache.hit_ratio().unwrap();
    let miss = cache.miss_ratio().unwrap();
    assert_eq!((hit.part, hit.whole), (1, 2));
    assert_eq!((miss.part, miss.whole), (1, 2));
    assert_eq!(hit.part as f64 / hit.whole as f64, 0.5);
}
