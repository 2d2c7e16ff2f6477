use std::time::{Duration, Instant};
use ttl_lru_cache::TTLCache;

const SECOND: u128 = 1_000_000_000;

fn wait(millis: u64) {
    let start = Instant::now();
    while start.elapsed() < Duration::from_millis(millis) {
        std::hint::spin_loop();
    }
}

#[test]
fn ttl_cache_set_and_get_work() {
    let k1 = "k1";
    let k2 = "k2";
    let k3 = "k3";
    let v1 = "v1";
    let v2 = "v2";
    let v3 = "v3";

    let mut ttl_cache = TTLCache::new();
    ttl_cache.set(k1, v1, 300);
    ttl_cache.set(k2, v2, 300);
    ttl_cache.set(k3, v3, 300);

    assert_eq!(ttl_cache.get(&k1).unwrap(), v1);
}

#[test]
fn ttl_cache_getting_expired_entry_yields_none() {
    let k1 = "k1";
    let v1 = "v1";

    let mut ttl_cache = TTLCache::new();
    ttl_cache.set(k1, v1, 1);
    wait(2000);
    assert_eq!(ttl_cache.get(&k1).is_none(), true);
}

#[test]
fn size_of_cache_reflects_when_an_entity_is_deleted() {
    let k1 = "k1";
    let v1 = "v1";

    let mut ttl_cache = TTLCache::new();
    ttl_cache.set(k1, v1, 1);
    assert_eq!(ttl_cache.len(), 1);
    wait(2000);
    assert_eq!(ttl_cache.get(&k1).is_none(), true);
    assert_eq!(ttl_cache.len(), 0);
}

#[test]
fn ttl_entry_is_still_there_within_its_lifetime() {
    let mut ttl_cache = TTLCache::new();
    ttl_cache.set("k", 7, 1);
    wait(300);
    assert_eq!(ttl_cache.get(&"k"), Some(7));
    assert_eq!(ttl_cache.len(), 1);
}

#[test]
fn ttl_of_zero_keeps_the_entry_on_the_real_clock() {
    let mut ttl_cache = TTLCache::new();
    ttl_cache.set("k", 7, 0);
    wait(1100);
    assert_eq!(ttl_cache.get(&"k"), Some(7));
}

#[test]
fn ttl_entry_expires_once_more_than_its_lifetime_has_passed() {
    let mut ttl_cache = TTLCache::new();
    ttl_cache.set_at("k", 7, 1, 5 * SECOND);
    assert_eq!(ttl_cache.get_at(&"k", 5 * SECOND), Some(7));
    assert_eq!(ttl_cache.get_at(&"k", 6 * SECOND - 1), Some(7));
    assert_eq!(ttl_cache.get_at(&"k", 6 * SECOND), Some(7));
    assert_eq!(ttl_cache.len(), 1);
    assert_eq!(ttl_cache.get_at(&"k", 6 * SECOND + 1), None);
    assert_eq!(ttl_cache.len(), 0);
    assert_eq!(ttl_cache.get_at(&"k", 5 * SECOND), None);
}

#[test]
fn ttl_entry_is_gone_a_second_and_a_half_after_a_lifetime_of_one_second() {
    let mut ttl_cache = TTLCache::new();
    ttl_cache.set_at(1, 7, 1, 0);
    assert_eq!(ttl_cache.get_at(&1, 1_500_000_000), None);
    assert_eq!(ttl_cache.len(), 0);
    ttl_cache.set_at(1, 7, 1, 0);
    assert_eq!(ttl_cache.get_at(&1, 1_999_999_999), None);
    assert_eq!(ttl_cache.len(), 0);
}

#[test]
fn ttl_entry_expires_two_seconds_after_a_lifetime_of_one_second() {
    let mut ttl_cache = TTLCache::new();
    ttl_cache.set_at("k", 7, 1, 0);
    assert_eq!(ttl_cache.len(), 1);
    assert_eq!(ttl_cache.get_at(&"k", 2 * SECOND), None);
    assert_eq!(ttl_cache.len(), 0);
}

#[test]
fn ttl_of_zero_never_expires() {
    let mut ttl_cache = TTLCache::new();
    ttl_cache.set_at("k", 7, 0, 0);
    assert_eq!(ttl_cache.get_at(&"k", 1_000_000 * SECOND), Some(7));
    assert_eq!(ttl_cache.get_at(&"k", u128::MAX), Some(7));
    assert_eq!(ttl_cache.len(), 1);
}

#[test]
fn ttl_is_counted_from_insertion_and_not_from_the_last_lookup() {
    let mut ttl_cache = TTLCache::new();
    ttl_cache.set_at("k", 7, 2, 0);
    assert_eq!(ttl_cache.get_at(&"k", 2 * SECOND), Some(7));
    assert_eq!(ttl_cache.get_at(&"k", 2 * SECOND + 1), None);
}

#[test]
fn ttl_overwrite_restarts_the_lifetime() {
    let mut ttl_cache = TTLCache::new();
    ttl_cache.set_at("k", 1, 1, 0);
    ttl_cache.set_at("k", 2, 1, 3 * SECOND);
    assert_eq!(ttl_cache.len(), 1);
    assert_eq!(ttl_cache.get_at(&"k", 4 * SECOND), Some(2));
    assert_eq!(ttl_cache.get_at(&"k", 4 * SECOND + 1), None);
}

#[test]
fn ttl_lookup_before_the_insertion_time_finds_the_entry() {
    let mut ttl_cache = TTLCache::new();
    ttl_cache.set_at("k", 1, 1, 10 * SECOND);
    assert_eq!(ttl_cache.get_at(&"k", 0), Some(1));
}

#[test]
fn ttl_cache_with_capacity_evicts_the_least_recently_used() {
    let mut ttl_cache = TTLCache::with_capacity(2);
    ttl_cache.set_at(1, "a", 0, 0);
    ttl_cache.set_at(2, "b", 0, 0);
    assert_eq!(ttl_cache.get_at(&1, 0), Some("a"));
    ttl_cache.set_at(3, "c", 0, 0);
    assert_eq!(ttl_cache.len(), 2);
    assert_eq!(ttl_cache.get_at(&2, 0), None);
    assert_eq!(ttl_cache.get_at(&1, 0), Some("a"));
    assert_eq!(ttl_cache.get_at(&3, 0), Some("c"));
}

#[test]
fn ttl_remove_returns_the_value_even_when_expired() {
    let mut ttl_cache = TTLCache::new();
    ttl_cache.set_at("k", 1, 1, 0);
    assert_eq!(ttl_cache.remove(&"k"), Some(1));
    assert_eq!(ttl_cache.remove(&"k"), None);
    assert_eq!(ttl_cache.len(), 0);
}

#[test]
fn ttl_cache_counts_hits_and_misses() {
    let mut ttl_cache = TTLCache::new();
    assert!(ttl_cache.hit_ratio().is_none());
    ttl_cache.set_at("k", 1, 1, 0);
    assert_eq!(ttl_cache.get_at(&"k", SECOND), Some(1));
    assert_eq!(ttl_cache.get_at(&"k", 2 * SECOND), None);
    assert_eq!(ttl_cache.get_at(&"k", 2 * SECOND), None);
    let hit = ttl_cache.hit_ratio().unwrap();
    let miss = ttl_cache.miss_ratio().unwrap();
    assert_eq!((hit.part, hit.whole), (1, 3));
    assert_eq!((miss.part, miss.whole), (2, 3));
}
