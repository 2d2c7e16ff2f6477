use std::time::{Duration, Instant};
use ttl_lru_cache::Clock;

#[test]
fn clock_counts_nanoseconds_from_its_making() {
    let started = Instant::now();
    let mut clock = Clock::new();
    let first = clock.now();
    while started.elapsed() < Duration::from_millis(50) {
        std::hint::spin_loop();
    }
    let second = clock.now();
    let outer = started.elapsed().as_nanos();
    assert!(second >= first);
    assert!(second - first <= outer);
    assert!(second <= outer);
    assert!(second >= 40_000_000);
}

#[test]
fn two_clocks_each_start_at_their_own_making() {
    let mut older = Clock::new();
    let started = Instant::now();
    while started.elapsed() < Duration::from_millis(20) {
        std::hint::spin_loop();
    }
    let mut younger = Clock::new();
    let young = younger.now();
    let old = older.now();
    assert!(old >= young);
    assert!(old - young >= 20_000_000);
}

#[test]
fn clock_never_shows_an_earlier_time() {
    let mut clock = Clock::new();
    let mut latest = 0;
    for _ in 0..10_000 {
        let shown = clock.now();
        assert!(shown >= latest);
        latest = shown;
    }
    assert!(latest > 0);
}
