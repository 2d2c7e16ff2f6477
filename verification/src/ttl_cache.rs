//! A cache for one owner whose entries expire, with a clock of its own.

use vstd::prelude::*;
use std::hash::Hash;
use crate::clock::Clock;
use crate::engine::{CacheEngine, Ratio};
use crate::key::lawful_key;
use crate::model::{CacheView, cloned_option};

verus! {

/// A cache whose entries live for a number of seconds, or for good. It
/// reads the time from its own clock; `set_at` and `get_at` take the time
/// from the caller instead.
pub struct TTLCache<K, V> {
    engine: CacheEngine<K, V>,
    clock: Clock,
}

impl<K, V> View for TTLCache<K, V> {
    type V = CacheView<K, V>;

    closed spec fn view(&self) -> CacheView<K, V> {
        self.engine@
    }
}

impl<K: Clone + Eq + Hash, V: Clone> TTLCache<K, V> {
    /// The engine underneath is consistent.
    pub closed spec fn inv(&self) -> bool {
        self.engine.wf()
    }

    /// The cache is consistent.
    pub open spec fn wf(&self) -> bool {
        &&& self.inv()
        &&& self@.wf()
    }

    /// The latest time that the cache's clock has shown.
    pub closed spec fn clock_reading(&self) -> u128 {
        self.clock.reading()
    }

    /// An empty cache that takes as many entries as the machine can count.
    pub fn new() -> (cache: Self)
        requires
            lawful_key::<K>(),
        ensures
            cache.wf(),
            cache@ == CacheView::<K, V>::fresh(usize::MAX as nat),
            cache.clock_reading() == 0,
    {
        TTLCache { engine: CacheEngine::new(usize::MAX), clock: Clock::new() }
    }

    /// An empty cache for at most `capacity` entries.
    pub fn with_capacity(capacity: usize) -> (cache: Self)
        requires
            capacity >= 1,
            lawful_key::<K>(),
        ensures
            cache.wf(),
            cache@ == CacheView::<K, V>::fresh(capacity as nat),
            cache.clock_reading() == 0,
    {
        TTLCache { engine: CacheEngine::new(capacity), clock: Clock::new() }
    }

    /// The number of entries, expired ones that no lookup has met included.
    pub fn len(&self) -> (len: usize)
        requires
            self.wf(),
        ensures
            len == self@.len(),
            len <= self@.capacity,
    {
        self.engine.len()
    }

    /// Stores `value` under `key` with `now` as its time of insertion, to
    /// live for `ttl` seconds, or for good where `ttl` is zero.
    pub fn set_at(&mut self, key: K, value: V, ttl: usize, now: u128)
        requires
            old(self).wf(),
        ensures
            final(self).wf(),
            final(self)@ == old(self)@.after_set(key, value, ttl, now),
            final(self).clock_reading() == old(self).clock_reading(),
    {
        self.engine.set(key, value, ttl, now);
    }

    /// Looks `key` up at time `now` and returns a clone of the value of a
    /// live entry. An entry found expired is removed.
    pub fn get_at(&mut self, key: &K, now: u128) -> (found: Option<V>)
        requires
            old(self).wf(),
        ensures
            final(self).wf(),
            final(self)@ == old(self)@.after_get(*key, now),
            final(self).clock_reading() == old(self).clock_reading(),
            cloned_option(old(self)@.value_at(*key, now), found),
    {
        match self.engine.get(key, now) {
            Some(value) => {
                let copy = value.clone();
                assert(cloned(*value, copy));
                Some(copy)
            },
            None => None,
        }
    }

    /// Stores `value` under `key` as `set_at` does, at the time that the
    /// cache's clock shows, which is no earlier than any it has shown.
    pub fn set(&mut self, key: K, value: V, ttl: usize)
        requires
            old(self).wf(),
        ensures
            final(self).wf(),
            final(self).clock_reading() >= old(self).clock_reading(),
            final(self)@ == old(self)@.after_set(key, value, ttl, final(self).clock_reading()),
    {
        let now = self.clock.now();
        self.set_at(key, value, ttl, now);
    }

    /// Looks `key` up as `get_at` does, at the time that the cache's clock
    /// shows, which is no earlier than any it has shown.
    pub fn get(&mut self, key: &K) -> (found: Option<V>)
        requires
            old(self).wf(),
        ensures
            final(self).wf(),
            final(self).clock_reading() >= old(self).clock_reading(),
            final(self)@ == old(self)@.after_get(*key, final(self).clock_reading()),
            cloned_option(old(self)@.value_at(*key, final(self).clock_reading()), found),
    {
        let now = self.clock.now();
        self.get_at(key, now)
    }

    /// The share of lookups that found a value; `None` before the first
    /// lookup.
    pub fn hit_ratio(&self) -> (ratio: Option<Ratio>)
        requires
            self.wf(),
        ensures
            ratio == (if self@.hits + self@.misses == 0 {
                None
            } else {
                Some(Ratio { part: self@.hits as usize, whole: (self@.hits + self@.misses) as usize })
            }),
    {
        self.engine.hit_ratio()
    }

    /// The share of lookups that found no value; `None` before the first
    /// lookup.
    pub fn miss_ratio(&self) -> (ratio: Option<Ratio>)
        requires
            self.wf(),
        ensures
            ratio == (if self@.hits + self@.misses == 0 {
                None
            } else {
                Some(Ratio { part: self@.misses as usize, whole: (self@.hits + self@.misses) as usize })
            }),
    {
        self.engine.miss_ratio()
    }

    /// Removes the entry for `key` and returns its value, if there was one.
    pub fn remove(&mut self, key: &K) -> (removed: Option<V>)
        requires
            old(self).wf(),
        ensures
            final(self).wf(),
            final(self)@ == old(self)@.after_remove(*key),
            final(self).clock_reading() == old(self).clock_reading(),
            removed == old(self)@.removed_value(*key),
    {
        self.engine.remove(key)
    }
}

} // verus!
