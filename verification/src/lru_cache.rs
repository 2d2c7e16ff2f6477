//! A cache that evicts the least recently used entry and lets none expire.

use vstd::prelude::*;
use std::hash::Hash;
use crate::engine::{CacheEngine, Ratio};
use crate::entry_store::FOREVER;
use crate::key::lawful_key;
use crate::model::CacheView;

verus! {

/// A cache of fixed capacity for one owner. Every entry stays until it is
/// the least recently used one of a full cache and a new key arrives. Time
/// plays no part: every entry is stored at time zero to live for good, and
/// every lookup is made at time zero.
pub struct LRUCache<K, V> {
    engine: CacheEngine<K, V>,
}

impl<K, V> View for LRUCache<K, V> {
    type V = CacheView<K, V>;

    closed spec fn view(&self) -> CacheView<K, V> {
        self.engine@
    }
}

impl<K: Clone + Eq + Hash, V> LRUCache<K, V> {
    /// The engine underneath is consistent.
    pub closed spec fn inv(&self) -> bool {
        self.engine.wf()
    }

    /// The cache is consistent, and none of its entries expires.
    pub open spec fn wf(&self) -> bool {
        &&& self.inv()
        &&& self@.wf()
        &&& self@.all_permanent()
    }

    /// An empty cache for at most `size` entries.
    pub fn new(size: usize) -> (cache: LRUCache<K, V>)
        requires
            size >= 1,
            lawful_key::<K>(),
        ensures
            cache.wf(),
            cache@ == CacheView::<K, V>::fresh(size as nat),
    {
        LRUCache { engine: CacheEngine::new(size) }
    }

    /// The number of entries, which is never more than the capacity.
    pub fn len(&self) -> (len: usize)
        requires
            self.wf(),
        ensures
            len == self@.len(),
            len <= self@.capacity,
    {
        self.engine.len()
    }

    /// Looks `key` up. An entry is a hit: its key becomes the most recently
    /// used and its value is returned. No entry is a miss.
    pub fn get(&mut self, key: &K) -> (found: Option<&V>)
        requires
            old(self).wf(),
        ensures
            final(self).wf(),
            final(self)@ == old(self)@.after_get(*key, 0),
            match found {
                Some(value) => old(self)@.entries.contains_key(*key) && old(self)@.entries[*key].value
                    == *value,
                None => !old(self)@.entries.contains_key(*key),
            },
    {
        self.engine.get(key, 0)
    }

    /// Stores `value` under `key`, in place of any value that was there.
    /// The key becomes the most recently used. A new key in a full cache
    /// displaces the least recently used entry.
    pub fn set(&mut self, key: K, value: V)
        requires
            old(self).wf(),
        ensures
            final(self).wf(),
            final(self)@ == old(self)@.after_set(key, value, FOREVER, 0),
    {
        self.engine.set(key, value, FOREVER, 0);
    }

    /// Looks `key` up as `get` does, and hands out the value found to be
    /// changed in place. What the caller leaves there is the value that the
    /// cache then holds for `key`.
    pub fn get_mut(&mut self, key: &K) -> (found: Option<&mut V>)
        requires
            old(self).wf(),
        ensures
            final(self).wf(),
            match found {
                Some(value) => {
                    &&& old(self)@.entries.contains_key(*key)
                    &&& old(self)@.entries[*key].value == *value
                    &&& final(self)@ == old(self)@.after_get(*key, 0).with_value(*key, *final(value))
                },
                None => {
                    &&& !old(self)@.entries.contains_key(*key)
                    &&& final(self)@ == old(self)@.after_get(*key, 0)
                },
            },
    {
        self.engine.get_mut(key, 0)
    }

    /// Removes the entry for `key` and returns its value, if there was one.
    pub fn remove(&mut self, key: &K) -> (removed: Option<V>)
        requires
            old(self).wf(),
        ensures
            final(self).wf(),
            final(self)@ == old(self)@.after_remove(*key),
            removed == old(self)@.removed_value(*key),
    {
        self.engine.remove(key)
    }

    /// The share of lookups that found a value; `None` before the first
    /// lookup.
    pub fn hit_ratio(&self) -> (ratio: Option<Ratio>)
        requires
            self.wf(),
        ensures
            ratio == (if self@.hits + self@.misses == 0 {
                None
            } else {
                Some(Ratio { part: self@.hits as usize, whole: (self@.hits + self@.misses) as usize })
            }),
    {
        self.engine.hit_ratio()
    }

    /// The share of lookups that found no value; `None` before the first
    /// lookup.
    pub fn miss_ratio(&self) -> (ratio: Option<Ratio>)
        requires
            self.wf(),
        ensures
            ratio == (if self@.hits + self@.misses == 0 {
                None
            } else {
                Some(Ratio { part: self@.misses as usize, whole: (self@.hits + self@.misses) as usize })
            }),
    {
        self.engine.miss_ratio()
    }
}

} // verus!
