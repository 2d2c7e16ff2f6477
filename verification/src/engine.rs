//! The cache engine: entry store and recency index under one policy.

use vstd::prelude::*;
use std::hash::Hash;
use crate::entry_store::EntryStore;
use crate::key::{lawful_key, clone_key};
use crate::model::CacheView;
use crate::recency::RecencyIndex;

verus! {

/// A share of the lookups counted so far: `part` out of `whole`.
#[derive(Clone, Copy, Debug, PartialEq, Eq)]
pub struct Ratio {
    pub part: usize,
    pub whole: usize,
}

/// A cache of fixed capacity that evicts the least recently used entry and
/// lets entries expire. Time is handed in by the caller, in nanoseconds on a
/// monotonic clock; expiry is checked when an entry is looked up.
pub struct CacheEngine<K, V> {
    store: EntryStore<K, V>,
    index: RecencyIndex<K>,
    hits: usize,
    misses: usize,
}

impl<K, V> View for CacheEngine<K, V> {
    type V = CacheView<K, V>;

    closed spec fn view(&self) -> CacheView<K, V> {
        CacheView {
            entries: self.store@,
            order: self.index@,
            capacity: self.index.spec_capacity() as nat,
            hits: self.hits as nat,
            misses: self.misses as nat,
        }
    }
}

impl<K: Clone + Eq + Hash, V> CacheEngine<K, V> {
    /// The two parts of the engine are each consistent.
    pub closed spec fn inv(&self) -> bool {
        &&& self.store.wf()
        &&& self.index.wf()
    }

    /// The engine is consistent: its parts are, and they hold the same keys.
    pub open spec fn wf(&self) -> bool {
        &&& lawful_key::<K>()
        &&& self.inv()
        &&& self@.wf()
    }

    /// An empty cache for at most `capacity` entries.
    pub fn new(capacity: usize) -> (cache: Self)
        requires
            capacity >= 1,
            lawful_key::<K>(),
        ensures
            cache.wf(),
            cache@ == CacheView::<K, V>::fresh(capacity as nat),
    {
        CacheEngine { store: EntryStore::new(), index: RecencyIndex::new(capacity), hits: 0, misses: 0 }
    }

    /// The number of entries the cache holds at most.
    pub fn capacity(&self) -> (capacity: usize)
        ensures
            capacity == self@.capacity,
    {
        self.index.capacity()
    }

    /// The number of entries, which is never more than the capacity.
    pub fn len(&self) -> (len: usize)
        requires
            self.wf(),
        ensures
            len == self@.len(),
            len <= self@.capacity,
    {
        self.index.len()
    }

    /// The number of lookups that found a value.
    pub fn hits(&self) -> (hits: usize)
        ensures
            hits == self@.hits,
    {
        self.hits
    }

    /// The number of lookups that found none.
    pub fn misses(&self) -> (misses: usize)
        ensures
            misses == self@.misses,
    {
        self.misses
    }

    /// The share of lookups that found a value; `None` before the first
    /// lookup, when there is no share to speak of.
    pub fn hit_ratio(&self) -> (ratio: Option<Ratio>)
        requires
            self.wf(),
        ensures
            ratio == (if self@.hits + self@.misses == 0 {
                None
            } else {
                Some(Ratio { part: self@.hits as usize, whole: (self@.hits + self@.misses) as usize })
            }),
    {
        if self.hits == 0 && self.misses == 0 {
            None
        } else {
            Some(Ratio { part: self.hits, whole: self.hits + self.misses })
        }
    }

    /// The share of lookups that found no value; `None` before the first
    /// lookup, when there is no share to speak of.
    pub fn miss_ratio(&self) -> (ratio: Option<Ratio>)
        requires
            self.wf(),
        ensures
            ratio == (if self@.hits + self@.misses == 0 {
                None
            } else {
                Some(Ratio { part: self@.misses as usize, whole: (self@.hits + self@.misses) as usize })
            }),
    {
        if self.hits == 0 && self.misses == 0 {
            None
        } else {
            Some(Ratio { part: self.misses, whole: self.hits + self.misses })
        }
    }

    fn count_hit(&mut self)
        requires
            old(self).hits + old(self).misses <= usize::MAX,
        ensures
            final(self).store == old(self).store,
            final(self).index == old(self).index,
            final(self)@ == old(self)@.count_hit(),
    {
        if self.misses < usize::MAX - self.hits {
            self.hits = self.hits + 1;
        }
    }

    fn count_miss(&mut self)
        requires
            old(self).hits + old(self).misses <= usize::MAX,
        ensures
            final(self).store == old(self).store,
            final(self).index == old(self).index,
            final(self)@ == old(self)@.count_miss(),
    {
        if self.misses < usize::MAX - self.hits {
            self.misses = self.misses + 1;
        }
    }

    /// Decides a lookup of `key` at time `now` and says whether it found a
    /// live entry. A live entry is counted as a hit and its key becomes the
    /// most recently used. Anything else is counted as a miss, and an entry
    /// found expired is removed.
    fn visit(&mut self, key: &K, now: u128) -> (live: bool)
        requires
            old(self).wf(),
        ensures
            final(self).wf(),
            final(self)@ == old(self)@.after_get(*key, now),
            live == old(self)@.live(*key, now),
    {
        proof {
            self@.lemma_get_wf(*key, now);
        }
        let expired = match self.store.get(key) {
            Some(entry) => entry.is_expired(now),
            None => {
                self.count_miss();
                assert(self@.entries =~= old(self)@.entries.remove(*key));
                return false;
            },
        };
        if expired {
            let _ = self.store.remove(key);
            let _ = self.index.remove(key);
            self.count_miss();
            false
        } else {
            let _ = self.index.promote(key);
            self.count_hit();
            true
        }
    }

    /// Looks `key` up at time `now`. A live entry is a hit: its key becomes
    /// the most recently used and its value is returned. Anything else is a
    /// miss; an entry found expired is removed.
    pub fn get(&mut self, key: &K, now: u128) -> (found: Option<&V>)
        requires
            old(self).wf(),
        ensures
            final(self).wf(),
            final(self)@ == old(self)@.after_get(*key, now),
            match found {
                Some(value) => old(self)@.value_at(*key, now) == Some(*value),
                None => old(self)@.value_at(*key, now).is_none(),
            },
    {
        if self.visit(key, now) {
            match self.store.get(key) {
                Some(entry) => Some(&entry.value),
                None => None,
            }
        } else {
            None
        }
    }

    /// Looks `key` up at time `now` as `get` does, and hands out the value
    /// found to be changed in place. What the caller leaves there is the
    /// value that the cache then holds for `key`.
    pub fn get_mut(&mut self, key: &K, now: u128) -> (found: Option<&mut V>)
        requires
            old(self).wf(),
        ensures
            final(self).wf(),
            match found {
                Some(value) => {
                    &&& old(self)@.value_at(*key, now) == Some(*value)
                    &&& final(self)@ == old(self)@.after_get(*key, now).with_value(*key, *final(value))
                },
                None => {
                    &&& old(self)@.value_at(*key, now).is_none()
                    &&& final(self)@ == old(self)@.after_get(*key, now)
                },
            },
    {
        if self.visit(key, now) {
            match self.store.get_mut(key) {
                Some(entry) => Some(&mut entry.value),
                None => None,
            }
        } else {
            None
        }
    }

    /// Stores `value` under `key` at time `now`, to live for `ttl` seconds,
    /// or for good where `ttl` is zero. The key becomes the most recently
    /// used. A new key in a full cache displaces the least recently used
    /// entry; a key that was there displaces nothing.
    pub fn set(&mut self, key: K, value: V, ttl: usize, now: u128)
        requires
            old(self).wf(),
        ensures
            final(self).wf(),
            final(self)@ == old(self)@.after_set(key, value, ttl, now),
    {
        proof {
            self@.lemma_set_wf(key, value, ttl, now);
        }
        self.store.put(clone_key(&key), value, ttl, now);
        match self.index.touch(key) {
            Some(old_key) => {
                let _ = self.store.remove(&old_key);
            },
            None => {},
        }
    }

    /// Removes the entry for `key` and returns its value, if there was one.
    /// The counters are left alone.
    pub fn remove(&mut self, key: &K) -> (removed: Option<V>)
        requires
            old(self).wf(),
        ensures
            final(self).wf(),
            final(self)@ == old(self)@.after_remove(*key),
            removed == old(self)@.removed_value(*key),
    {
        proof {
            self@.lemma_remove_wf(*key);
        }
        let _ = self.index.remove(key);
        match self.store.remove(key) {
            Some(entry) => Some(entry.value),
            None => None,
        }
    }
}

} // verus!
