//! A least-recently-used cache that hands out copies of its values.

use vstd::prelude::*;
use std::hash::Hash;
use crate::engine::CacheEngine;
use crate::entry_store::FOREVER;
use crate::key::lawful_key;
use crate::model::{CacheView, cloned_option};

verus! {

/// A cache of fixed capacity for one owner, whose lookups return a clone of
/// the value found. No entry expires: every entry is stored at time zero to
/// live for good, and every lookup is made at time zero.
pub struct VecLRUCache<K, V> {
    engine: CacheEngine<K, V>,
}

impl<K, V> View for VecLRUCache<K, V> {
    type V = CacheView<K, V>;

    closed spec fn view(&self) -> CacheView<K, V> {
        self.engine@
    }
}

impl<K: Clone + Eq + Hash, V: Clone> VecLRUCache<K, V> {
    /// The engine underneath is consistent.
    pub closed spec fn inv(&self) -> bool {
        self.engine.wf()
    }

    /// The cache is consistent, and none of its entries expires.
    pub open spec fn wf(&self) -> bool {
        &&& self.inv()
        &&& self@.wf()
        &&& self@.all_permanent()
    }

    /// An empty cache for at most `size` entries.
    pub fn new(size: usize) -> (cache: Self)
        requires
            size > 0,
            lawful_key::<K>(),
        ensures
            cache.wf(),
            cache@ == CacheView::<K, V>::fresh(size as nat),
    {
        VecLRUCache { engine: CacheEngine::new(size) }
    }

    /// The number of entries, which is never more than the capacity.
    pub fn len(&self) -> (len: usize)
        requires
            self.wf(),
        ensures
            len == self@.len(),
            len <= self@.capacity,
    {
        self.engine.len()
    }

    /// Stores `value` under `key`, in place of any value that was there.
    /// The key becomes the most recently used. A new key in a full cache
    /// displaces the least recently used entry.
    pub fn insert(&mut self, key: K, value: V)
        requires
            old(self).wf(),
        ensures
            final(self).wf(),
            final(self)@ == old(self)@.after_set(key, value, FOREVER, 0),
    {
        self.engine.set(key, value, FOREVER, 0);
    }

    /// Looks `key` up. An entry is a hit: its key becomes the most recently
    /// used and a clone of its value is returned. No entry is a miss.
    pub fn get(&mut self, key: &K) -> (found: Option<V>)
        requires
            old(self).wf(),
        ensures
            final(self).wf(),
            final(self)@ == old(self)@.after_get(*key, 0),
            found.is_some() == old(self)@.entries.contains_key(*key),
            cloned_option(old(self)@.value_at(*key, 0), found),
    {
        match self.engine.get(key, 0) {
            Some(value) => {
                let copy = value.clone();
                assert(cloned(*value, copy));
                Some(copy)
            },
            None => None,
        }
    }
}

} // verus!
