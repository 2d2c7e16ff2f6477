//! A cache whose entries expire, shared between threads.

use vstd::prelude::*;
use vstd::rwlock::RwLock;
use std::hash::Hash;
use crate::engine::Ratio;
use crate::key::{lawful_key, clone_key};
use crate::ttl_cache::TTLCache;

verus! {

/// What the lock guards: a consistent single-owner cache of the given
/// capacity.
pub open spec fn guarded<K: Clone + Eq + Hash, V: Clone>(capacity: usize) -> spec_fn(TTLCache<K, V>) -> bool {
    |cache: TTLCache<K, V>| cache.wf() && cache@.capacity == capacity
}

/// A cache that many threads use through shared references: a
/// single-owner cache behind one lock, which guards entries, recency order
/// and clock together. Every operation that changes one of them takes the
/// lock for writing, a lookup too, since a lookup moves a key or removes an
/// entry. Each operation is the single-owner cache's operation of the same
/// name, carried out on the state that the lock hands over; of that state a
/// caller knows only that it is consistent, since other threads may have
/// changed it.
///
/// The lock is not released by a panic. Where the key's or the value's own
/// `hash`, `eq` or `clone` panics while the lock is held, the lock stays
/// taken and no later operation on this cache returns.
#[verifier::reject_recursive_types(K)]
#[verifier::reject_recursive_types(V)]
pub struct ThreadSafeTTLCache<K, V> {
    state: RwLock<TTLCache<K, V>, spec_fn(TTLCache<K, V>) -> bool>,
    capacity: usize,
}

impl<K: Clone + Eq + Hash + Send + Sync, V: Clone + Send + Sync> ThreadSafeTTLCache<K, V> {
    /// The number of entries the cache holds at most.
    pub closed spec fn spec_capacity(&self) -> usize {
        self.capacity
    }

    /// The lock guards a consistent cache of this cache's capacity.
    pub closed spec fn wf(&self) -> bool {
        &&& lawful_key::<K>()
        &&& self.state.pred() == guarded::<K, V>(self.capacity)
    }

    /// An empty cache that takes as many entries as the machine can count.
    pub fn new() -> (cache: Self)
        requires
            lawful_key::<K>(),
        ensures
            cache.wf(),
            cache.spec_capacity() == usize::MAX,
    {
        Self::with_capacity(usize::MAX)
    }

    /// An empty cache for at most `capacity` entries.
    pub fn with_capacity(capacity: usize) -> (cache: Self)
        requires
            capacity >= 1,
            lawful_key::<K>(),
        ensures
            cache.wf(),
            cache.spec_capacity() == capacity,
    {
        let cache = TTLCache::with_capacity(capacity);
        ThreadSafeTTLCache { state: RwLock::new(cache, Ghost(guarded::<K, V>(capacity))), capacity }
    }

    /// The number of entries the cache holds at most.
    pub fn capacity(&self) -> (capacity: usize)
        ensures
            capacity == self.spec_capacity(),
    {
        self.capacity
    }

    /// The number of entries at the moment of the call. Whatever the other
    /// threads have done, it is not more than the capacity.
    pub fn len(&self) -> (len: usize)
        requires
            self.wf(),
        ensures
            len <= self.spec_capacity(),
    {
        let handle = self.state.acquire_read();
        let len = handle.borrow().len();
        handle.release_read();
        len
    }

    /// The share of lookups that found a value, at the moment of the call;
    /// `None` before the first lookup.
    pub fn hit_ratio(&self) -> (ratio: Option<Ratio>)
        requires
            self.wf(),
        ensures
            ratio matches Some(share) ==> share.part <= share.whole && share.whole >= 1,
    {
        let handle = self.state.acquire_read();
        let ratio = handle.borrow().hit_ratio();
        handle.release_read();
        ratio
    }

    /// The share of lookups that found no value, at the moment of the call;
    /// `None` before the first lookup.
    pub fn miss_ratio(&self) -> (ratio: Option<Ratio>)
        requires
            self.wf(),
        ensures
            ratio matches Some(share) ==> share.part <= share.whole && share.whole >= 1,
    {
        let handle = self.state.acquire_read();
        let ratio = handle.borrow().miss_ratio();
        handle.release_read();
        ratio
    }

    /// Looks `key` up at the time that the cache's clock shows and returns a
    /// clone of the value of a live entry. An entry found expired is
    /// removed.
    pub fn get(&self, key: &K) -> (found: Option<V>)
        requires
            self.wf(),
    {
        let (mut cache, handle) = self.state.acquire_write();
        let found = cache.get(key);
        handle.release_write(cache);
        found
    }

    /// Stores `value` under `key` at the time that the cache's clock shows,
    /// to live for `ttl` seconds, or for good where `ttl` is zero.
    pub fn set(&self, key: &K, value: V, ttl: usize)
        requires
            self.wf(),
    {
        let owned = clone_key(key);
        let (mut cache, handle) = self.state.acquire_write();
        cache.set(owned, value, ttl);
        handle.release_write(cache);
    }

    /// Removes the entry for `key` and returns its value, if there was one.
    pub fn remove(&self, key: &K) -> (removed: Option<V>)
        requires
            self.wf(),
    {
        let (mut cache, handle) = self.state.acquire_write();
        let removed = cache.remove(key);
        handle.release_write(cache);
        removed
    }
}

} // verus!
