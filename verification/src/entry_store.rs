//! The entry store: the values of a cache with their time of insertion and
//! their time to live.

use vstd::prelude::*;
use std::collections::HashMap;
use std::collections::hash_map::Entry as Slot;
use std::hash::Hash;
use crate::key::{lawful_key, clone_key};

verus! {

/// Nanoseconds in a second: times are counted in nanoseconds, lifetimes in
/// seconds.
pub const NANOS_PER_SECOND: u128 = 1_000_000_000;

/// The time to live of an entry that never expires.
pub const FOREVER: usize = 0;

/// More than `ttl` seconds have passed from `stored_at` to `now`, both in
/// nanoseconds on one monotonic clock. No time has passed where `now` is
/// not later than `stored_at`.
pub open spec fn outlived(stored_at: u128, ttl: usize, now: u128) -> bool {
    now > stored_at && now - stored_at > ttl * NANOS_PER_SECOND
}

/// One stored item: the value, when it was inserted, and how long it lives.
pub struct Entry<V> {
    /// The payload.
    pub value: V,
    /// The time of insertion, in nanoseconds on the cache's clock.
    pub inserted_at: u128,
    /// The time to live in seconds; zero for an entry that never expires.
    pub ttl: usize,
}

impl<V> Entry<V> {
    /// An entry has expired once more time than its time to live has
    /// passed since its insertion, to the nanosecond. One with a time to
    /// live of zero never expires.
    pub open spec fn expired_at(self, now: u128) -> bool {
        self.ttl != FOREVER && outlived(self.inserted_at, self.ttl, now)
    }

    /// Whether the entry has expired at `now`.
    pub fn is_expired(&self, now: u128) -> (expired: bool)
        ensures
            expired == self.expired_at(now),
    {
        if self.ttl == FOREVER || now <= self.inserted_at {
            false
        } else {
            now - self.inserted_at > (self.ttl as u128) * NANOS_PER_SECOND
        }
    }
}

/// The mapping from keys to entries. It stores and hands out; it judges
/// neither expiry nor recency.
pub struct EntryStore<K, V> {
    map: HashMap<K, Entry<V>>,
}

impl<K, V> View for EntryStore<K, V> {
    type V = Map<K, Entry<V>>;

    closed spec fn view(&self) -> Map<K, Entry<V>> {
        self.map@
    }
}

impl<K: Clone + Eq + Hash, V> EntryStore<K, V> {
    /// The store can be used: its key type is lawful.
    pub open spec fn wf(&self) -> bool {
        lawful_key::<K>()
    }

    /// An empty store.
    pub fn new() -> (store: Self)
        requires
            lawful_key::<K>(),
        ensures
            store.wf(),
            store@ == Map::<K, Entry<V>>::empty(),
    {
        EntryStore { map: HashMap::new() }
    }

    /// The number of entries.
    pub fn len(&self) -> (len: usize)
        requires
            self.wf(),
        ensures
            len == self@.len(),
    {
        self.map.len()
    }

    /// Whether the store holds an entry for `key`.
    pub fn contains(&self, key: &K) -> (found: bool)
        requires
            self.wf(),
        ensures
            found == self@.contains_key(*key),
    {
        self.map.contains_key(key)
    }

    /// Stores `value` under `key` with `now` as its time of insertion,
    /// in place of any entry that was there.
    pub fn put(&mut self, key: K, value: V, ttl: usize, now: u128)
        requires
            old(self).wf(),
        ensures
            final(self).wf(),
            final(self)@ == old(self)@.insert(key, (Entry { value, inserted_at: now, ttl })),
    {
        self.map.insert(key, Entry { value, inserted_at: now, ttl });
    }

    /// The entry for `key`, expired or not.
    pub fn get(&self, key: &K) -> (found: Option<&Entry<V>>)
        requires
            self.wf(),
        ensures
            match found {
                Some(entry) => self@.contains_key(*key) && *entry == self@[*key],
                None => !self@.contains_key(*key),
            },
    {
        self.map.get(key)
    }

    /// The entry for `key`, expired or not, to be changed in place. What the
    /// caller leaves in it is what the store then holds for `key`.
    pub fn get_mut(&mut self, key: &K) -> (found: Option<&mut Entry<V>>)
        requires
            old(self).wf(),
        ensures
            final(self).wf(),
            match found {
                Some(entry) => {
                    &&& old(self)@.contains_key(*key)
                    &&& *entry == old(self)@[*key]
                    &&& final(self)@ == old(self)@.insert(*key, *final(entry))
                },
                None => !old(self)@.contains_key(*key) && final(self)@ == old(self)@,
            },
    {
        match self.map.entry(clone_key(key)) {
            Slot::Occupied(occupied) => Some(occupied.into_mut()),
            Slot::Vacant(_) => None,
        }
    }

    /// Takes the entry for `key` out of the store and returns it.
    pub fn remove(&mut self, key: &K) -> (removed: Option<Entry<V>>)
        requires
            old(self).wf(),
        ensures
            final(self).wf(),
            final(self)@ == old(self)@.remove(*key),
            match removed {
                Some(entry) => old(self)@.contains_key(*key) && entry == old(self)@[*key],
                None => !old(self)@.contains_key(*key),
            },
    {
        self.map.remove(key)
    }
}

} // verus!
