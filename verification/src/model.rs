//! The cache as a mathematical value, the effect of each operation on it,
//! and what follows for every cache.

use vstd::prelude::*;
use crate::entry_store::{Entry, FOREVER, outlived};
use crate::recency::{without, touched, displaced, lemma_without, lemma_touched};

verus! {

/// `copy` is a clone of `source`: both are absent, or both are there and
/// the one is a clone of the other.
pub open spec fn cloned_option<V: Clone>(source: Option<V>, copy: Option<V>) -> bool {
    match (source, copy) {
        (Some(a), Some(b)) => cloned(a, b),
        (None, None) => true,
        _ => false,
    }
}

/// What a cache holds: its entries, the order in which their keys were last
/// used (most recently used first), its capacity and its two counters.
#[verifier::reject_recursive_types(K)]
pub ghost struct CacheView<K, V> {
    pub entries: Map<K, Entry<V>>,
    pub order: Seq<K>,
    pub capacity: nat,
    pub hits: nat,
    pub misses: nat,
}

impl<K, V> CacheView<K, V> {
    /// The keys with an entry are the keys in the order, each once, and no
    /// more of them than the capacity, which is at least one.
    pub open spec fn wf(self) -> bool {
        &&& self.capacity >= 1
        &&& self.order.no_duplicates()
        &&& self.order.len() <= self.capacity
        &&& forall|k: K|
            #![trigger self.entries.contains_key(k)]
            #![trigger self.order.contains(k)]
            self.entries.contains_key(k) <==> self.order.contains(k)
        &&& self.hits + self.misses <= usize::MAX
    }

    /// The cache as it is made: empty, nothing counted.
    pub open spec fn fresh(capacity: nat) -> Self {
        CacheView { entries: Map::empty(), order: Seq::empty(), capacity, hits: 0, misses: 0 }
    }

    /// The number of entries.
    pub open spec fn len(self) -> nat {
        self.order.len()
    }

    /// There is an entry for `key` and it has not expired at `now`.
    pub open spec fn live(self, key: K, now: u128) -> bool {
        self.entries.contains_key(key) && !self.entries[key].expired_at(now)
    }

    /// What a lookup of `key` at `now` finds.
    pub open spec fn value_at(self, key: K, now: u128) -> Option<V> {
        if self.live(key, now) {
            Some(self.entries[key].value)
        } else {
            None
        }
    }

    /// One more hit. The two counters together stop at the largest `usize`.
    pub open spec fn count_hit(self) -> Self {
        if self.hits + self.misses < usize::MAX {
            CacheView { hits: self.hits + 1, ..self }
        } else {
            self
        }
    }

    /// One more miss. The two counters together stop at the largest `usize`.
    pub open spec fn count_miss(self) -> Self {
        if self.hits + self.misses < usize::MAX {
            CacheView { misses: self.misses + 1, ..self }
        } else {
            self
        }
    }

    /// The cache after a lookup of `key` at `now`. A live entry is a hit and
    /// its key moves to the front. Anything else is a miss, and an expired
    /// entry is removed.
    pub open spec fn after_get(self, key: K, now: u128) -> Self {
        if self.live(key, now) {
            CacheView { order: touched(self.order, self.capacity, key), ..self }.count_hit()
        } else {
            CacheView {
                entries: self.entries.remove(key),
                order: without(self.order, key),
                ..self
            }.count_miss()
        }
    }

    /// The cache after `value` has been stored under `key` at `now`. The key
    /// moves to the front. A new key in a full cache displaces the key at
    /// the back, whose entry goes with it.
    pub open spec fn after_set(self, key: K, value: V, ttl: usize, now: u128) -> Self {
        let stored = self.entries.insert(key, Entry { value, inserted_at: now, ttl });
        CacheView {
            entries: match displaced(self.order, self.capacity, key) {
                Some(old_key) => stored.remove(old_key),
                None => stored,
            },
            order: touched(self.order, self.capacity, key),
            ..self
        }
    }

    /// The cache after `key` has been removed.
    pub open spec fn after_remove(self, key: K) -> Self {
        CacheView { entries: self.entries.remove(key), order: without(self.order, key), ..self }
    }

    /// The value that a removal of `key` hands back.
    pub open spec fn removed_value(self, key: K) -> Option<V> {
        if self.entries.contains_key(key) {
            Some(self.entries[key].value)
        } else {
            None
        }
    }

    /// The cache with the value under `key` replaced by `value`; the entry
    /// keeps its time of insertion and its time to live.
    pub open spec fn with_value(self, key: K, value: V) -> Self {
        CacheView {
            entries: self.entries.insert(
                key,
                Entry { value, inserted_at: self.entries[key].inserted_at, ttl: self.entries[key].ttl },
            ),
            ..self
        }
    }

    /// Every entry is one that never expires.
    pub open spec fn all_permanent(self) -> bool {
        forall|k: K| #[trigger] self.entries.contains_key(k) ==> self.entries[k].ttl == FOREVER
    }

    /// A fresh cache is well formed.
    pub proof fn lemma_fresh_wf(capacity: nat)
        requires
            capacity >= 1,
        ensures
            Self::fresh(capacity).wf(),
            Self::fresh(capacity).len() == 0,
    {
    }

    /// A lookup keeps a cache well formed, and counts once: as a hit where
    /// it finds a value, as a miss where it does not.
    pub proof fn lemma_get_wf(self, key: K, now: u128)
        requires
            self.wf(),
        ensures
            self.after_get(key, now).wf(),
            self.after_get(key, now).capacity == self.capacity,
            self.value_at(key, now).is_some() ==> self.after_get(key, now).len() == self.len(),
            self.hits + self.misses < usize::MAX ==> {
                &&& self.after_get(key, now).hits == self.hits + (if self.value_at(key, now).is_some() {
                    1nat
                } else {
                    0nat
                })
                &&& self.after_get(key, now).misses == self.misses + (if self.value_at(
                    key,
                    now,
                ).is_some() {
                    0nat
                } else {
                    1nat
                })
            },
    {
        lemma_touched(self.order, self.capacity, key);
        lemma_without(self.order, key);
    }

    /// Storing a value keeps a cache well formed, and so within its
    /// capacity; the counters stay as they are.
    pub proof fn lemma_set_wf(self, key: K, value: V, ttl: usize, now: u128)
        requires
            self.wf(),
        ensures
            self.after_set(key, value, ttl, now).wf(),
            self.after_set(key, value, ttl, now).capacity == self.capacity,
            self.after_set(key, value, ttl, now).len() <= self.capacity,
            self.after_set(key, value, ttl, now).hits == self.hits,
            self.after_set(key, value, ttl, now).misses == self.misses,
            self.after_set(key, value, ttl, now).entries.contains_key(key),
            self.after_set(key, value, ttl, now).entries[key] == (Entry {
                value,
                inserted_at: now,
                ttl,
            }),
    {
        lemma_touched(self.order, self.capacity, key);
    }

    /// A removal keeps a cache well formed; the counters stay as they are.
    pub proof fn lemma_remove_wf(self, key: K)
        requires
            self.wf(),
        ensures
            self.after_remove(key).wf(),
            self.after_remove(key).capacity == self.capacity,
            self.after_remove(key).hits == self.hits,
            self.after_remove(key).misses == self.misses,
            !self.after_remove(key).entries.contains_key(key),
    {
        lemma_without(self.order, key);
    }

    /// An entry with a time to live is gone once more time than that has
    /// passed since it was stored: the lookup finds nothing, and the cache
    /// holds one entry less than before the lookup.
    pub proof fn lemma_entry_expires(self, key: K, value: V, ttl: usize, stored_at: u128, now: u128)
        requires
            self.wf(),
            ttl >= 1,
            outlived(stored_at, ttl, now),
        ensures
            ({
                let stored = self.after_set(key, value, ttl, stored_at);
                &&& stored.value_at(key, now).is_none()
                &&& stored.after_get(key, now).len() == stored.len() - 1
                &&& !stored.after_get(key, now).entries.contains_key(key)
            }),
    {
        self.lemma_set_wf(key, value, ttl, stored_at);
    }

    /// An entry stored with a time to live of zero is found at every later
    /// time, and at every earlier one.
    pub proof fn lemma_permanent_entry_is_found(self, key: K, value: V, stored_at: u128, now: u128)
        requires
            self.wf(),
        ensures
            self.after_set(key, value, FOREVER, stored_at).value_at(key, now) == Some(value),
    {
    }

    /// Whatever has happened since it was stored, an entry with a time to
    /// live of zero that is still in the cache is found.
    pub proof fn lemma_permanent_entry_stays_live(self, key: K, now: u128)
        requires
            self.entries.contains_key(key),
            self.entries[key].ttl == FOREVER,
        ensures
            self.value_at(key, now) == Some(self.entries[key].value),
    {
    }

    /// On a fresh cache, storing a value, finding it and looking for a key
    /// that is not there counts one hit and one miss.
    pub proof fn lemma_one_hit_one_miss(
        capacity: nat,
        key: K,
        value: V,
        ttl: usize,
        stored_at: u128,
        found_at: u128,
        absent: K,
        missed_at: u128,
    )
        requires
            capacity >= 1,
            absent != key,
            ttl == FOREVER || !outlived(stored_at, ttl, found_at),
        ensures
            ({
                let stored = Self::fresh(capacity).after_set(key, value, ttl, stored_at);
                let looked = stored.after_get(key, found_at).after_get(absent, missed_at);
                &&& stored.value_at(key, found_at) == Some(value)
                &&& stored.after_get(key, found_at).value_at(absent, missed_at).is_none()
                &&& looked.hits == 1
                &&& looked.misses == 1
            }),
    {
    }

    /// Storing a second value under a key leaves the number of entries as
    /// the first store left it.
    pub proof fn lemma_overwrite_keeps_len(
        self,
        key: K,
        first: V,
        second: V,
        ttl: usize,
        first_at: u128,
        second_at: u128,
    )
        requires
            self.wf(),
        ensures
            ({
                let once = self.after_set(key, first, ttl, first_at);
                let twice = once.after_set(key, second, ttl, second_at);
                &&& twice.len() == once.len()
                &&& twice.order == once.order
                &&& twice.entries.dom() == once.entries.dom()
            }),
    {
        self.lemma_set_wf(key, first, ttl, first_at);
    }

    /// After a second value has been stored under a key, a lookup within
    /// the time to live finds the second value.
    pub proof fn lemma_overwrite_is_read_back(
        self,
        key: K,
        first: V,
        second: V,
        ttl: usize,
        first_at: u128,
        second_at: u128,
        now: u128,
    )
        requires
            self.wf(),
            ttl == FOREVER || !outlived(second_at, ttl, now),
        ensures
            self.after_set(key, first, ttl, first_at).after_set(key, second, ttl, second_at).value_at(
                key,
                now,
            ) == Some(second),
    {
    }

    /// A new key that enters a full cache displaces the key at the back of
    /// the order, and no other; every other entry stays as it was.
    pub proof fn lemma_full_cache_gives_up_the_last(self, key: K, value: V, ttl: usize, now: u128)
        requires
            self.wf(),
            self.len() == self.capacity,
            !self.entries.contains_key(key),
        ensures
            ({
                let after = self.after_set(key, value, ttl, now);
                let victim = self.order.last();
                &&& self.entries.contains_key(victim)
                &&& !after.entries.contains_key(victim)
                &&& after.len() == self.len()
                &&& after.order == seq![key] + self.order.drop_last()
                &&& forall|k: K|
                    self.entries.contains_key(k) && k != victim ==> #[trigger] after.entries.contains_key(
                        k,
                    ) && after.entries[k] == self.entries[k]
            }),
    {
    }
}

} // verus!
