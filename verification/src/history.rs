//! Histories of operations on a cache, and what holds after every one of
//! them.

use vstd::prelude::*;
use crate::model::CacheView;
use crate::recency::{lemma_touched, lemma_without, lemma_without_positions};

verus! {

/// One operation on a cache.
pub ghost enum Op<K, V> {
    /// Store `value` under `key` at time `now`, to live for `ttl` seconds.
    Store { key: K, value: V, ttl: usize, now: u128 },
    /// Look `key` up at time `now`.
    Lookup { key: K, now: u128 },
    /// Remove the entry for `key`.
    Remove { key: K },
}

impl<K, V> CacheView<K, V> {
    /// The cache after `op`.
    pub open spec fn after(self, op: Op<K, V>) -> Self {
        match op {
            Op::Store { key, value, ttl, now } => self.after_set(key, value, ttl, now),
            Op::Lookup { key, now } => self.after_get(key, now),
            Op::Remove { key } => self.after_remove(key),
        }
    }

    /// The cache after the operations of `ops`, first to last.
    pub open spec fn after_all(self, ops: Seq<Op<K, V>>) -> Self
        decreases ops.len(),
    {
        if ops.len() == 0 {
            self
        } else {
            self.after_all(ops.drop_last()).after(ops.last())
        }
    }

    /// The key that `op` uses on this cache: the key that it stores, or the
    /// key of the live entry that it finds.
    pub open spec fn used_by(self, op: Op<K, V>) -> Option<K> {
        match op {
            Op::Store { key, value, ttl, now } => Some(key),
            Op::Lookup { key, now } => if self.live(key, now) {
                Some(key)
            } else {
                None
            },
            Op::Remove { key } => None,
        }
    }

    /// The place in `ops` of the last operation that used `key`, counted
    /// from zero, the operations carried out on this cache first to last;
    /// `-1` where none of them used it.
    pub open spec fn last_use(self, ops: Seq<Op<K, V>>, key: K) -> int
        decreases ops.len(),
    {
        if ops.len() == 0 {
            -1
        } else if self.after_all(ops.drop_last()).used_by(ops.last()) == Some(key) {
            ops.len() - 1
        } else {
            self.last_use(ops.drop_last(), key)
        }
    }

    /// After `ops`, the keys stand in the order of their last use, the
    /// latest first, and each of them has been used.
    pub open spec fn in_order_of_use(self, ops: Seq<Op<K, V>>) -> bool {
        let order = self.after_all(ops).order;
        &&& forall|i: int| 0 <= i < order.len() ==> 0 <= #[trigger] self.last_use(ops, order[i])
        &&& forall|i: int, j: int|
            0 <= i < j < order.len() ==> self.last_use(ops, #[trigger] order[i]) > self.last_use(
                ops,
                #[trigger] order[j],
            )
    }

    /// Operations keep a cache well formed and leave its capacity alone.
    pub proof fn lemma_history_wf(self, ops: Seq<Op<K, V>>)
        requires
            self.wf(),
        ensures
            self.after_all(ops).wf(),
            self.after_all(ops).capacity == self.capacity,
        decreases ops.len(),
    {
        if ops.len() > 0 {
            self.lemma_history_wf(ops.drop_last());
            let before = self.after_all(ops.drop_last());
            match ops.last() {
                Op::Store { key, value, ttl, now } => before.lemma_set_wf(key, value, ttl, now),
                Op::Lookup { key, now } => before.lemma_get_wf(key, now),
                Op::Remove { key } => before.lemma_remove_wf(key),
            }
        }
    }

    /// Whatever is done to a cache, in whatever order, after each operation
    /// it holds no more entries than its capacity.
    pub proof fn lemma_never_over_capacity(self, ops: Seq<Op<K, V>>)
        requires
            self.wf(),
        ensures
            forall|n: int|
                0 <= n <= ops.len() ==> (#[trigger] self.after_all(ops.take(n))).len() <= self.capacity,
    {
        assert forall|n: int| 0 <= n <= ops.len() implies (#[trigger] self.after_all(ops.take(n))).len()
            <= self.capacity by {
            self.lemma_history_wf(ops.take(n));
        }
    }

    /// The last use of a key lies within the history.
    pub proof fn lemma_last_use_bound(self, ops: Seq<Op<K, V>>, key: K)
        ensures
            -1 <= self.last_use(ops, key) < ops.len(),
        decreases ops.len(),
    {
        if ops.len() > 0 {
            self.lemma_last_use_bound(ops.drop_last(), key);
        }
    }

    /// One more operation keeps the keys in the order of their last use,
    /// where it puts the key it used, if any, in front of keys that it left
    /// in the order they had.
    proof fn lemma_step_in_order_of_use(self, ops: Seq<Op<K, V>>, rest: Seq<K>, cut: int)
        requires
            ops.len() > 0,
            self.in_order_of_use(ops.drop_last()),
            forall|i: int|
                0 <= i < rest.len() ==> (if i < cut {
                    i
                } else {
                    i + 1
                }) < self.after_all(ops.drop_last()).order.len() && #[trigger] rest[i] == self.after_all(
                    ops.drop_last(),
                ).order[if i < cut {
                    i
                } else {
                    i + 1
                }],
            match self.after_all(ops.drop_last()).used_by(ops.last()) {
                Some(key) => self.after_all(ops).order == seq![key] + rest && !rest.contains(key),
                None => self.after_all(ops).order == rest,
            },
        ensures
            self.in_order_of_use(ops),
    {
        let prior = ops.drop_last();
        let before = self.after_all(prior);
        let used = before.used_by(ops.last());
        let order = self.after_all(ops).order;
        let at = |i: int| if i < cut { i } else { i + 1 };
        assert forall|i: int| 0 <= i < rest.len() implies {
            &&& self.last_use(ops, #[trigger] rest[i]) == self.last_use(prior, before.order[at(i)])
            &&& 0 <= self.last_use(ops, rest[i]) < ops.len() - 1
        } by {
            assert(rest[i] == before.order[at(i)]);
            assert(rest.contains(rest[i]));
            self.lemma_last_use_bound(prior, rest[i]);
        }
        assert forall|i: int, j: int| 0 <= i < j < rest.len() implies self.last_use(ops, #[trigger] rest[i])
            > self.last_use(ops, #[trigger] rest[j]) by {
            assert(rest[i] == before.order[at(i)]);
            assert(rest[j] == before.order[at(j)]);
        }
        match used {
            Some(key) => {
                assert(self.last_use(ops, key) == ops.len() - 1);
                assert forall|i: int| 0 <= i < order.len() implies 0 <= #[trigger] self.last_use(
                    ops,
                    order[i],
                ) by {
                    if i > 0 {
                        assert(order[i] == rest[i - 1]);
                    }
                }
                assert forall|i: int, j: int| 0 <= i < j < order.len() implies self.last_use(
                    ops,
                    #[trigger] order[i],
                ) > self.last_use(ops, #[trigger] order[j]) by {
                    assert(order[j] == rest[j - 1]);
                    if i > 0 {
                        assert(order[i] == rest[i - 1]);
                    }
                }
            },
            None => {},
        }
    }

    /// Starting from an empty cache, after any operations the keys stand in
    /// the order of their last use: a key that was stored or found later
    /// stands before one that was stored or found earlier.
    pub proof fn lemma_order_is_order_of_use(capacity: nat, ops: Seq<Op<K, V>>)
        requires
            capacity >= 1,
        ensures
            Self::fresh(capacity).in_order_of_use(ops),
        decreases ops.len(),
    {
        let start = Self::fresh(capacity);
        if ops.len() > 0 {
            let prior = ops.drop_last();
            Self::lemma_order_is_order_of_use(capacity, prior);
            start.lemma_history_wf(prior);
            let before = start.after_all(prior);
            let order = before.order;
            let whole = order.len() as int;
            match before.used_by(ops.last()) {
                Some(key) => {
                    lemma_touched(order, capacity, key);
                    if order.contains(key) {
                        lemma_without(order, key);
                        lemma_without_positions(order, key);
                        start.lemma_step_in_order_of_use(
                            ops,
                            crate::recency::without(order, key),
                            order.index_of(key),
                        );
                    } else if order.len() < capacity {
                        start.lemma_step_in_order_of_use(ops, order, whole);
                    } else {
                        assert forall|x: K| order.drop_last().contains(x) implies order.contains(x) by {
                            let i = order.drop_last().index_of(x);
                            assert(order[i] == x);
                        }
                        start.lemma_step_in_order_of_use(ops, order.drop_last(), whole);
                    }
                },
                None => {
                    let key = match ops.last() {
                        Op::Store { key, value, ttl, now } => key,
                        Op::Lookup { key, now } => key,
                        Op::Remove { key } => key,
                    };
                    lemma_without(order, key);
                    if order.contains(key) {
                        lemma_without_positions(order, key);
                        start.lemma_step_in_order_of_use(
                            ops,
                            crate::recency::without(order, key),
                            order.index_of(key),
                        );
                    } else {
                        start.lemma_step_in_order_of_use(ops, order, whole);
                    }
                },
            }
        }
    }

    /// Least-recently-used eviction. Take a cache that started empty and is
    /// full after `ops`. Storing a key that it does not hold removes one
    /// entry and leaves every other as it was, and the entry removed is the
    /// one whose key was last stored or found longest ago.
    pub proof fn lemma_evicts_least_recently_used(
        capacity: nat,
        ops: Seq<Op<K, V>>,
        key: K,
        value: V,
        ttl: usize,
        now: u128,
    )
        requires
            capacity >= 1,
            Self::fresh(capacity).after_all(ops).len() == capacity,
            !Self::fresh(capacity).after_all(ops).entries.contains_key(key),
        ensures
            ({
                let start = Self::fresh(capacity);
                let full = start.after_all(ops);
                let after = full.after_set(key, value, ttl, now);
                let victim = full.order.last();
                &&& full.entries.contains_key(victim)
                &&& !after.entries.contains_key(victim)
                &&& after.entries.contains_key(key)
                &&& forall|k: K|
                    full.entries.contains_key(k) && k != victim ==> {
                        &&& #[trigger] after.entries.contains_key(k)
                        &&& after.entries[k] == full.entries[k]
                        &&& start.last_use(ops, victim) < start.last_use(ops, k)
                    }
            }),
    {
        let start = Self::fresh(capacity);
        let full = start.after_all(ops);
        let victim = full.order.last();
        start.lemma_history_wf(ops);
        Self::lemma_order_is_order_of_use(capacity, ops);
        full.lemma_full_cache_gives_up_the_last(key, value, ttl, now);
        full.lemma_set_wf(key, value, ttl, now);
        let after = full.after_set(key, value, ttl, now);
        assert forall|k: K| full.entries.contains_key(k) && k != victim implies start.last_use(ops, victim)
            < start.last_use(ops, k) by {
            let i = full.order.index_of(k);
            assert(full.order[i] == k);
            assert(full.order[full.order.len() - 1] == victim);
        }
    }
}

} // verus!
