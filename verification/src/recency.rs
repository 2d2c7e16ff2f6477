//! The recency index: the keys of a cache in order of use.

use vstd::prelude::*;
use std::collections::HashMap;
use std::hash::Hash;
use crate::key::{lawful_key, clone_key};
use crate::seq_facts::{lemma_remove_members, lemma_push_front_members, lemma_index_of_unique, lemma_drop_last_is_remove};

verus! {

/// `order` with `key` taken out; `order` itself where `key` does not occur.
pub open spec fn without<K>(order: Seq<K>, key: K) -> Seq<K> {
    if order.contains(key) {
        order.remove(order.index_of(key))
    } else {
        order
    }
}

/// The order after `key` has been used: `key` moves to the front, or enters
/// there; where it enters a full index, the last key makes room.
pub open spec fn touched<K>(order: Seq<K>, capacity: nat, key: K) -> Seq<K> {
    if order.contains(key) {
        seq![key] + without(order, key)
    } else if order.len() < capacity {
        seq![key] + order
    } else {
        seq![key] + order.drop_last()
    }
}

/// The key that makes room when `key` is used: the last one, and only where
/// `key` is new and the index is full.
pub open spec fn displaced<K>(order: Seq<K>, capacity: nat, key: K) -> Option<K> {
    if !order.contains(key) && order.len() >= capacity && order.len() > 0 {
        Some(order.last())
    } else {
        None
    }
}

/// Taking a key out of a duplicate-free order removes that key and nothing
/// else, and leaves the other keys in the order they had.
pub proof fn lemma_without<K>(order: Seq<K>, key: K)
    requires
        order.no_duplicates(),
    ensures
        without(order, key).no_duplicates(),
        !without(order, key).contains(key),
        forall|x: K| #[trigger] without(order, key).contains(x) <==> (order.contains(x) && x != key),
        order.contains(key) ==> without(order, key).len() == order.len() - 1,
        !order.contains(key) ==> without(order, key) == order,
{
    if order.contains(key) {
        lemma_remove_members(order, order.index_of(key));
    }
}

/// Where the keys of an order stand once one of them has been taken out:
/// those before it where they stood, those behind it one place further up.
pub proof fn lemma_without_positions<K>(order: Seq<K>, key: K)
    requires
        order.no_duplicates(),
        order.contains(key),
    ensures
        0 <= order.index_of(key) < order.len(),
        order[order.index_of(key)] == key,
        without(order, key).len() == order.len() - 1,
        forall|i: int|
            0 <= i < order.len() - 1 ==> #[trigger] without(order, key)[i] == order[if i
                < order.index_of(key) {
                i
            } else {
                i + 1
            }],
{
}

/// Using a key keeps a duplicate-free order within its capacity
/// duplicate-free and within its capacity. The key used stands first; the
/// keys behind it are those that were there, but for the one displaced.
pub proof fn lemma_touched<K>(order: Seq<K>, capacity: nat, key: K)
    requires
        order.no_duplicates(),
        order.len() <= capacity,
        capacity >= 1,
    ensures
        touched(order, capacity, key).no_duplicates(),
        touched(order, capacity, key).len() <= capacity,
        touched(order, capacity, key).len() >= 1,
        touched(order, capacity, key)[0] == key,
        forall|x: K| #[trigger]
            touched(order, capacity, key).contains(x) <==> (x == key || (order.contains(x)
                && displaced(order, capacity, key) != Some(x))),
        touched(order, capacity, key).len() == (if order.contains(key) || order.len() == capacity {
            order.len()
        } else {
            (order.len() + 1) as nat
        }),
        displaced(order, capacity, key) matches Some(old_key) ==> order.contains(old_key) && old_key
            != key,
{
    if order.contains(key) {
        lemma_without(order, key);
        lemma_push_front_members(without(order, key), key);
    } else if order.len() < capacity {
        lemma_push_front_members(order, key);
    } else {
        let last = order.len() - 1;
        lemma_drop_last_is_remove(order);
        lemma_remove_members(order, last);
        lemma_push_front_members(order.drop_last(), key);
        assert(order.contains(order[last]));
    }
}

/// Marks the absence of a neighbour in the chain of slots.
const NIL: usize = usize::MAX;

struct Slot<K> {
    key: K,
    prev: usize,
    next: usize,
}

spec fn link_before(order: Seq<usize>, i: int) -> usize {
    if i == 0 {
        NIL
    } else {
        order[i - 1]
    }
}

spec fn link_after(order: Seq<usize>, i: int) -> usize {
    if i + 1 == order.len() {
        NIL
    } else {
        order[i + 1]
    }
}

/// The slot at position `i` of `order` exists and points at its neighbours.
spec fn well_linked<K>(slots: Seq<Slot<K>>, order: Seq<usize>, i: int) -> bool {
    &&& order[i] < slots.len()
    &&& order[i] != NIL
    &&& slots[order[i] as int].prev == link_before(order, i)
    &&& slots[order[i] as int].next == link_after(order, i)
}

/// The slots named by `order` form a doubly linked chain from `head` to
/// `tail`, in that order.
spec fn chained<K>(slots: Seq<Slot<K>>, order: Seq<usize>, head: usize, tail: usize) -> bool {
    &&& order.no_duplicates()
    &&& forall|i: int| 0 <= i < order.len() ==> #[trigger] well_linked(slots, order, i)
    &&& head == (if order.len() == 0 {
        NIL
    } else {
        order[0]
    })
    &&& tail == (if order.len() == 0 {
        NIL
    } else {
        order[order.len() - 1]
    })
}

spec fn same_keys<K>(before: Seq<Slot<K>>, after: Seq<Slot<K>>) -> bool {
    &&& before.len() == after.len()
    &&& forall|j: int| 0 <= j < before.len() ==> (#[trigger] after[j]).key == before[j].key
}

/// The keys of the slots that `order` names, in that order.
spec fn keys_of<K>(slots: Seq<Slot<K>>, order: Seq<usize>) -> Seq<K> {
    Seq::new(order.len(), |i: int| slots[order[i] as int].key)
}

/// The key at position `i` of `order` is looked up to its slot.
spec fn found_at<K>(slots: Seq<Slot<K>>, order: Seq<usize>, lookup: Map<K, usize>, i: int) -> bool {
    &&& lookup.contains_key(slots[order[i] as int].key)
    &&& lookup[slots[order[i] as int].key] == order[i]
}

/// `lookup` sends each key in use to its slot, and holds nothing else.
spec fn indexed<K>(slots: Seq<Slot<K>>, order: Seq<usize>, lookup: Map<K, usize>) -> bool {
    &&& forall|i: int| 0 <= i < order.len() ==> #[trigger] found_at(slots, order, lookup, i)
    &&& forall|k: K| #[trigger]
        lookup.contains_key(k) ==> order.contains(lookup[k]) && slots[lookup[k] as int].key == k
}

/// Points the slot at `i` back at `to`.
fn set_prev<K>(slots: &mut Vec<Slot<K>>, i: usize, to: usize)
    requires
        i < old(slots)@.len(),
    ensures
        final(slots)@.len() == old(slots)@.len(),
        final(slots)@[i as int].prev == to,
        final(slots)@[i as int].next == old(slots)@[i as int].next,
        final(slots)@[i as int].key == old(slots)@[i as int].key,
        forall|j: int| 0 <= j < old(slots)@.len() && j != i ==> final(slots)@[j] == old(slots)@[j],
{
    slots[i].prev = to;
}

/// Points the slot at `i` forward at `to`.
fn set_next<K>(slots: &mut Vec<Slot<K>>, i: usize, to: usize)
    requires
        i < old(slots)@.len(),
    ensures
        final(slots)@.len() == old(slots)@.len(),
        final(slots)@[i as int].next == to,
        final(slots)@[i as int].prev == old(slots)@[i as int].prev,
        final(slots)@[i as int].key == old(slots)@[i as int].key,
        forall|j: int| 0 <= j < old(slots)@.len() && j != i ==> final(slots)@[j] == old(slots)@[j],
{
    slots[i].next = to;
}

/// Takes the slot at position `p` of the chain out of it.
fn unlink<K>(
    slots: &mut Vec<Slot<K>>,
    head: &mut usize,
    tail: &mut usize,
    idx: usize,
    Ghost(order): Ghost<Seq<usize>>,
    Ghost(p): Ghost<int>,
)
    requires
        chained(old(slots)@, order, *old(head), *old(tail)),
        0 <= p < order.len(),
        order[p] == idx,
    ensures
        chained(final(slots)@, order.remove(p), *final(head), *final(tail)),
        same_keys(old(slots)@, final(slots)@),
{
    let ghost s0 = slots@;
    proof {
        assert(well_linked(s0, order, p));
        if p > 0 {
            assert(well_linked(s0, order, p - 1));
        }
        if p + 1 < order.len() {
            assert(well_linked(s0, order, p + 1));
        }
    }
    let before: usize = slots[idx].prev;
    let after: usize = slots[idx].next;
    if before != NIL {
        set_next(slots, before, after);
    } else {
        *head = after;
    }
    let ghost s1 = slots@;
    if after != NIL {
        set_prev(slots, after, before);
    } else {
        *tail = before;
    }
    proof {
        let s2 = slots@;
        let rest = order.remove(p);
        lemma_remove_members(order, p);
        assert(s2.len() == s0.len());
        assert forall|x: int| 0 <= x < s0.len() implies {
            &&& (#[trigger] s2[x]).key == s0[x].key
            &&& s2[x].prev == (if after != NIL && x == after { before } else { s0[x].prev })
            &&& s2[x].next == (if before != NIL && x == before { after } else { s0[x].next })
        } by {
            assert(s1[x].key == s0[x].key);
            assert(s1[x].prev == s0[x].prev);
            assert(s1[x].next == (if before != NIL && x == before { after } else { s0[x].next }));
        }
        assert(before == link_before(order, p));
        assert(after == link_after(order, p));
        assert forall|i: int| 0 <= i < rest.len() implies #[trigger] well_linked(s2, rest, i) by {
            let j = if i < p { i } else { i + 1 };
            let x = order[j];
            assert(rest[i] == x);
            assert(well_linked(s0, order, j));
            assert(x != order[p]);
            if p > 0 {
                assert(j == p - 1 <==> x == order[p - 1]);
            }
            if p + 1 < order.len() {
                assert(j == p + 1 <==> x == order[p + 1]);
            }
            assert(link_before(rest, i) == (if j == p + 1 { before } else { link_before(order, j) })) by {
                if i > 0 {
                    assert(rest[i - 1] == order[if i - 1 < p { i - 1 } else { i }]);
                }
            }
            assert(link_after(rest, i) == (if j == p - 1 { after } else { link_after(order, j) })) by {
                if i + 1 < rest.len() {
                    assert(rest[i + 1] == order[if i + 1 < p { i + 1 } else { i + 2 }]);
                }
            }
            assert(s2[x as int].prev == link_before(rest, i));
            assert(s2[x as int].next == link_after(rest, i));
        }
        if rest.len() > 0 {
            assert(rest[0] == order[if p == 0 { 1int } else { 0int }]);
            assert(rest[rest.len() - 1] == order[if p == order.len() - 1 { order.len() - 2 } else { order.len() - 1 }]);
        }
    }
}

/// Puts a slot that is outside the chain in front of it.
fn link_front<K>(
    slots: &mut Vec<Slot<K>>,
    head: &mut usize,
    tail: &mut usize,
    idx: usize,
    Ghost(order): Ghost<Seq<usize>>,
)
    requires
        chained(old(slots)@, order, *old(head), *old(tail)),
        idx < old(slots)@.len(),
        idx != NIL,
        !order.contains(idx),
    ensures
        chained(final(slots)@, seq![idx] + order, *final(head), *final(tail)),
        same_keys(old(slots)@, final(slots)@),
{
    let ghost s0 = slots@;
    proof {
        if order.len() > 0 {
            assert(well_linked(s0, order, 0));
        }
    }
    let first: usize = *head;
    set_prev(slots, idx, NIL);
    let ghost s1 = slots@;
    set_next(slots, idx, first);
    let ghost s2 = slots@;
    if first != NIL {
        set_prev(slots, first, idx);
    } else {
        *tail = idx;
    }
    *head = idx;
    proof {
        let s3 = slots@;
        let grown = seq![idx] + order;
        lemma_push_front_members(order, idx);
        assert(s3.len() == s0.len());
        assert(first != NIL ==> first != idx) by {
            if first != NIL {
                assert(order.contains(order[0]));
            }
        }
        assert forall|x: int| 0 <= x < s0.len() implies {
            &&& (#[trigger] s3[x]).key == s0[x].key
            &&& s3[x].prev == (if x == idx { NIL } else if first != NIL && x == first { idx } else { s0[x].prev })
            &&& s3[x].next == (if x == idx { first } else { s0[x].next })
        } by {
            assert(s1[x].key == s0[x].key);
            assert(s2[x].key == s0[x].key);
            assert(s2[x].prev == (if x == idx { NIL } else { s0[x].prev }));
            assert(s2[x].next == (if x == idx { first } else { s0[x].next }));
        }
        assert forall|i: int| 0 <= i < grown.len() implies #[trigger] well_linked(s3, grown, i) by {
            if i > 0 {
                let x = order[i - 1];
                assert(grown[i] == x);
                assert(order.contains(x));
                assert(well_linked(s0, order, i - 1));
                assert(x == first <==> i == 1);
                assert(grown[i - 1] == (if i == 1 { idx } else { order[i - 2] }));
                if i + 1 < grown.len() {
                    assert(grown[i + 1] == order[i]);
                }
                assert(s3[x as int].prev == link_before(grown, i));
                assert(s3[x as int].next == link_after(grown, i));
            } else {
                assert(grown[0] == idx);
                if grown.len() > 1 {
                    assert(grown[1] == order[0]);
                }
                assert(s3[idx as int].prev == link_before(grown, 0));
                assert(s3[idx as int].next == link_after(grown, 0));
            }
        }
        assert(grown[grown.len() - 1] == (if order.len() == 0 { idx } else { order[order.len() - 1] }));
    }
}

/// The keys of a cache in order of use, most recently used first, held to a
/// fixed capacity.
///
/// The keys stand in the slots of an arena that are chained in both
/// directions; a hash map finds the slot of a key. Using a key, entering one
/// and taking one out each take constant time.
pub struct RecencyIndex<K> {
    slots: Vec<Slot<K>>,
    lookup: HashMap<K, usize>,
    free: Vec<usize>,
    head: usize,
    tail: usize,
    count: usize,
    capacity: usize,
    order: Ghost<Seq<usize>>,
}

impl<K> View for RecencyIndex<K> {
    type V = Seq<K>;

    /// The keys in order of use, most recently used first.
    closed spec fn view(&self) -> Seq<K> {
        keys_of(self.slots@, self.order@)
    }
}

impl<K> RecencyIndex<K> {
    /// The number of keys the index holds at most.
    pub closed spec fn spec_capacity(&self) -> usize {
        self.capacity
    }
}

impl<K: Clone + Eq + Hash> RecencyIndex<K> {
    /// The representation is consistent.
    pub closed spec fn wf(&self) -> bool {
        &&& lawful_key::<K>()
        &&& 1 <= self.capacity
        &&& self.count == self.order@.len()
        &&& self.slots@.len() <= self.capacity
        &&& self.order@.len() + self.free@.len() == self.slots@.len()
        &&& chained(self.slots@, self.order@, self.head, self.tail)
        &&& indexed(self.slots@, self.order@, self.lookup@)
        &&& self.free@.no_duplicates()
        &&& forall|j: int|
            0 <= j < self.free@.len() ==> (#[trigger] self.free@[j]) < self.slots@.len()
                && !self.order@.contains(self.free@[j])
    }

    /// A consistent index holds no key twice and never more keys than its
    /// capacity, which is at least one.
    pub proof fn lemma_wf(&self)
        requires
            self.wf(),
        ensures
            lawful_key::<K>(),
            1 <= self.spec_capacity(),
            self@.len() <= self.spec_capacity(),
            self@.no_duplicates(),
    {
        let keys = self@;
        assert forall|i: int, j: int| 0 <= i < keys.len() && 0 <= j < keys.len() && i != j implies keys[i] != keys[j] by {
            assert(found_at(self.slots@, self.order@, self.lookup@, i));
            assert(found_at(self.slots@, self.order@, self.lookup@, j));
        }
    }

    /// The keys that the lookup table holds are the keys of the index, and
    /// each is sent to the slot at which it stands in the order.
    proof fn lemma_lookup(&self)
        requires
            self.wf(),
        ensures
            forall|k: K| self.lookup@.contains_key(k) <==> #[trigger] self@.contains(k),
            forall|k: K| #[trigger]
                self.lookup@.contains_key(k) ==> {
                    &&& 0 <= self.order@.index_of(self.lookup@[k]) < self.order@.len()
                    &&& self.order@[self.order@.index_of(self.lookup@[k])] == self.lookup@[k]
                    &&& self@[self.order@.index_of(self.lookup@[k])] == k
                },
    {
        let keys = self@;
        assert forall|k: K| self.lookup@.contains_key(k) <==> #[trigger] keys.contains(k) by {
            if self.lookup@.contains_key(k) {
                let i = self.order@.index_of(self.lookup@[k]);
                assert(keys[i] == k);
            }
            if keys.contains(k) {
                let i = keys.index_of(k);
                assert(found_at(self.slots@, self.order@, self.lookup@, i));
            }
        }
    }

    /// An empty index for at most `capacity` keys.
    pub fn new(capacity: usize) -> (index: Self)
        requires
            capacity >= 1,
            lawful_key::<K>(),
        ensures
            index.wf(),
            index@ == Seq::<K>::empty(),
            index.spec_capacity() == capacity,
    {
        let index = RecencyIndex {
            slots: Vec::new(),
            lookup: HashMap::new(),
            free: Vec::new(),
            head: NIL,
            tail: NIL,
            count: 0,
            capacity,
            order: Ghost(Seq::empty()),
        };
        assert(index@ =~= Seq::<K>::empty());
        index
    }

    /// The number of keys the index holds at most.
    pub fn capacity(&self) -> (capacity: usize)
        ensures
            capacity == self.spec_capacity(),
    {
        self.capacity
    }

    /// The number of keys in the index.
    pub fn len(&self) -> (len: usize)
        requires
            self.wf(),
        ensures
            len == self@.len(),
    {
        self.count
    }

    /// Whether `key` is in the index.
    pub fn contains(&self, key: &K) -> (found: bool)
        requires
            self.wf(),
        ensures
            found == self@.contains(*key),
    {
        proof {
            self.lemma_lookup();
        }
        self.lookup.contains_key(key)
    }

    /// Takes the key that stands in slot `idx` out of the index.
    fn discard(&mut self, idx: usize, key: &K)
        requires
            old(self).wf(),
            old(self).lookup@.contains_key(*key),
            old(self).lookup@[*key] == idx,
        ensures
            final(self).wf(),
            final(self).spec_capacity() == old(self).spec_capacity(),
            old(self)@.contains(*key),
            final(self)@ == without(old(self)@, *key),
    {
        let ghost before = *self;
        let ghost order = self.order@;
        let ghost p = order.index_of(idx);
        proof {
            before.lemma_wf();
            before.lemma_lookup();
            lemma_remove_members(order, p);
            lemma_index_of_unique(before@, p);
        }
        unlink(&mut self.slots, &mut self.head, &mut self.tail, idx, Ghost(order), Ghost(p));
        self.lookup.remove(key);
        self.free.push(idx);
        self.count = self.count - 1;
        proof {
            self.order@ = order.remove(p);
            let rest = self.order@;
            assert(0 <= p < order.len() && order[p] == idx);
            assert(well_linked(before.slots@, order, p));
            assert(before.slots@[idx as int].key == *key);
            assert(self.slots@.len() == before.slots@.len());
            assert(rest.len() == order.len() - 1);
            assert forall|i: int| 0 <= i < rest.len() implies self@[i] == before@.remove(p)[i] by {
                let j = if i < p { i } else { i + 1 };
                assert(rest[i] == order[j]);
                assert(well_linked(before.slots@, order, j));
                assert(self.slots@[order[j] as int].key == before.slots@[order[j] as int].key);
                assert(before@[j] == before.slots@[order[j] as int].key);
                assert(before@.remove(p)[i] == before@[j]);
            }
            assert(self@ =~= before@.remove(p));
            assert forall|i: int| 0 <= i < rest.len() implies #[trigger] found_at(self.slots@, rest, self.lookup@, i) by {
                let j = if i < p { i } else { i + 1 };
                assert(rest[i] == order[j]);
                assert(found_at(before.slots@, order, before.lookup@, j));
                assert(well_linked(before.slots@, order, j));
                assert(self.slots@[order[j] as int].key == before.slots@[order[j] as int].key);
                assert(order[j] != order[p]);
            }
            assert forall|k: K| #[trigger] self.lookup@.contains_key(k) implies rest.contains(self.lookup@[k])
                && self.slots@[self.lookup@[k] as int].key == k by {
                assert(before.lookup@.contains_key(k));
                let x = before.lookup@[k];
                let q = order.index_of(x);
                assert(order[q] == x);
                assert(well_linked(before.slots@, order, q));
                assert(self.slots@[x as int].key == before.slots@[x as int].key);
                assert(x != idx);
                assert(order.contains(x));
                assert(rest.contains(x));
            }
            assert forall|j: int| 0 <= j < self.free@.len() implies (#[trigger] self.free@[j]) < self.slots@.len()
                && !rest.contains(self.free@[j]) by {
                if j < before.free@.len() {
                    assert(self.free@[j] == before.free@[j]);
                    assert(!order.contains(before.free@[j]));
                } else {
                    assert(self.free@[j] == idx);
                }
            }
            assert(self.free@.no_duplicates()) by {
                assert forall|i: int, j: int| 0 <= i < self.free@.len() && 0 <= j < self.free@.len() && i != j implies self.free@[i] != self.free@[j] by {
                    assert(order.contains(idx));
                    if i < before.free@.len() {
                        assert(self.free@[i] == before.free@[i]);
                    }
                    if j < before.free@.len() {
                        assert(self.free@[j] == before.free@[j]);
                    }
                }
            }
        }
    }

    /// Takes `key` out of the index, wherever it stands; says whether it
    /// was there.
    pub fn remove(&mut self, key: &K) -> (removed: bool)
        requires
            old(self).wf(),
        ensures
            final(self).wf(),
            final(self).spec_capacity() == old(self).spec_capacity(),
            removed == old(self)@.contains(*key),
            final(self)@ == without(old(self)@, *key),
    {
        proof {
            self.lemma_lookup();
        }
        let idx: usize = match self.lookup.get(key) {
            Some(slot) => *slot,
            None => {
                return false;
            },
        };
        self.discard(idx, key);
        true
    }

    /// Moves `key` to the front of the index if it is there, and says
    /// whether it was. An index that does not hold `key` stays as it is.
    pub fn promote(&mut self, key: &K) -> (found: bool)
        requires
            old(self).wf(),
        ensures
            final(self).wf(),
            final(self).spec_capacity() == old(self).spec_capacity(),
            found == old(self)@.contains(*key),
            final(self)@ == (if found {
                seq![*key] + without(old(self)@, *key)
            } else {
                old(self)@
            }),
    {
        let ghost before = *self;
        let ghost order = self.order@;
        proof {
            before.lemma_wf();
            before.lemma_lookup();
        }
        let idx: usize = match self.lookup.get(key) {
            Some(slot) => *slot,
            None => {
                return false;
            },
        };
        let ghost p = order.index_of(idx);
        proof {
            lemma_remove_members(order, p);
            lemma_index_of_unique(before@, p);
            lemma_push_front_members(order.remove(p), idx);
            assert(well_linked(self.slots@, order, p));
        }
        if self.head == idx {
            assert(p == 0);
            assert(self@ =~= seq![*key] + before@.remove(0));
            return true;
        }
        unlink(&mut self.slots, &mut self.head, &mut self.tail, idx, Ghost(order), Ghost(p));
        let ghost mid = self.slots@;
        link_front(&mut self.slots, &mut self.head, &mut self.tail, idx, Ghost(order.remove(p)));
        proof {
            self.order@ = seq![idx] + order.remove(p);
            let moved = self.order@;
            let rest = order.remove(p);
            assert(before.slots@[idx as int].key == *key);
            assert(rest.len() == order.len() - 1);
            assert(moved.len() == order.len());
            assert forall|x: int| 0 <= x < before.slots@.len() implies (#[trigger] self.slots@[x]).key == before.slots@[x].key by {
                assert(mid[x].key == before.slots@[x].key);
            }
            assert forall|i: int| 0 <= i < moved.len() implies #[trigger] found_at(self.slots@, moved, self.lookup@, i) by {
                if i == 0 {
                    assert(moved[0] == order[p]);
                    assert(found_at(before.slots@, order, before.lookup@, p));
                } else {
                    let j = if i - 1 < p { i - 1 } else { i };
                    assert(moved[i] == rest[i - 1]);
                    assert(rest[i - 1] == order[j]);
                    assert(found_at(before.slots@, order, before.lookup@, j));
                    assert(well_linked(before.slots@, order, j));
                }
            }
            assert forall|i: int| 0 <= i < moved.len() implies self@[i] == (seq![*key] + before@.remove(p))[i] by {
                if i == 0 {
                    assert(moved[0] == idx);
                } else {
                    let j = if i - 1 < p { i - 1 } else { i };
                    assert(moved[i] == rest[i - 1]);
                    assert(rest[i - 1] == order[j]);
                    assert(well_linked(before.slots@, order, j));
                    assert(before@[j] == before.slots@[order[j] as int].key);
                    assert(before@.remove(p)[i - 1] == before@[j]);
                }
            }
            assert(self@ =~= seq![*key] + before@.remove(p));
            assert forall|k: K| #[trigger] self.lookup@.contains_key(k) implies moved.contains(self.lookup@[k])
                && self.slots@[self.lookup@[k] as int].key == k by {
                let x = before.lookup@[k];
                let q = order.index_of(x);
                assert(order[q] == x);
                assert(well_linked(before.slots@, order, q));
                assert(order.contains(x));
                if x != idx {
                    assert(rest.contains(x));
                }
                assert(moved.contains(x));
            }
            assert forall|j: int| 0 <= j < self.free@.len() implies !moved.contains(#[trigger] self.free@[j]) by {
                assert(!order.contains(self.free@[j]));
                assert(order.contains(idx));
                assert(!rest.contains(self.free@[j]));
            }
        }
        true
    }

    /// Enters a key that the index does not hold at its front. A full index
    /// first gives up its last key, which is returned.
    fn insert_at_head(&mut self, key: K) -> (evicted: Option<K>)
        requires
            old(self).wf(),
            !old(self)@.contains(key),
        ensures
            final(self).wf(),
            final(self).spec_capacity() == old(self).spec_capacity(),
            final(self)@ == touched(old(self)@, old(self).spec_capacity() as nat, key),
            evicted == displaced(old(self)@, old(self).spec_capacity() as nat, key),
    {
        let ghost first = *self;
        proof {
            first.lemma_wf();
        }
        let mut evicted: Option<K> = None;
        if self.count == self.capacity {
            let last: usize = self.tail;
            proof {
                let n = self.order@.len() - 1;
                assert(well_linked(self.slots@, self.order@, n));
                assert(found_at(self.slots@, self.order@, self.lookup@, n));
                lemma_index_of_unique(first@, n);
                lemma_drop_last_is_remove(first@);
            }
            let old_key = clone_key(&self.slots[last].key);
            self.discard(last, &old_key);
            evicted = Some(old_key);
        }
        let ghost before = *self;
        let ghost order = self.order@;
        proof {
            before.lemma_wf();
            before.lemma_lookup();
            lemma_push_front_members(order, self.slots@.len() as usize);
            assert(!before@.contains(key)) by {
                if first.count == first.capacity {
                    lemma_remove_members(first@, first@.len() - 1);
                }
            }
        }
        let copy = clone_key(&key);
        let idx: usize = match self.free.pop() {
            Some(slot) => {
                self.slots[slot].key = copy;
                slot
            },
            None => {
                self.slots.push(Slot { key: copy, prev: NIL, next: NIL });
                self.slots.len() - 1
            },
        };
        let ghost filled = self.slots@;
        proof {
            assert(!order.contains(idx)) by {
                if before.free@.len() > 0 {
                    assert(idx == before.free@[before.free@.len() - 1]);
                } else {
                    assert forall|i: int| 0 <= i < order.len() implies order[i] != idx by {
                        assert(well_linked(before.slots@, order, i));
                    }
                }
            }
            assert(chained(filled, order, self.head, self.tail)) by {
                assert forall|i: int| 0 <= i < order.len() implies #[trigger] well_linked(filled, order, i) by {
                    assert(well_linked(before.slots@, order, i));
                    assert(order.contains(order[i]));
                }
            }
            lemma_push_front_members(order, idx);
        }
        link_front(&mut self.slots, &mut self.head, &mut self.tail, idx, Ghost(order));
        self.lookup.insert(key, idx);
        self.count = self.count + 1;
        proof {
            self.order@ = seq![idx] + order;
            let grown = self.order@;
            assert(grown.len() == order.len() + 1);
            assert(self.slots@[idx as int].key == key);
            assert forall|i: int| 0 < i < grown.len() implies {
                &&& grown[i] == order[i - 1]
                &&& order[i - 1] != idx
                &&& order[i - 1] < before.slots@.len()
                &&& self.slots@[order[i - 1] as int].key == before.slots@[order[i - 1] as int].key
                &&& before@[i - 1] == before.slots@[order[i - 1] as int].key
                &&& before@[i - 1] != key
            } by {
                assert(order.contains(order[i - 1]));
                assert(well_linked(before.slots@, order, i - 1));
                assert(filled[order[i - 1] as int].key == before.slots@[order[i - 1] as int].key);
                assert(before@.contains(before@[i - 1]));
            }
            assert forall|i: int| 0 <= i < grown.len() implies #[trigger] found_at(self.slots@, grown, self.lookup@, i) by {
                if i > 0 {
                    assert(grown[i] == order[i - 1]);
                    assert(found_at(before.slots@, order, before.lookup@, i - 1));
                } else {
                    assert(grown[0] == idx);
                }
            }
            assert forall|i: int| 0 <= i < grown.len() implies self@[i] == (seq![key] + before@)[i] by {
                if i > 0 {
                    assert(grown[i] == order[i - 1]);
                } else {
                    assert(grown[0] == idx);
                }
            }
            assert(self@ =~= seq![key] + before@);
            assert forall|k: K| #[trigger] self.lookup@.contains_key(k) implies grown.contains(self.lookup@[k])
                && self.slots@[self.lookup@[k] as int].key == k by {
                if k != key {
                    assert(before.lookup@.contains_key(k));
                    let x = before.lookup@[k];
                    let q = order.index_of(x);
                    assert(order[q] == x);
                    assert(grown[q + 1] == x);
                    assert(order.contains(x));
                    assert(grown.contains(x));
                } else {
                    assert(grown[0] == idx);
                    assert(grown.contains(idx));
                }
            }
            assert forall|j: int| 0 <= j < self.free@.len() implies (#[trigger] self.free@[j]) < self.slots@.len()
                && !grown.contains(self.free@[j]) by {
                assert(self.free@[j] == before.free@[j]);
                assert(!order.contains(before.free@[j]));
                if before.free@.len() > 0 {
                    assert(idx == before.free@[before.free@.len() - 1]);
                }
            }
            assert(self.free@.no_duplicates()) by {
                assert forall|i: int, j: int| 0 <= i < self.free@.len() && 0 <= j < self.free@.len() && i != j implies self.free@[i] != self.free@[j] by {
                    assert(self.free@[i] == before.free@[i]);
                    assert(self.free@[j] == before.free@[j]);
                }
            }
        }
        evicted
    }

    /// Uses `key`: moves it to the front, or enters it there. Where that
    /// takes a full index over its capacity, the last key leaves and is
    /// returned, so that its entry can be removed as well.
    pub fn touch(&mut self, key: K) -> (evicted: Option<K>)
        requires
            old(self).wf(),
        ensures
            final(self).wf(),
            final(self).spec_capacity() == old(self).spec_capacity(),
            final(self)@ == touched(old(self)@, old(self).spec_capacity() as nat, key),
            evicted == displaced(old(self)@, old(self).spec_capacity() as nat, key),
    {
        if self.promote(&key) {
            None
        } else {
            self.insert_at_head(key)
        }
    }
}

} // verus!
