//! Facts about sequences without repeated elements.

use vstd::prelude::*;

verus! {

/// Taking one position out of a duplicate-free sequence removes exactly the
/// element that stood there.
pub proof fn lemma_remove_members<A>(s: Seq<A>, p: int)
    requires
        0 <= p < s.len(),
        s.no_duplicates(),
    ensures
        s.remove(p).len() == s.len() - 1,
        s.remove(p).no_duplicates(),
        forall|x: A| #[trigger] s.remove(p).contains(x) <==> (s.contains(x) && x != s[p]),
{
    let r = s.remove(p);
    assert forall|x: A| #[trigger] r.contains(x) <==> (s.contains(x) && x != s[p]) by {
        if r.contains(x) {
            let i = choose|i: int| 0 <= i < r.len() && r[i] == x;
            if i < p {
                assert(s[i] == x);
            } else {
                assert(s[i + 1] == x);
            }
        }
        if s.contains(x) && x != s[p] {
            let j = choose|j: int| 0 <= j < s.len() && s[j] == x;
            if j < p {
                assert(r[j] == x);
            } else {
                assert(r[j - 1] == x);
            }
        }
    }
}

/// Putting a new element in front of a duplicate-free sequence keeps it
/// duplicate-free and adds exactly that element.
pub proof fn lemma_push_front_members<A>(s: Seq<A>, a: A)
    ensures
        (seq![a] + s).len() == s.len() + 1,
        (seq![a] + s)[0] == a,
        forall|x: A| #[trigger] (seq![a] + s).contains(x) <==> (x == a || s.contains(x)),
        s.no_duplicates() && !s.contains(a) ==> (seq![a] + s).no_duplicates(),
{
    let t = seq![a] + s;
    assert forall|x: A| #[trigger] t.contains(x) <==> (x == a || s.contains(x)) by {
        if t.contains(x) {
            let i = choose|i: int| 0 <= i < t.len() && t[i] == x;
            if i > 0 {
                assert(s[i - 1] == x);
            }
        }
        if x == a {
            assert(t[0] == x);
        }
        if s.contains(x) {
            let j = choose|j: int| 0 <= j < s.len() && s[j] == x;
            assert(t[j + 1] == x);
        }
    }
    if s.no_duplicates() && !s.contains(a) {
        assert forall|i: int, j: int| 0 <= i < t.len() && 0 <= j < t.len() && i != j implies t[i] != t[j] by {
            if i > 0 && j > 0 {
                assert(s[i - 1] != s[j - 1]);
            } else if i > 0 {
                assert(s.contains(s[i - 1]));
            } else {
                assert(s.contains(s[j - 1]));
            }
        }
    }
}

/// In a duplicate-free sequence an element stands at one position only.
pub proof fn lemma_index_of_unique<A>(s: Seq<A>, p: int)
    requires
        0 <= p < s.len(),
        s.no_duplicates(),
    ensures
        s.contains(s[p]),
        s.index_of(s[p]) == p,
{
}

/// Dropping the last element is taking out the last position.
pub proof fn lemma_drop_last_is_remove<A>(s: Seq<A>)
    requires
        s.len() > 0,
    ensures
        s.drop_last() == s.remove(s.len() - 1),
{
    assert(s.drop_last() =~= s.remove(s.len() - 1));
}

} // verus!
