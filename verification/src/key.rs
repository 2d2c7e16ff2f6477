//! What the caches ask of a key type.

use vstd::prelude::*;
use vstd::std_specs::hash::obeys_key_model;

verus! {

/// A key type is lawful when hashing and equality on it agree with
/// mathematical equality, and when a clone of a key is that same key. The
/// integer types and `bool` are lawful; of another key type it is the
/// caller's word.
pub open spec fn lawful_key<K: Clone>() -> bool {
    &&& obeys_key_model::<K>()
    &&& forall|a: K, b: K| #[trigger] cloned(a, b) ==> a == b
}

/// Clones a key of a lawful key type.
pub fn clone_key<K: Clone>(key: &K) -> (copy: K)
    requires
        lawful_key::<K>(),
    ensures
        copy == *key,
{
    let copy = key.clone();
    assert(cloned(*key, copy));
    copy
}

} // verus!
