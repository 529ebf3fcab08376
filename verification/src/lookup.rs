//! Finding a key in a sequence of keys that are all different.

use vstd::prelude::*;

verus! {

/// Where `key` stands in `keys`, if it stands there.
pub open spec fn find<A>(keys: Seq<A>, key: A) -> Option<int> {
    if keys.contains(key) {
        Some(keys.index_of(key))
    } else {
        None
    }
}

/// A key that is found stands at the place that was found.
pub proof fn lemma_find_some<A>(keys: Seq<A>, key: A)
    requires
        find(keys, key) is Some,
    ensures
        0 <= find(keys, key)->0 < keys.len(),
        keys[find(keys, key)->0] == key,
{
}

/// Among keys that are all different, a key is found where it stands.
pub proof fn lemma_find_at<A>(keys: Seq<A>, key: A, i: int)
    requires
        keys.no_duplicates(),
        0 <= i < keys.len(),
        keys[i] == key,
    ensures
        find(keys, key) == Some(i),
{
    assert(keys.contains(key));
    let k = keys.index_of(key);
    assert(keys[k] == key);
}

/// A key that stands nowhere is not found.
pub proof fn lemma_find_none<A>(keys: Seq<A>, key: A)
    requires
        forall|i: int| 0 <= i < keys.len() ==> keys[i] != key,
    ensures
        find(keys, key) is None,
{
}

} // verus!
