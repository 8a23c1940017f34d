//! Lookup by key in a list: the first position holding a key.
use vstd::prelude::*;

verus! {

/// Position of the first occurrence of `key` in `keys`, if any.
pub open spec fn first_index(keys: Seq<Seq<char>>, key: Seq<char>) -> Option<int> {
    if exists|i: int| 0 <= i < keys.len() && #[trigger] keys[i] == key {
        Some(choose|i: int| 0 <= i < keys.len() && #[trigger] keys[i] == key
            && forall|j: int| 0 <= j < i ==> #[trigger] keys[j] != key)
    } else {
        None
    }
}

proof fn lemma_first_exists(keys: Seq<Seq<char>>, key: Seq<char>, k: int)
    requires
        0 <= k <= keys.len(),
        forall|j: int| 0 <= j < k ==> #[trigger] keys[j] != key,
        exists|i: int| k <= i < keys.len() && #[trigger] keys[i] == key,
    ensures
        exists|i: int| 0 <= i < keys.len() && #[trigger] keys[i] == key
            && forall|j: int| 0 <= j < i ==> #[trigger] keys[j] != key,
    decreases keys.len() - k,
{
    if keys[k] != key {
        let w = choose|i: int| k <= i < keys.len() && #[trigger] keys[i] == key;
        assert(w != k);
        lemma_first_exists(keys, key, k + 1);
    }
}

/// `first_index` names the first position holding the key, or says that no
/// position holds it.
pub proof fn lemma_first_index(keys: Seq<Seq<char>>, key: Seq<char>)
    ensures
        match first_index(keys, key) {
            Some(i) => 0 <= i < keys.len() && keys[i] == key
                && forall|j: int| 0 <= j < i ==> #[trigger] keys[j] != key,
            None => forall|j: int| 0 <= j < keys.len() ==> #[trigger] keys[j] != key,
        },
{
    if exists|i: int| 0 <= i < keys.len() && #[trigger] keys[i] == key {
        lemma_first_exists(keys, key, 0);
    }
}

/// A position holding the key, after positions that do not, is the first.
pub proof fn lemma_first_index_at(keys: Seq<Seq<char>>, key: Seq<char>, i: int)
    requires
        0 <= i < keys.len(),
        keys[i] == key,
        forall|j: int| 0 <= j < i ==> #[trigger] keys[j] != key,
    ensures
        first_index(keys, key) == Some(i),
{
    lemma_first_index(keys, key);
    let c = first_index(keys, key).unwrap();
    if c < i {
        assert(keys[c] != key);
    }
    if c > i {
        assert(keys[i] != key);
    }
}

} // verus!
