use vstd::prelude::*;

verus! {

/// Position of the last entry whose key is `k`, or -1 where no key is `k`.
pub open spec fn key_index(keys: Seq<Seq<u8>>, k: Seq<u8>) -> int
    decreases keys.len(),
{
    if keys.len() == 0 {
        -1
    } else if keys.last() == k {
        keys.len() - 1
    } else {
        key_index(keys.drop_last(), k)
    }
}

pub proof fn lemma_key_index_bounds(keys: Seq<Seq<u8>>, k: Seq<u8>)
    ensures
        -1 <= key_index(keys, k) < keys.len(),
        key_index(keys, k) >= 0 ==> keys[key_index(keys, k)] == k,
        key_index(keys, k) == -1 ==> forall|j: int| 0 <= j < keys.len() ==> keys[j] != k,
    decreases keys.len(),
{
    if keys.len() > 0 && keys.last() != k {
        lemma_key_index_bounds(keys.drop_last(), k);
        assert forall|j: int| 0 <= j < keys.len() - 1 implies keys[j] == keys.drop_last()[j] by {}
    }
}

/// The last entry of `keys` that holds `k` is at `i` when `keys[i]` is `k` and
/// no later entry is; no entry holds `k` when none at all is.
pub proof fn lemma_key_index_found(keys: Seq<Seq<u8>>, k: Seq<u8>, i: int)
    requires
        -1 <= i < keys.len(),
        i >= 0 ==> keys[i] == k,
        forall|j: int| i < j < keys.len() ==> keys[j] != k,
    ensures
        key_index(keys, k) == i,
    decreases keys.len(),
{
    if keys.len() > 0 && i != keys.len() - 1 {
        assert(keys.last() != k);
        lemma_key_index_found(keys.drop_last(), k, i);
    }
}

pub proof fn lemma_key_index_push(keys: Seq<Seq<u8>>, x: Seq<u8>, k: Seq<u8>)
    ensures
        key_index(keys.push(x), k) == if x == k { keys.len() as int } else { key_index(keys, k) },
{
    assert(keys.push(x).drop_last() =~= keys);
}

} // verus!
