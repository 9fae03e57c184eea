//! Ordered association lists keyed by strings.  The workspace's shared
//! dependency table and each member's dependency table are such lists:
//! insertion order is observable in the saved documents, so a sequence of
//! pairs with distinct keys models them more faithfully than a hash map.
use vstd::prelude::*;

verus! {

/// Index of the first pair of a ghost-keyed list whose key is `k`.
pub open spec fn gkey_ix<V>(m: Seq<(Seq<char>, V)>, k: Seq<char>) -> int
    decreases m.len(),
{
    if m.len() == 0 {
        0
    } else if m[0].0 == k {
        0
    } else {
        1 + gkey_ix(m.drop_first(), k)
    }
}

pub open spec fn ghas_key<V>(m: Seq<(Seq<char>, V)>, k: Seq<char>) -> bool {
    gkey_ix(m, k) < m.len()
}

pub open spec fn gkey_val<V>(m: Seq<(Seq<char>, V)>, k: Seq<char>) -> V {
    m[gkey_ix(m, k)].1
}

/// No two pairs share a key: each name's entry lives in exactly one place.
pub open spec fn guniq<V>(m: Seq<(Seq<char>, V)>) -> bool {
    forall|i: int, j: int| 0 <= i < j < m.len() ==> m[i].0 != m[j].0
}

pub proof fn lemma_gkey_ix<V>(m: Seq<(Seq<char>, V)>, k: Seq<char>)
    ensures
        0 <= gkey_ix(m, k) <= m.len(),
        gkey_ix(m, k) < m.len() ==> m[gkey_ix(m, k)].0 == k,
        forall|j: int| 0 <= j < gkey_ix(m, k) ==> m[j].0 != k,
    decreases m.len(),
{
    if m.len() > 0 && m[0].0 != k {
        lemma_gkey_ix(m.drop_first(), k);
        assert forall|j: int| 0 <= j < gkey_ix(m, k) implies m[j].0 != k by {
            if j > 0 {
                assert(m.drop_first()[j - 1] == m[j]);
            }
        }
    }
}

pub proof fn lemma_gkey_ix_is<V>(m: Seq<(Seq<char>, V)>, k: Seq<char>, i: int)
    requires
        0 <= i <= m.len(),
        forall|j: int| 0 <= j < i ==> m[j].0 != k,
        i < m.len() ==> m[i].0 == k,
    ensures
        gkey_ix(m, k) == i,
    decreases m.len(),
{
    if m.len() > 0 && m[0].0 != k {
        lemma_gkey_ix_is(m.drop_first(), k, i - 1);
    }
}

} // verus!
