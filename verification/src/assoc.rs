//! Specification helpers for association sequences: ordered sequences of
//! key-value pairs, read as mappings. Both the object store (keyed by
//! identifier) and dictionaries (keyed by name) are modeled this way, so the
//! helpers are generic in the key and value types.

use vstd::prelude::*;

verus! {

/// Some pair with key `k` stands in `s`.
pub open spec fn assoc_has<K, V>(s: Seq<(K, V)>, k: K) -> bool {
    exists|i: int| 0 <= i < s.len() && s[i].0 == k
}

/// `i` is the first position of `s` whose pair has key `k`.
pub open spec fn assoc_first_at<K, V>(s: Seq<(K, V)>, k: K, i: int) -> bool {
    &&& 0 <= i < s.len()
    &&& s[i].0 == k
    &&& forall|j: int| 0 <= j < i ==> s[j].0 != k
}

/// The first position of `s` whose pair has key `k`.
pub open spec fn assoc_first<K, V>(s: Seq<(K, V)>, k: K) -> int {
    choose|i: int| assoc_first_at(s, k, i)
}

/// The value of the first pair of `s` with key `k`, if any: the mapping that
/// the sequence denotes, with earlier pairs shadowing later ones.
pub open spec fn assoc_get<K, V>(s: Seq<(K, V)>, k: K) -> Option<V> {
    if exists|i: int| assoc_first_at(s, k, i) {
        Some(s[assoc_first(s, k)].1)
    } else {
        None
    }
}

/// No two pairs of `s` share a key.
pub open spec fn distinct_keys<K, V>(s: Seq<(K, V)>) -> bool {
    forall|i: int, j: int| 0 <= i < j < s.len() ==> s[i].0 != s[j].0
}

/// A first position for `k` is unique.
pub proof fn lemma_assoc_first_unique<K, V>(s: Seq<(K, V)>, k: K, i1: int, i2: int)
    requires
        assoc_first_at(s, k, i1),
        assoc_first_at(s, k, i2),
    ensures
        i1 == i2,
{
}

/// Reading at a witnessed first position: `assoc_get` returns that pair's value.
pub proof fn lemma_assoc_get_at_first<K, V>(s: Seq<(K, V)>, k: K, i: int)
    requires
        assoc_first_at(s, k, i),
    ensures
        assoc_get(s, k) == Some(s[i].1),
{
    lemma_assoc_first_unique(s, k, i, assoc_first(s, k));
}

/// Under distinct keys, any position holding `k` is the one `assoc_get` reads.
pub proof fn lemma_assoc_get_at<K, V>(s: Seq<(K, V)>, k: K, i: int)
    requires
        distinct_keys(s),
        0 <= i < s.len(),
        s[i].0 == k,
    ensures
        assoc_get(s, k) == Some(s[i].1),
{
    assert(assoc_first_at(s, k, i));
    lemma_assoc_get_at_first(s, k, i);
}

/// Where no pair holds `k`, `assoc_get` returns nothing.
pub proof fn lemma_assoc_get_none<K, V>(s: Seq<(K, V)>, k: K)
    requires
        forall|i: int| 0 <= i < s.len() ==> s[i].0 != k,
    ensures
        assoc_get(s, k) is None,
{
}

/// `assoc_has` and `assoc_get` agree.
pub proof fn lemma_assoc_has_get<K, V>(s: Seq<(K, V)>, k: K)
    ensures
        assoc_has(s, k) <==> assoc_get(s, k) is Some,
    decreases s.len(),
{
    if assoc_has(s, k) {
        if s[0].0 == k {
            assert(assoc_first_at(s, k, 0));
        } else {
            let rest = s.subrange(1, s.len() as int);
            let w = choose|i: int| 0 <= i < s.len() && s[i].0 == k;
            assert(rest[w - 1].0 == k);
            lemma_assoc_has_get(rest, k);
            let f = choose|i: int| assoc_first_at(rest, k, i);
            assert(forall|j: int| 0 <= j < f + 1 ==> s[j].0 != k || !(j >= 1) || rest[j - 1].0
                == k && j - 1 < f);
            assert(assoc_first_at(s, k, f + 1)) by {
                assert(s[f + 1].0 == rest[f].0);
                assert(forall|j: int| 1 <= j < f + 1 ==> s[j].0 == rest[j - 1].0 && s[j].0 != k);
            }
        }
    } else {
        assert(forall|i: int| 0 <= i < s.len() ==> s[i].0 != k);
    }
}

} // verus!
