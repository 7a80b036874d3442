//! Association tables keyed by integers, with an exact lookup theory.
//!
//! The orchestrator keys its maps by plain integers: agent ids are `u64`,
//! session ids and tickets are 128-bit tokens. A table is a vector of
//! key-value pairs with pairwise-distinct keys; `assoc_lookup` is its
//! mathematical reading.

use vstd::prelude::*;

verus! {

/// The value stored under `k`, searching from the most recent entry.
pub open spec fn assoc_lookup<K, V>(s: Seq<(K, V)>, k: K) -> Option<V>
    decreases s.len(),
{
    if s.len() == 0 {
        None
    } else if s.last().0 == k {
        Some(s.last().1)
    } else {
        assoc_lookup(s.drop_last(), k)
    }
}

/// Pairwise-distinct keys.
pub open spec fn assoc_unique<K, V>(s: Seq<(K, V)>) -> bool {
    forall|i: int, j: int| 0 <= i < j < s.len() ==> s[i].0 != s[j].0
}

/// A key that no entry carries is absent.
pub proof fn lemma_assoc_no_key<K, V>(s: Seq<(K, V)>, k: K)
    requires
        forall|i: int| 0 <= i < s.len() ==> s[i].0 != k,
    ensures
        assoc_lookup(s, k) is None,
    decreases s.len(),
{
    if s.len() > 0 {
        assert(forall|i: int| 0 <= i < s.drop_last().len() ==> s.drop_last()[i].0 != k);
        lemma_assoc_no_key(s.drop_last(), k);
    }
}

/// With distinct keys, the entry at any index is what lookup finds.
pub proof fn lemma_assoc_found<K, V>(s: Seq<(K, V)>, k: K, i: int)
    requires
        assoc_unique(s),
        0 <= i < s.len(),
        s[i].0 == k,
    ensures
        assoc_lookup(s, k) == Some(s[i].1),
    decreases s.len(),
{
    if i < s.len() - 1 {
        assert(s.last().0 != k);
        assert(assoc_unique(s.drop_last()));
        lemma_assoc_found(s.drop_last(), k, i);
    }
}

/// With distinct keys, an absent key occurs at no index.
pub proof fn lemma_assoc_none_no_key<K, V>(s: Seq<(K, V)>, k: K)
    requires
        assoc_unique(s),
        assoc_lookup(s, k) is None,
    ensures
        forall|i: int| 0 <= i < s.len() ==> s[i].0 != k,
{
    assert forall|i: int| 0 <= i < s.len() implies s[i].0 != k by {
        if s[i].0 == k {
            lemma_assoc_found(s, k, i);
        }
    }
}

/// A present key occurs at some index.
pub proof fn lemma_assoc_some_index<K, V>(s: Seq<(K, V)>, k: K)
    requires
        assoc_lookup(s, k) is Some,
    ensures
        exists|i: int|
            0 <= i < s.len() && #[trigger] s[i].0 == k && s[i].1 == assoc_lookup(s, k).unwrap(),
    decreases s.len(),
{
    if s.last().0 == k {
        assert(s[s.len() - 1].0 == k);
    } else {
        lemma_assoc_some_index(s.drop_last(), k);
        let i = choose|i: int|
            0 <= i < s.drop_last().len() && #[trigger] s.drop_last()[i].0 == k
                && s.drop_last()[i].1 == assoc_lookup(s.drop_last(), k).unwrap();
        assert(s[i].0 == k);
    }
}

/// Appending a fresh key adds exactly that binding.
pub proof fn lemma_assoc_push<K, V>(s: Seq<(K, V)>, k: K, v: V)
    requires
        assoc_unique(s),
        assoc_lookup(s, k) is None,
    ensures
        assoc_unique(s.push((k, v))),
        assoc_lookup(s.push((k, v)), k) == Some(v),
        forall|q: K| q != k ==> assoc_lookup(s.push((k, v)), q) == assoc_lookup(s, q),
{
    lemma_assoc_none_no_key(s, k);
    assert(s.push((k, v)).drop_last() =~= s);
    assert(assoc_unique(s.push((k, v)))) by {
        assert(forall|i: int| 0 <= i < s.len() ==> s.push((k, v))[i] == s[i]);
    }
}

/// Removing the entry at one index deletes its key and keeps the rest.
pub proof fn lemma_assoc_remove<K, V>(s: Seq<(K, V)>, i: int)
    requires
        assoc_unique(s),
        0 <= i < s.len(),
    ensures
        assoc_unique(s.remove(i)),
        assoc_lookup(s.remove(i), s[i].0) is None,
        forall|q: K| q != s[i].0 ==> assoc_lookup(s.remove(i), q) == assoc_lookup(s, q),
    decreases s.len(),
{
    let t = s.remove(i);
    assert(assoc_unique(t)) by {
        assert(forall|a: int| 0 <= a < t.len() ==> t[a] == (if a < i {
            s[a]
        } else {
            s[a + 1]
        }));
    }
    assert(assoc_lookup(t, s[i].0) is None) by {
        assert(forall|a: int| 0 <= a < t.len() ==> t[a].0 != s[i].0);
        lemma_assoc_no_key(t, s[i].0);
    }
    if i == s.len() - 1 {
        assert(t =~= s.drop_last());
    } else {
        assert(t.last() == s.last());
        assert(t.drop_last() =~= s.drop_last().remove(i));
        assert(assoc_unique(s.drop_last()));
        lemma_assoc_remove(s.drop_last(), i);
        assert forall|q: K| q != s[i].0 implies assoc_lookup(t, q) == assoc_lookup(s, q) by {
            if q == s.last().0 {
            } else {
                assert(assoc_lookup(t, q) == assoc_lookup(t.drop_last(), q));
                assert(assoc_lookup(s, q) == assoc_lookup(s.drop_last(), q));
            }
        }
    }
}

/// Replacing the value at one index rebinds its key and keeps the rest.
pub proof fn lemma_assoc_update<K, V>(s: Seq<(K, V)>, i: int, v: V)
    requires
        assoc_unique(s),
        0 <= i < s.len(),
    ensures
        assoc_unique(s.update(i, (s[i].0, v))),
        assoc_lookup(s.update(i, (s[i].0, v)), s[i].0) == Some(v),
        forall|q: K| q != s[i].0 ==> assoc_lookup(s.update(i, (s[i].0, v)), q) == assoc_lookup(
            s,
            q,
        ),
    decreases s.len(),
{
    let t = s.update(i, (s[i].0, v));
    assert(assoc_unique(t)) by {
        assert(forall|a: int| 0 <= a < t.len() && a != i ==> t[a] == s[a]);
    }
    if i == s.len() - 1 {
        assert(t.last() == (s[i].0, v));
        assert(t.drop_last() =~= s.drop_last());
    } else {
        assert(t.last() == s.last());
        assert(t.drop_last() =~= s.drop_last().update(i, (s[i].0, v)));
        assert(assoc_unique(s.drop_last()));
        lemma_assoc_update(s.drop_last(), i, v);
        assert(s.drop_last()[i] == s[i]);
        assert(s.last().0 != s[i].0);
        assert forall|q: K| q != s[i].0 implies assoc_lookup(t, q) == assoc_lookup(s, q) by {
            if q != s.last().0 {
                assert(assoc_lookup(t, q) == assoc_lookup(t.drop_last(), q));
                assert(assoc_lookup(s, q) == assoc_lookup(s.drop_last(), q));
            }
        }
    }
}

} // verus!
