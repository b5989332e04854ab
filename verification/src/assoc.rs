//! A mathematical map built from a sequence of key-value pairs, together
//! with the lemmas that relate edits of the sequence to edits of the map.
//! The stores in this crate keep their entries in a `Vec` with pairwise
//! distinct keys; their contracts speak of the map this module derives
//! from those entries.

use vstd::prelude::*;

verus! {

/// The map that a sequence of pairs denotes: a later entry for the same key
/// wins over an earlier one.
pub open spec fn pairs_map<K, V>(s: Seq<(K, V)>) -> Map<K, V>
    decreases s.len(),
{
    if s.len() == 0 {
        Map::empty()
    } else {
        pairs_map(s.drop_last()).insert(s.last().0, s.last().1)
    }
}

/// No two entries of the sequence share a key.
pub open spec fn unique_keys<K, V>(s: Seq<(K, V)>) -> bool {
    forall|i: int, j: int| 0 <= i < j < s.len() ==> s[i].0 != s[j].0
}

/// The derived map contains a key exactly when some entry holds it.
pub proof fn lemma_contains<K, V>(s: Seq<(K, V)>, k: K)
    ensures
        pairs_map(s).contains_key(k) <==> exists|i: int| 0 <= i < s.len() && s[i].0 == k,
    decreases s.len(),
{
    if s.len() > 0 {
        lemma_contains(s.drop_last(), k);
        if s.last().0 == k {
            assert(s[s.len() - 1].0 == k);
        } else if pairs_map(s).contains_key(k) {
            let i = choose|i: int| 0 <= i < s.drop_last().len() && s.drop_last()[i].0 == k;
            assert(s[i].0 == k);
        } else if exists|i: int| 0 <= i < s.len() && s[i].0 == k {
            let i = choose|i: int| 0 <= i < s.len() && s[i].0 == k;
            assert(s.drop_last()[i].0 == k);
        }
    }
}

/// With distinct keys, the derived map sends each entry's key to its value.
pub proof fn lemma_index<K, V>(s: Seq<(K, V)>, i: int)
    requires
        unique_keys(s),
        0 <= i < s.len(),
    ensures
        pairs_map(s).contains_key(s[i].0),
        pairs_map(s)[s[i].0] == s[i].1,
    decreases s.len(),
{
    if i == s.len() - 1 {
        assert(pairs_map(s) == pairs_map(s.drop_last()).insert(s.last().0, s.last().1));
    } else {
        assert(s.drop_last()[i] == s[i]);
        lemma_index(s.drop_last(), i);
        assert(s[i].0 != s.last().0);
    }
}

/// A key no entry holds is outside the derived map.
pub proof fn lemma_absent<K, V>(s: Seq<(K, V)>, k: K)
    requires
        forall|i: int| 0 <= i < s.len() ==> s[i].0 != k,
    ensures
        !pairs_map(s).contains_key(k),
{
    lemma_contains(s, k);
}

/// Appending a pair inserts its key into the derived map.
pub proof fn lemma_push<K, V>(s: Seq<(K, V)>, k: K, v: V)
    ensures
        pairs_map(s.push((k, v))) == pairs_map(s).insert(k, v),
{
    assert(s.push((k, v)).drop_last() =~= s);
    assert(s.push((k, v)).last() == (k, v));
}

/// Overwriting the entry that holds a key updates that key in the derived map.
pub proof fn lemma_update<K, V>(s: Seq<(K, V)>, i: int, v: V)
    requires
        unique_keys(s),
        0 <= i < s.len(),
    ensures
        pairs_map(s.update(i, (s[i].0, v))) == pairs_map(s).insert(s[i].0, v),
        unique_keys(s.update(i, (s[i].0, v))),
    decreases s.len(),
{
    let k = s[i].0;
    let t = s.update(i, (k, v));
    assert(forall|j: int| 0 <= j < s.len() && j != i ==> t[j] == s[j]);
    if i == s.len() - 1 {
        assert(t.drop_last() =~= s.drop_last());
        lemma_absent(s.drop_last(), k);
        assert(pairs_map(t) =~= pairs_map(s).insert(k, v)) by {
            assert(pairs_map(t) == pairs_map(s.drop_last()).insert(k, v));
            assert(pairs_map(s) == pairs_map(s.drop_last()).insert(k, s[i].1));
        }
    } else {
        assert(t.drop_last() =~= s.drop_last().update(i, (k, v)));
        assert(s.drop_last()[i] == s[i]);
        lemma_update(s.drop_last(), i, v);
        assert(s.last().0 != k);
        assert(t.last() == s.last());
        assert(pairs_map(t) == pairs_map(s.drop_last()).insert(k, v).insert(
            s.last().0,
            s.last().1,
        ));
        assert(pairs_map(s.drop_last()).insert(k, v).insert(s.last().0, s.last().1)
            =~= pairs_map(s.drop_last()).insert(s.last().0, s.last().1).insert(k, v));
    }
}

/// Removing the entry that holds a key removes that key from the derived map.
pub proof fn lemma_remove<K, V>(s: Seq<(K, V)>, i: int)
    requires
        unique_keys(s),
        0 <= i < s.len(),
    ensures
        pairs_map(s.remove(i)) == pairs_map(s).remove(s[i].0),
        unique_keys(s.remove(i)),
    decreases s.len(),
{
    let k = s[i].0;
    let t = s.remove(i);
    assert(forall|j: int| 0 <= j < i ==> t[j] == s[j]);
    assert(forall|j: int| i <= j < t.len() ==> t[j] == s[j + 1]);
    if i == s.len() - 1 {
        assert(t =~= s.drop_last());
        lemma_absent(s.drop_last(), k);
        assert(pairs_map(s).remove(k) =~= pairs_map(s.drop_last())) by {
            assert(pairs_map(s) == pairs_map(s.drop_last()).insert(k, s[i].1));
        }
    } else {
        assert(t.drop_last() =~= s.drop_last().remove(i));
        assert(s.drop_last()[i] == s[i]);
        lemma_remove(s.drop_last(), i);
        assert(t.last() == s.last());
        assert(s.last().0 != k);
        assert(pairs_map(t) == pairs_map(s.drop_last()).remove(k).insert(
            s.last().0,
            s.last().1,
        ));
        assert(pairs_map(s.drop_last()).remove(k).insert(s.last().0, s.last().1)
            =~= pairs_map(s.drop_last()).insert(s.last().0, s.last().1).remove(k));
    }
}

} // verus!
