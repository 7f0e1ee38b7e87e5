//! Keyed slots kept as a list of pairs. The ledger keeps one count for each
//! name and one list of votes for each identity; since a host value cannot be
//! hashed or ordered here, each family of slots is a list that is searched
//! from the front. This module says which map such a list stands for and
//! proves how the map changes when the list does.

use vstd::prelude::*;

verus! {

/// No key stands twice in `s`.
pub open spec fn distinct_keys<K, V>(s: Seq<(K, V)>) -> bool {
    forall|i: int, j: int| 0 <= i < j < s.len() ==> (#[trigger] s[i]).0 != (#[trigger] s[j]).0
}

/// Whether some pair of `s` has the key `k`.
pub open spec fn has_key<K, V>(s: Seq<(K, V)>, k: K) -> bool {
    exists|i: int| 0 <= i < s.len() && (#[trigger] s[i]).0 == k
}

/// The place of a pair of `s` that has the key `k`, where there is one.
pub open spec fn place_of_key<K, V>(s: Seq<(K, V)>, k: K) -> int {
    choose|i: int| 0 <= i < s.len() && (#[trigger] s[i]).0 == k
}

/// The map that the list stands for: its keys are the keys of the pairs, and
/// under each key stands the value paired with it.
pub open spec fn as_map<K, V>(s: Seq<(K, V)>) -> Map<K, V> {
    Map::new(|k: K| has_key(s, k), |k: K| s[place_of_key(s, k)].1)
}

/// In a list without repeated keys, the pair at place `i` is the one that the
/// map holds under its key.
pub proof fn lemma_lookup<K, V>(s: Seq<(K, V)>, i: int)
    requires
        distinct_keys(s),
        0 <= i < s.len(),
    ensures
        has_key(s, s[i].0),
        place_of_key(s, s[i].0) == i,
        as_map(s).contains_key(s[i].0),
        as_map(s)[s[i].0] == s[i].1,
{
    let k = s[i].0;
    assert(has_key(s, k));
    let j = place_of_key(s, k);
    assert(0 <= j < s.len() && s[j].0 == k);
    if j != i {
        if j < i {
            assert(s[j].0 != s[i].0);
        } else {
            assert(s[i].0 != s[j].0);
        }
    }
}

/// A pair with a new key, put last, makes the map hold the value under that
/// key and changes nothing else.
pub proof fn lemma_push<K, V>(s: Seq<(K, V)>, k: K, v: V)
    requires
        distinct_keys(s),
        !has_key(s, k),
    ensures
        distinct_keys(s.push((k, v))),
        as_map(s.push((k, v))) == as_map(s).insert(k, v),
{
    let t = s.push((k, v));
    assert forall|i: int, j: int| 0 <= i < j < t.len() implies (#[trigger] t[i]).0 != (
    #[trigger] t[j]).0 by {
        if j == s.len() {
            assert(s[i].0 != k);
        } else {
            assert(s[i].0 != s[j].0);
        }
    }
    assert forall|q: K| has_key(t, q) <==> (q == k || has_key(s, q)) by {
        if has_key(t, q) {
            let i = place_of_key(t, q);
            if i < s.len() {
                assert(s[i].0 == q);
            }
        }
        if q == k {
            assert(t[s.len() as int].0 == q);
        }
        if has_key(s, q) {
            let i = place_of_key(s, q);
            assert(t[i].0 == q);
        }
    }
    assert forall|q: K| has_key(t, q) implies #[trigger] as_map(t)[q] == as_map(s).insert(k, v)[q] by {
        let i = place_of_key(t, q);
        lemma_lookup(t, i);
        if i < s.len() {
            lemma_lookup(s, i);
        }
    }
    assert(as_map(t) =~= as_map(s).insert(k, v));
}

/// A new value for the pair at place `i` makes the map hold that value under
/// the pair's key and changes nothing else.
pub proof fn lemma_update<K, V>(s: Seq<(K, V)>, i: int, v: V)
    requires
        distinct_keys(s),
        0 <= i < s.len(),
    ensures
        distinct_keys(s.update(i, (s[i].0, v))),
        as_map(s.update(i, (s[i].0, v))) == as_map(s).insert(s[i].0, v),
{
    let k = s[i].0;
    let t = s.update(i, (k, v));
    assert forall|a: int, b: int| 0 <= a < b < t.len() implies (#[trigger] t[a]).0 != (
    #[trigger] t[b]).0 by {
        assert(s[a].0 != s[b].0);
    }
    assert forall|q: K| has_key(t, q) <==> has_key(s, q) by {
        if has_key(t, q) {
            let j = place_of_key(t, q);
            assert(s[j].0 == q);
        }
        if has_key(s, q) {
            let j = place_of_key(s, q);
            assert(t[j].0 == q);
        }
    }
    lemma_lookup(s, i);
    assert forall|q: K| has_key(t, q) implies #[trigger] as_map(t)[q] == as_map(s).insert(k, v)[q] by {
        let j = place_of_key(t, q);
        lemma_lookup(t, j);
        lemma_lookup(s, j);
    }
    assert(as_map(t) =~= as_map(s).insert(k, v));
}

/// Taking out the pair at place `i` makes the map forget the pair's key and
/// changes nothing else.
pub proof fn lemma_remove<K, V>(s: Seq<(K, V)>, i: int)
    requires
        distinct_keys(s),
        0 <= i < s.len(),
    ensures
        distinct_keys(s.remove(i)),
        as_map(s.remove(i)) == as_map(s).remove(s[i].0),
{
    let k = s[i].0;
    let t = s.remove(i);
    assert forall|a: int, b: int| 0 <= a < b < t.len() implies (#[trigger] t[a]).0 != (
    #[trigger] t[b]).0 by {
        let a0 = if a < i { a } else { a + 1 };
        let b0 = if b < i { b } else { b + 1 };
        assert(s[a0].0 != s[b0].0);
    }
    assert forall|q: K| has_key(t, q) <==> (q != k && has_key(s, q)) by {
        if has_key(t, q) {
            let j = place_of_key(t, q);
            let j0 = if j < i { j } else { j + 1 };
            assert(s[j0].0 == q);
            if j0 < i {
                assert(s[j0].0 != s[i].0);
            } else {
                assert(s[i].0 != s[j0].0);
            }
        }
        if q != k && has_key(s, q) {
            let j = place_of_key(s, q);
            let j1 = if j < i { j } else { j - 1 };
            assert(t[j1].0 == q);
        }
    }
    assert forall|q: K| has_key(t, q) implies #[trigger] as_map(t)[q] == as_map(s).remove(k)[q] by {
        let j = place_of_key(t, q);
        let j0 = if j < i { j } else { j + 1 };
        lemma_lookup(t, j);
        lemma_lookup(s, j0);
    }
    assert(as_map(t) =~= as_map(s).remove(k));
}

/// A list without repeated keys stands for a finite map with as many keys as
/// the list has pairs.
pub proof fn lemma_dom_len<K, V>(s: Seq<(K, V)>)
    requires
        distinct_keys(s),
    ensures
        as_map(s).dom().finite(),
        as_map(s).dom().len() == s.len(),
    decreases s.len(),
{
    if s.len() == 0 {
        assert(as_map(s).dom() =~= Set::<K>::empty());
    } else {
        let r = s.drop_last();
        let last = s.last();
        assert forall|i: int, j: int| 0 <= i < j < r.len() implies (#[trigger] r[i]).0 != (
        #[trigger] r[j]).0 by {
            assert(s[i].0 != s[j].0);
        }
        lemma_dom_len(r);
        assert(!has_key(r, last.0)) by {
            if has_key(r, last.0) {
                let i = place_of_key(r, last.0);
                assert(s[i].0 != s[s.len() - 1].0);
            }
        }
        lemma_push(r, last.0, last.1);
        assert(r.push((last.0, last.1)) =~= s);
        assert(as_map(s).dom() =~= as_map(r).dom().insert(last.0));
    }
}

} // verus!
