//! Finite maps held as sequences of key-value pairs with distinct keys.

use vstd::prelude::*;

verus! {

/// Whether the keys of a pair sequence are distinct.
pub open spec fn distinct_keys<K, V>(s: Seq<(K, V)>) -> bool {
    forall|i: int, j: int| 0 <= i < j < s.len() ==> #[trigger] s[i].0 != #[trigger] s[j].0
}

/// The map of a pair sequence: each key to its value, later pairs winning.
pub open spec fn pairs_map<K, V>(s: Seq<(K, V)>) -> Map<K, V>
    decreases s.len(),
{
    if s.len() == 0 {
        Map::empty()
    } else {
        pairs_map(s.drop_last()).insert(s.last().0, s.last().1)
    }
}

/// The keys of the map are the keys of the pairs.
pub proof fn lemma_pairs_map_dom<K, V>(s: Seq<(K, V)>, k: K)
    ensures
        pairs_map(s).contains_key(k) <==> exists|i: int| 0 <= i < s.len() && s[i].0 == k,
    decreases s.len(),
{
    if s.len() > 0 {
        lemma_pairs_map_dom(s.drop_last(), k);
        if exists|i: int| 0 <= i < s.len() - 1 && s.drop_last()[i].0 == k {
            let i = choose|i: int| 0 <= i < s.len() - 1 && s.drop_last()[i].0 == k;
            assert(s[i].0 == k);
        }
        if exists|i: int| 0 <= i < s.len() && s[i].0 == k {
            let i = choose|i: int| 0 <= i < s.len() && s[i].0 == k;
            if i < s.len() - 1 {
                assert(s.drop_last()[i].0 == k);
            }
        }
    }
}

/// With distinct keys, the value of the key at index `i` is that pair's value.
pub proof fn lemma_pairs_map_index<K, V>(s: Seq<(K, V)>, i: int)
    requires
        distinct_keys(s),
        0 <= i < s.len(),
    ensures
        pairs_map(s).contains_key(s[i].0),
        pairs_map(s)[s[i].0] == s[i].1,
    decreases s.len(),
{
    lemma_pairs_map_dom(s, s[i].0);
    if i < s.len() - 1 {
        assert(s.drop_last()[i] == s[i]);
        assert(distinct_keys(s.drop_last()));
        lemma_pairs_map_index(s.drop_last(), i);
        assert(s.last().0 != s[i].0);
    }
}

/// Removing the pair at index `i` removes its key.
pub proof fn lemma_pairs_map_remove<K, V>(s: Seq<(K, V)>, i: int)
    requires
        distinct_keys(s),
        0 <= i < s.len(),
    ensures
        pairs_map(s.remove(i)) == pairs_map(s).remove(s[i].0),
        distinct_keys(s.remove(i)),
    decreases s.len(),
{
    let t = s.remove(i);
    assert forall|a: int, b: int| 0 <= a < b < t.len() implies #[trigger] t[a].0 != #[trigger] t[b].0 by {
        let sa = if a < i { a } else { a + 1 };
        let sb = if b < i { b } else { b + 1 };
        assert(t[a] == s[sa] && t[b] == s[sb]);
    }
    if i == s.len() - 1 {
        assert(t =~= s.drop_last());
        lemma_pairs_map_dom(s.drop_last(), s[i].0);
        assert forall|x: int| 0 <= x < s.drop_last().len() implies s.drop_last()[x].0 != s[i].0 by {
            assert(s.drop_last()[x] == s[x]);
        }
        assert(pairs_map(s.drop_last()) =~= pairs_map(s).remove(s[i].0));
    } else {
        let d = s.drop_last();
        assert(distinct_keys(d));
        lemma_pairs_map_remove(d, i);
        assert(t.drop_last() =~= d.remove(i));
        assert(t.last() == s.last());
        assert(s.last().0 != s[i].0);
        assert(pairs_map(t) =~= pairs_map(s).remove(s[i].0));
    }
}

/// Appending a pair with a new key inserts it.
pub proof fn lemma_pairs_map_push<K, V>(s: Seq<(K, V)>, k: K, v: V)
    requires
        distinct_keys(s),
        forall|i: int| 0 <= i < s.len() ==> (#[trigger] s[i]).0 != k,
    ensures
        pairs_map(s.push((k, v))) == pairs_map(s).insert(k, v),
        distinct_keys(s.push((k, v))),
{
    assert(s.push((k, v)).drop_last() =~= s);
    assert forall|a: int, b: int| 0 <= a < b < s.push((k, v)).len() implies #[trigger] s.push((k, v))[a].0
        != #[trigger] s.push((k, v))[b].0 by {
        if b == s.len() {
            assert(s.push((k, v))[a] == s[a]);
        } else {
            assert(s.push((k, v))[a] == s[a]);
            assert(s.push((k, v))[b] == s[b]);
        }
    }
}

/// Replacing the value of the pair at index `i` updates its key.
pub proof fn lemma_pairs_map_update<K, V>(s: Seq<(K, V)>, i: int, v: V)
    requires
        distinct_keys(s),
        0 <= i < s.len(),
    ensures
        pairs_map(s.update(i, (s[i].0, v))) == pairs_map(s).insert(s[i].0, v),
        distinct_keys(s.update(i, (s[i].0, v))),
{
    let k = s[i].0;
    let t = s.update(i, (k, v));
    assert forall|a: int, b: int| 0 <= a < b < t.len() implies #[trigger] t[a].0 != #[trigger] t[b].0 by {
        assert(t[a].0 == s[a].0);
        assert(t[b].0 == s[b].0);
    }
    lemma_pairs_map_remove(s, i);
    lemma_pairs_map_remove(t, i);
    assert(t.remove(i) =~= s.remove(i));
    lemma_pairs_map_index(t, i);
    lemma_pairs_map_index(s, i);
    assert(pairs_map(t) =~= pairs_map(t).remove(k).insert(k, v));
    assert(pairs_map(s).insert(k, v) =~= pairs_map(s).remove(k).insert(k, v));
}


/// The map of a pair sequence is finite.
pub proof fn lemma_pairs_map_finite<K, V>(s: Seq<(K, V)>)
    ensures
        pairs_map(s).dom().finite(),
    decreases s.len(),
{
    if s.len() > 0 {
        lemma_pairs_map_finite(s.drop_last());
    }
}

/// With distinct keys, the map has as many keys as there are pairs.
pub proof fn lemma_pairs_map_len<K, V>(s: Seq<(K, V)>)
    requires
        distinct_keys(s),
    ensures
        pairs_map(s).dom().finite(),
        pairs_map(s).dom().len() == s.len(),
    decreases s.len(),
{
    lemma_pairs_map_finite(s);
    if s.len() > 0 {
        let d = s.drop_last();
        assert(distinct_keys(d));
        lemma_pairs_map_len(d);
        lemma_pairs_map_dom(d, s.last().0);
        if pairs_map(d).contains_key(s.last().0) {
            let i = choose|i: int| 0 <= i < d.len() && d[i].0 == s.last().0;
            assert(s[i] == d[i]);
            assert(s[s.len() - 1] == s.last());
        }
    }
}

/// Every value of the map is the value of some pair with that key.
pub proof fn lemma_pairs_map_value<K, V>(s: Seq<(K, V)>, k: K)
    requires
        pairs_map(s).contains_key(k),
    ensures
        exists|i: int| 0 <= i < s.len() && s[i].0 == k && #[trigger] s[i].1 == pairs_map(s)[k],
    decreases s.len(),
{
    if s.last().0 == k {
        assert(s[s.len() - 1].1 == pairs_map(s)[k]);
    } else {
        let d = s.drop_last();
        lemma_pairs_map_value(d, k);
        let i = choose|i: int| 0 <= i < d.len() && d[i].0 == k && #[trigger] d[i].1 == pairs_map(d)[k];
        assert(s[i] == d[i]);
    }
}

} // verus!
