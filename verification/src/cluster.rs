//! UTXO cluster identification for concentration decay.
//!
//! All outputs of a transaction share one cluster. A coinbase starts a new
//! cluster named by its txid; a transaction whose inputs come from one
//! cluster stays in it; inputs from several clusters merge into the cluster
//! named by the BLAKE3 hash of the distinct input cluster ids in ascending
//! byte order.

use vstd::prelude::*;

use crate::hashing::{blake3_digest, blake3_hash};
use crate::types::Hash256;

verus! {

/// Lexicographic byte order from position `i` on; a proper prefix sorts first.
pub open spec fn lex_lt_from(a: Seq<u8>, b: Seq<u8>, i: int) -> bool
    decreases a.len() - i,
{
    if i < 0 || i >= a.len() || i >= b.len() {
        a.len() < b.len()
    } else if a[i] < b[i] {
        true
    } else if a[i] > b[i] {
        false
    } else {
        lex_lt_from(a, b, i + 1)
    }
}

/// Lexicographic byte order, the order of `[u8; 32]` and of `Hash256`.
pub open spec fn lex_lt(a: Seq<u8>, b: Seq<u8>) -> bool {
    lex_lt_from(a, b, 0)
}

/// A sequence of byte strings in strictly ascending order (hence without repeats).
pub open spec fn strictly_sorted(s: Seq<Seq<u8>>) -> bool {
    forall|i: int, j: int| 0 <= i < j < s.len() ==> lex_lt(#[trigger] s[i], #[trigger] s[j])
}

/// The distinct members of a finite set of byte strings in ascending order.
pub open spec fn sorted_members(ids: Set<Seq<u8>>) -> Seq<Seq<u8>> {
    choose|s: Seq<Seq<u8>>| strictly_sorted(s) && s.to_set() == ids
}

/// The concatenation of a sequence of byte strings.
pub open spec fn concat_all(s: Seq<Seq<u8>>) -> Seq<u8>
    decreases s.len(),
{
    if s.len() == 0 {
        Seq::empty()
    } else {
        concat_all(s.drop_last()) + s.last()
    }
}

/// The cluster of a transaction's outputs, given the set of its input
/// cluster ids and its txid.
pub open spec fn spec_output_cluster(ids: Set<Seq<u8>>, txid: Seq<u8>) -> Seq<u8> {
    let members = sorted_members(ids);
    if members.len() == 0 {
        txid
    } else if members.len() == 1 {
        members[0]
    } else {
        blake3_digest(concat_all(members))
    }
}

/// The set of byte strings named by a slice of ids.
pub open spec fn id_set(ids: Seq<Hash256>) -> Set<Seq<u8>> {
    ids.map_values(|h: Hash256| h@).to_set()
}

pub proof fn lemma_lex_irreflexive(a: Seq<u8>, i: int)
    requires
        0 <= i,
    ensures
        !lex_lt_from(a, a, i),
    decreases a.len() - i,
{
    if i < a.len() {
        lemma_lex_irreflexive(a, i + 1);
    }
}

pub proof fn lemma_lex_transitive(a: Seq<u8>, b: Seq<u8>, c: Seq<u8>, i: int)
    requires
        0 <= i,
        lex_lt_from(a, b, i),
        lex_lt_from(b, c, i),
    ensures
        lex_lt_from(a, c, i),
    decreases a.len() - i,
{
    if i < a.len() && i < b.len() && i < c.len() {
        if a[i] == b[i] && b[i] == c[i] {
            lemma_lex_transitive(a, b, c, i + 1);
        }
    } else if i < a.len() && i < b.len() && i >= c.len() {
        // b is longer than c past i would make b < c impossible
    }
}

/// Bytes that are not ordered either way from position `i` agree from there on.
pub proof fn lemma_lex_total(a: Seq<u8>, b: Seq<u8>, i: int)
    requires
        0 <= i <= a.len(),
        a.len() == b.len(),
        !lex_lt_from(a, b, i),
        !lex_lt_from(b, a, i),
    ensures
        forall|j: int| i <= j < a.len() ==> a[j] == b[j],
    decreases a.len() - i,
{
    if i < a.len() {
        lemma_lex_total(a, b, i + 1);
    }
}

/// Two strictly sorted sequences with the same members are the same sequence.
pub proof fn lemma_sorted_unique(s1: Seq<Seq<u8>>, s2: Seq<Seq<u8>>)
    requires
        strictly_sorted(s1),
        strictly_sorted(s2),
        s1.to_set() == s2.to_set(),
    ensures
        s1 == s2,
    decreases s1.len(),
{
    if s1.len() == 0 {
        if s2.len() > 0 {
            assert(s1.to_set().contains(s2[0]));
        }
    } else {
        assert(s2.to_set().contains(s1[0]));
        assert(s2.len() > 0);
        assert(s1.to_set().contains(s2[0]));
        let k = choose|k: int| 0 <= k < s2.len() && s2[k] == s1[0];
        let m = choose|m: int| 0 <= m < s1.len() && s1[m] == s2[0];
        if s1[0] != s2[0] {
            assert(k > 0 && m > 0);
            assert(lex_lt(s2[0], s2[k]));
            assert(lex_lt(s1[0], s1[m]));
            lemma_lex_transitive(s1[0], s2[0], s1[0], 0);
            lemma_lex_irreflexive(s1[0], 0);
        }
        let t1 = s1.drop_first();
        let t2 = s2.drop_first();
        assert forall|x: Seq<u8>| t1.to_set().contains(x) implies t2.to_set().contains(x) by {
            let i = choose|i: int| 0 <= i < t1.len() && t1[i] == x;
            assert(s1[i + 1] == x);
            assert(s1.to_set().contains(x));
            let j = choose|j: int| 0 <= j < s2.len() && s2[j] == x;
            if j == 0 {
                assert(lex_lt(s1[0], s1[i + 1]));
                lemma_lex_irreflexive(x, 0);
            }
            assert(t2[j - 1] == x);
        }
        assert forall|x: Seq<u8>| t2.to_set().contains(x) implies t1.to_set().contains(x) by {
            let j = choose|j: int| 0 <= j < t2.len() && t2[j] == x;
            assert(s2[j + 1] == x);
            assert(s2.to_set().contains(x));
            let i = choose|i: int| 0 <= i < s1.len() && s1[i] == x;
            if i == 0 {
                assert(lex_lt(s2[0], s2[j + 1]));
                lemma_lex_irreflexive(x, 0);
            }
            assert(t1[i - 1] == x);
        }
        assert(t1.to_set() =~= t2.to_set());
        lemma_sorted_unique(t1, t2);
        assert(s1 =~= s2) by {
            assert forall|i: int| 0 <= i < s1.len() implies s1[i] == s2[i] by {
                if i > 0 {
                    assert(s1[i] == t1[i - 1]);
                    assert(s2[i] == t2[i - 1]);
                }
            }
        }
    }
}

/// A strictly sorted sequence is the sorted listing of its members.
pub proof fn lemma_sorted_members_of(s: Seq<Seq<u8>>)
    requires
        strictly_sorted(s),
    ensures
        sorted_members(s.to_set()) == s,
{
    let c = sorted_members(s.to_set());
    assert(strictly_sorted(c) && c.to_set() == s.to_set());
    lemma_sorted_unique(c, s);
}

/// The merged cluster depends only on which ids occur: not on their order,
/// nor on how often each occurs.
pub proof fn lemma_output_cluster_order_independent(
    ids1: Seq<Hash256>,
    ids2: Seq<Hash256>,
    txid: Seq<u8>,
)
    requires
        id_set(ids1) == id_set(ids2),
    ensures
        spec_output_cluster(id_set(ids1), txid) == spec_output_cluster(id_set(ids2), txid),
{
}

/// Compare two hashes in lexicographic byte order.
pub fn hash_lt(a: &Hash256, b: &Hash256) -> (r: bool)
    ensures
        r == lex_lt(a@, b@),
{
    let mut i: usize = 0;
    while i < 32
        invariant
            i <= 32,
            a@.len() == 32,
            b@.len() == 32,
            lex_lt_from(a@, b@, i as int) == lex_lt(a@, b@),
        decreases 32 - i,
    {
        let x = a.0[i];
        let y = b.0[i];
        if x < y {
            return true;
        }
        if x > y {
            return false;
        }
        i = i + 1;
    }
    false
}

/// Determine the cluster id for the outputs of a transaction:
/// - no input clusters (a coinbase): the txid itself,
/// - one distinct input cluster: that cluster,
/// - several: the BLAKE3 hash of the distinct ids in ascending order.
pub fn determine_output_cluster(input_cluster_ids: &[Hash256], txid: &Hash256) -> (r: Hash256)
    ensures
        r@ == spec_output_cluster(id_set(input_cluster_ids@), txid@),
{
    let n = input_cluster_ids.len();
    let mut unique: Vec<Hash256> = Vec::new();
    let mut k: usize = 0;
    while k < n
        invariant
            n == input_cluster_ids@.len(),
            k <= n,
            strictly_sorted(unique@.map_values(|h: Hash256| h@)),
            unique@.map_values(|h: Hash256| h@).to_set() == input_cluster_ids@.take(
                k as int,
            ).map_values(|h: Hash256| h@).to_set(),
            forall|i: int| 0 <= i < unique@.len() ==> (#[trigger] unique@[i])@.len() == 32,
        decreases n - k,
    {
        let x = input_cluster_ids[k];
        let ghost old_unique = unique@;
        let ghost old_view = unique@.map_values(|h: Hash256| h@);
        let len = unique.len();
        let mut pos: usize = 0;
        while pos < len && hash_lt(&unique[pos], &x)
            invariant
                len == unique@.len(),
                unique@ == old_unique,
                pos <= len,
                forall|j: int| 0 <= j < pos ==> lex_lt((#[trigger] unique@[j])@, x@),
            decreases len - pos,
        {
            pos = pos + 1;
        }
        let duplicate = pos < len && unique[pos] == x;
        if !duplicate {
            proof {
                if pos < len && !lex_lt(x@, unique@[pos as int]@) {
                    lemma_lex_total(unique@[pos as int]@, x@, 0);
                    assert(unique@[pos as int]@ =~= x@);
                    assert(false);
                }
            }
            unique.insert(pos, x);
            proof {
                let new_view = unique@.map_values(|h: Hash256| h@);
                assert(new_view =~= old_view.insert(pos as int, x@));
                assert forall|i: int, j: int| 0 <= i < j < new_view.len() implies lex_lt(
                    #[trigger] new_view[i],
                    #[trigger] new_view[j],
                ) by {
                    if j < pos {
                        assert(old_view[i] == new_view[i]);
                        assert(old_view[j] == new_view[j]);
                    } else if i < pos && j == pos {
                    } else if i < pos && j > pos {
                        assert(old_view[i] == new_view[i]);
                        assert(old_view[j - 1] == new_view[j]);
                    } else if i == pos {
                        assert(old_view[j - 1] == new_view[j]);
                        if j - 1 > pos {
                            assert(lex_lt(old_view[pos as int], old_view[j - 1]));
                            lemma_lex_transitive(x@, old_view[pos as int], old_view[j - 1], 0);
                        }
                    } else {
                        assert(old_view[i - 1] == new_view[i]);
                        assert(old_view[j - 1] == new_view[j]);
                    }
                }
                assert(new_view =~= old_view.insert(pos as int, x@));
            }
        }
        proof {
            let new_view = unique@.map_values(|h: Hash256| h@);
            let before = input_cluster_ids@.take(k as int).map_values(|h: Hash256| h@);
            let after = input_cluster_ids@.take(k + 1).map_values(|h: Hash256| h@);
            assert(after =~= before.push(x@));
            assert forall|y: Seq<u8>| new_view.to_set().contains(y) <==> after.to_set().contains(
                y,
            ) by {
                if new_view.to_set().contains(y) {
                    let i = choose|i: int| 0 <= i < new_view.len() && new_view[i] == y;
                    if duplicate {
                        assert(old_view[i] == y);
                        assert(old_view.to_set().contains(y));
                        let t = choose|t: int| 0 <= t < before.len() && before[t] == y;
                        assert(after[t] == y);
                    } else if i == pos {
                        assert(after[k as int] == y);
                    } else {
                        let oi = if i < pos { i } else { i - 1 };
                        assert(old_view[oi] == y);
                        assert(old_view.to_set().contains(y));
                        let t = choose|t: int| 0 <= t < before.len() && before[t] == y;
                        assert(after[t] == y);
                    }
                }
                if after.to_set().contains(y) {
                    let t = choose|t: int| 0 <= t < after.len() && after[t] == y;
                    if t == k {
                        if duplicate {
                            assert(new_view[pos as int] == y);
                        } else {
                            assert(new_view[pos as int] == y);
                        }
                    } else {
                        assert(before[t] == y);
                        assert(before.to_set().contains(y));
                        let i = choose|i: int| 0 <= i < old_view.len() && old_view[i] == y;
                        if duplicate || i < pos {
                            assert(new_view[i] == y);
                        } else {
                            assert(new_view[i + 1] == y);
                        }
                    }
                }
            }
            assert(new_view.to_set() =~= after.to_set());
        }
        k = k + 1;
    }
    proof {
        assert(input_cluster_ids@.take(n as int) =~= input_cluster_ids@);
        lemma_sorted_members_of(unique@.map_values(|h: Hash256| h@));
    }
    let count = unique.len();
    if count == 0 {
        return *txid;
    }
    if count == 1 {
        return unique[0];
    }
    let mut bytes: Vec<u8> = Vec::new();
    let mut i: usize = 0;
    while i < count
        invariant
            count == unique@.len(),
            i <= count,
            bytes@ == concat_all(unique@.map_values(|h: Hash256| h@).take(i as int)),
        decreases count - i,
    {
        let id = &unique[i];
        let mut j: usize = 0;
        let ghost start = bytes@;
        while j < 32
            invariant
                j <= 32,
                id@.len() == 32,
                bytes@ == start + id@.take(j as int),
            decreases 32 - j,
        {
            bytes.push(id.0[j]);
            j = j + 1;
            proof {
                assert(start + id@.take(j as int) =~= (start + id@.take(j - 1)).push(id@[j - 1]));
            }
        }
        proof {
            let v = unique@.map_values(|h: Hash256| h@);
            assert(v.take(i + 1).drop_last() =~= v.take(i as int));
            assert(id@.take(32) =~= id@);
        }
        i = i + 1;
    }
    proof {
        let v = unique@.map_values(|h: Hash256| h@);
        assert(v.take(count as int) =~= v);
    }
    Hash256(blake3_hash(bytes.as_slice()))
}

} // verus!
