//! BLAKE3 Merkle tree for transaction commitment.
//!
//! Domain-separated hashing: leaf `BLAKE3(0x00 || data)`, internal node
//! `BLAKE3(0x01 || left || right)`. Odd-length layers are padded by
//! duplicating the last element. Empty trees have the zero root.

use vstd::prelude::*;

use crate::hashing::{blake3_digest, blake3_hash};
use crate::types::{write_raw, zero_bytes, Hash256};

verus! {

/// Domain separation prefix for leaf hashes.
pub const LEAF_PREFIX: u8 = 0x00;

/// Domain separation prefix for internal node hashes.
pub const NODE_PREFIX: u8 = 0x01;

/// The byte strings of a sequence of hashes.
pub open spec fn hv(s: Seq<Hash256>) -> Seq<Seq<u8>> {
    s.map_values(|h: Hash256| h@)
}

/// `BLAKE3(0x00 || data)`.
pub open spec fn leaf_digest(data: Seq<u8>) -> Seq<u8> {
    blake3_digest(seq![LEAF_PREFIX] + data)
}

/// `BLAKE3(0x01 || left || right)`.
pub open spec fn node_digest(left: Seq<u8>, right: Seq<u8>) -> Seq<u8> {
    blake3_digest(seq![NODE_PREFIX] + left + right)
}

/// The parent of the pair starting at `2 * i` (the last element pairs with itself).
pub open spec fn pair_at(layer: Seq<Seq<u8>>, i: int) -> Seq<u8> {
    node_digest(
        layer[2 * i],
        if 2 * i + 1 < layer.len() {
            layer[2 * i + 1]
        } else {
            layer[2 * i]
        },
    )
}

/// The layer above `layer`.
pub open spec fn next_layer_spec(layer: Seq<Seq<u8>>) -> Seq<Seq<u8>> {
    Seq::new(((layer.len() + 1) / 2) as nat, |i: int| pair_at(layer, i))
}

/// Repeatedly pair up a non-empty layer until one hash remains.
pub open spec fn reduce_layers(layer: Seq<Seq<u8>>) -> Seq<u8>
    decreases layer.len(),
{
    if layer.len() <= 1 {
        layer[0]
    } else {
        reduce_layers(next_layer_spec(layer))
    }
}

/// The Merkle root of a sequence of leaf values.
pub open spec fn merkle_root_spec(leaves: Seq<Seq<u8>>) -> Seq<u8> {
    if leaves.len() == 0 {
        zero_bytes()
    } else {
        reduce_layers(leaves.map_values(|d: Seq<u8>| leaf_digest(d)))
    }
}

/// Compute a domain-separated leaf hash: `BLAKE3(0x00 || data)`.
pub fn leaf_hash(data: &Hash256) -> (r: Hash256)
    ensures
        r@ == leaf_digest(data@),
{
    let mut buf: Vec<u8> = Vec::new();
    buf.push(LEAF_PREFIX);
    write_raw(&mut buf, data.0.as_slice());
    assert(buf@ =~= seq![LEAF_PREFIX] + data@);
    Hash256(blake3_hash(buf.as_slice()))
}

/// Compute a domain-separated internal node hash: `BLAKE3(0x01 || left || right)`.
pub fn node_hash(left: &Hash256, right: &Hash256) -> (r: Hash256)
    ensures
        r@ == node_digest(left@, right@),
{
    let mut buf: Vec<u8> = Vec::new();
    buf.push(NODE_PREFIX);
    write_raw(&mut buf, left.0.as_slice());
    write_raw(&mut buf, right.0.as_slice());
    assert(buf@ =~= seq![NODE_PREFIX] + left@ + right@);
    Hash256(blake3_hash(buf.as_slice()))
}

/// The leaf hashes of a sequence of leaves.
fn leaf_layer(leaves: &[Hash256]) -> (r: Vec<Hash256>)
    ensures
        r@.len() == leaves@.len(),
        hv(r@) == hv(leaves@).map_values(|d: Seq<u8>| leaf_digest(d)),
{
    let mut r: Vec<Hash256> = Vec::new();
    let mut i: usize = 0;
    while i < leaves.len()
        invariant
            i <= leaves@.len(),
            r@.len() == i,
            forall|j: int| 0 <= j < i ==> (#[trigger] r@[j])@ == leaf_digest(leaves@[j]@),
        decreases leaves@.len() - i,
    {
        r.push(leaf_hash(&leaves[i]));
        i = i + 1;
    }
    assert(hv(r@) =~= hv(leaves@).map_values(|d: Seq<u8>| leaf_digest(d)));
    r
}

/// Compute the next layer of the tree from the current one.
pub fn next_layer(layer: &[Hash256]) -> (r: Vec<Hash256>)
    ensures
        hv(r@) == next_layer_spec(hv(layer@)),
        r@.len() == (layer@.len() + 1) / 2,
{
    let mut next: Vec<Hash256> = Vec::new();
    let count = layer.len() - layer.len() / 2;
    let mut j: usize = 0;
    while j < count
        invariant
            count == (layer@.len() + 1) / 2,
            j <= count,
            next@.len() == j,
            forall|t: int| 0 <= t < j ==> (#[trigger] next@[t])@ == pair_at(hv(layer@), t),
        decreases count - j,
    {
        let len = layer.len();
        assert(j + j < len);
        let i = j + j;
        let left = &layer[i];
        let right = if i + 1 < layer.len() {
            &layer[i + 1]
        } else {
            left
        };
        next.push(node_hash(left, right));
        j = j + 1;
    }
    assert(hv(next@) =~= next_layer_spec(hv(layer@)));
    next
}

/// Compute the Merkle root from leaf values (zero for no leaves).
pub fn merkle_root(leaves: &[Hash256]) -> (r: Hash256)
    ensures
        r@ == merkle_root_spec(hv(leaves@)),
{
    if leaves.len() == 0 {
        return Hash256::zero();
    }
    let mut current = leaf_layer(leaves);
    let ghost target = reduce_layers(hv(current@));
    assert(hv(leaves@).map_values(|d: Seq<u8>| leaf_digest(d)) == hv(current@));
    while current.len() > 1
        invariant
            current@.len() >= 1,
            reduce_layers(hv(current@)) == target,
        decreases current@.len(),
    {
        current = next_layer(current.as_slice());
    }
    current[0]
}

/// Which side a sibling hash is on relative to the current node.
#[derive(Clone, Copy, Debug, PartialEq, Eq, Structural)]
pub enum Side {
    /// Sibling is on the left (we are on the right).
    Left,
    /// Sibling is on the right (we are on the left).
    Right,
}

/// A single step in a Merkle inclusion proof.
#[derive(Clone, Copy, Debug, PartialEq, Eq)]
pub struct ProofStep {
    /// The sibling hash at this level of the tree.
    pub hash: Hash256,
    /// Which side the sibling is on.
    pub side: Side,
}

/// Merkle inclusion proof for a single leaf.
#[derive(Clone, Debug, PartialEq, Eq)]
pub struct MerkleProof {
    /// Index of the leaf in the original tree.
    pub leaf_index: usize,
    /// The original leaf value.
    pub leaf: Hash256,
    /// Sibling hashes from leaf level up to root.
    pub path: Vec<ProofStep>,
}

/// Combine the current hash with one proof step.
pub open spec fn apply_step(cur: Seq<u8>, step: ProofStep) -> Seq<u8> {
    match step.side {
        Side::Left => node_digest(step.hash@, cur),
        Side::Right => node_digest(cur, step.hash@),
    }
}

/// The hash obtained after the first `k` steps of a path.
pub open spec fn fold_path(start: Seq<u8>, path: Seq<ProofStep>, k: nat) -> Seq<u8>
    decreases k,
{
    if k == 0 {
        start
    } else {
        apply_step(fold_path(start, path, (k - 1) as nat), path[k - 1])
    }
}

/// The root a proof commits to.
pub open spec fn proof_root(p: MerkleProof) -> Seq<u8> {
    fold_path(leaf_digest(p.leaf@), p.path@, p.path@.len())
}

impl MerkleProof {
    /// Verify this proof against an expected Merkle root: recompute the root
    /// from the leaf and the sibling path, then compare.
    pub fn verify(&self, expected_root: &Hash256) -> (r: bool)
        ensures
            r == (proof_root(*self) == expected_root@),
    {
        let mut current = leaf_hash(&self.leaf);
        let mut i: usize = 0;
        while i < self.path.len()
            invariant
                i <= self.path@.len(),
                current@ == fold_path(leaf_digest(self.leaf@), self.path@, i as nat),
            decreases self.path@.len() - i,
        {
            let step = &self.path[i];
            current = match step.side {
                Side::Left => node_hash(&step.hash, &current),
                Side::Right => node_hash(&current, &step.hash),
            };
            i = i + 1;
        }
        current == *expected_root
    }
}

/// The number of pairing rounds that reduce `n` leaves to one root: the
/// base-2 logarithm of `n` rounded up (0 for a single leaf).
pub open spec fn tree_depth(n: nat) -> nat
    decreases n,
{
    if n <= 1 {
        0
    } else {
        1 + tree_depth(((n + 1) / 2) as nat)
    }
}

/// The position of leaf `index`'s ancestor `k` levels up.
pub open spec fn pos_at(index: nat, k: nat) -> nat
    decreases k,
{
    if k == 0 {
        index
    } else {
        pos_at(index, (k - 1) as nat) / 2
    }
}

/// The side of the sibling of the node at `pos`: right of an even
/// position, left of an odd one.
pub open spec fn sibling_side(pos: nat) -> Side {
    if pos % 2 == 0 {
        Side::Right
    } else {
        Side::Left
    }
}

/// Full Merkle tree supporting root computation and proof generation.
#[derive(Debug)]
pub struct MerkleTree {
    /// Original leaf values.
    leaves: Vec<Hash256>,
    /// `layers[0]` = leaf hashes, `layers[last]` = `[root]`.
    layers: Vec<Vec<Hash256>>,
}

impl MerkleTree {
    /// The leaf values of the tree.
    pub closed spec fn leaves_view(&self) -> Seq<Seq<u8>> {
        hv(self.leaves@)
    }

    /// The byte strings of layer `k`.
    pub closed spec fn layer(&self, k: int) -> Seq<Seq<u8>> {
        hv(self.layers@[k]@)
    }

    /// The tree's shape: leaf hashes, each layer the pairing of the one below,
    /// a single root on top.
    #[verifier::type_invariant]
    closed spec fn wf(&self) -> bool {
        &&& (self.leaves@.len() == 0 <==> self.layers@.len() == 0)
        &&& self.layers@.len() > 0 ==> {
            &&& self.layer(0) == hv(self.leaves@).map_values(|d: Seq<u8>| leaf_digest(d))
            &&& forall|k: int|
                0 <= k < self.layers@.len() - 1 ==> #[trigger] self.layer(k + 1) == next_layer_spec(
                    self.layer(k),
                ) && self.layer(k).len() > 1
            &&& self.layer(self.layers@.len() - 1).len() == 1
        }
    }

    proof fn lemma_layers_reduce(&self, k: int)
        requires
            self.wf(),
            0 <= k < self.layers@.len(),
        ensures
            reduce_layers(self.layer(k)) == reduce_layers(self.layer(self.layers@.len() - 1)),
        decreases self.layers@.len() - k,
    {
        if k < self.layers@.len() - 1 {
            assert(self.layer(k + 1) == next_layer_spec(self.layer(k)));
            self.lemma_layers_reduce(k + 1);
        }
    }

    /// From layer `k` up, as many rounds remain as the depth of its size.
    proof fn lemma_depth_of_layers(&self, k: int)
        requires
            self.wf(),
            0 <= k < self.layers@.len(),
        ensures
            tree_depth(self.layer(k).len()) == self.layers@.len() - 1 - k,
        decreases self.layers@.len() - k,
    {
        if k < self.layers@.len() - 1 {
            assert(self.layer(k + 1) == next_layer_spec(self.layer(k)));
            self.lemma_depth_of_layers(k + 1);
            assert(self.layer(k).len() > 1);
        } else {
            assert(self.layer(k).len() == 1);
        }
    }

    proof fn lemma_root_of_layers(&self)
        requires
            self.wf(),
            self.layers@.len() > 0,
        ensures
            self.layer(self.layers@.len() - 1)[0] == merkle_root_spec(hv(self.leaves@)),
    {
        self.lemma_layers_reduce(0);
        assert(self.layer(self.layers@.len() - 1).len() == 1);
    }

    /// Build a Merkle tree from leaf values.
    pub fn from_leaves(leaves: &[Hash256]) -> (r: Self)
        ensures
            r.leaves_view() == hv(leaves@),
    {
        if leaves.len() == 0 {
            return MerkleTree { leaves: Vec::new(), layers: Vec::new() };
        }
        let mut layers: Vec<Vec<Hash256>> = Vec::new();
        let leaf_layer_v = leaf_layer(leaves);
        layers.push(leaf_layer_v);
        let mut top = leaf_layer(leaves);
        while top.len() > 1
            invariant
                layers@.len() >= 1,
                hv(layers@[0]@) == hv(leaves@).map_values(|d: Seq<u8>| leaf_digest(d)),
                hv(top@) == hv(layers@[layers@.len() - 1]@),
                top@.len() >= 1,
                forall|k: int|
                    0 <= k < layers@.len() - 1 ==> #[trigger] hv(layers@[k + 1]@) == next_layer_spec(
                        hv(layers@[k]@),
                    ) && hv(layers@[k]@).len() > 1,
            decreases top@.len(),
        {
            let next = next_layer(top.as_slice());
            let next2 = next_layer(top.as_slice());
            let ghost prev = layers@;
            layers.push(next);
            top = next2;
            assert forall|k: int| 0 <= k < layers@.len() - 1 implies #[trigger] hv(layers@[k + 1]@)
                == next_layer_spec(hv(layers@[k]@)) && hv(layers@[k]@).len() > 1 by {
                if k < prev.len() - 1 {
                    assert(layers@[k + 1] == prev[k + 1]);
                    assert(layers@[k] == prev[k]);
                }
            }
        }
        let mut leaves_copy: Vec<Hash256> = Vec::new();
        let mut i: usize = 0;
        while i < leaves.len()
            invariant
                i <= leaves@.len(),
                leaves_copy@ == leaves@.subrange(0, i as int),
            decreases leaves@.len() - i,
        {
            leaves_copy.push(leaves[i]);
            i = i + 1;
            assert(leaves_copy@ =~= leaves@.subrange(0, i as int));
        }
        assert(leaves@.subrange(0, leaves@.len() as int) =~= leaves@);
        MerkleTree { leaves: leaves_copy, layers }
    }

    /// The Merkle root (zero for an empty tree).
    pub fn root(&self) -> (r: Hash256)
        ensures
            r@ == merkle_root_spec(self.leaves_view()),
    {
        proof {
            use_type_invariant(self);
        }
        if self.layers.len() == 0 {
            return Hash256::zero();
        }
        let last = &self.layers[self.layers.len() - 1];
        proof {
            self.lemma_root_of_layers();
        }
        last[0]
    }

    /// Number of leaves in the tree.
    pub fn leaf_count(&self) -> (r: usize)
        ensures
            r == self.leaves_view().len(),
    {
        self.leaves.len()
    }

    /// Generate an inclusion proof for the leaf at `index`; `None` when the
    /// index is out of bounds. The path has one step per pairing round, the
    /// sibling on the right of an even position and on the left of an odd
    /// one, and every proof returned verifies against the root.
    pub fn inclusion_proof(&self, index: usize) -> (r: Option<MerkleProof>)
        ensures
            index >= self.leaves_view().len() ==> r is None,
            index < self.leaves_view().len() ==> (r matches Some(p) && p.leaf_index == index
                && p.leaf@ == self.leaves_view()[index as int] && proof_root(p) == merkle_root_spec(
                self.leaves_view(),
            ) && p.path@.len() == tree_depth(self.leaves_view().len()) && forall|k: int|
                0 <= k < p.path@.len() ==> (#[trigger] p.path@[k]).side == sibling_side(
                    pos_at(index as nat, k as nat),
                )),
    {
        proof {
            use_type_invariant(self);
        }
        if self.leaves.len() == 0 || index >= self.leaves.len() {
            return None;
        }
        let mut path: Vec<ProofStep> = Vec::new();
        let mut pos: usize = index;
        let n = self.layers.len() - 1;
        let mut k: usize = 0;
        let ghost leafd = leaf_digest(self.leaves@[index as int]@);
        assert(self.layer(0)[index as int] == leafd);
        while k < n
            invariant
                self.wf(),
                n == self.layers@.len() - 1,
                k <= n,
                path@.len() == k,
                pos < self.layer(k as int).len(),
                pos == pos_at(index as nat, k as nat),
                forall|m: int| 0 <= m < k ==> (#[trigger] path@[m]).side == sibling_side(
                    pos_at(index as nat, m as nat),
                ),
                fold_path(leafd, path@, k as nat) == self.layer(k as int)[pos as int],
            decreases n - k,
        {
            let layer = &self.layers[k];
            proof {
                assert(self.layer(k + 1) == next_layer_spec(self.layer(k as int)));
            }
            let sibling_pos = pos ^ 1;
            proof {
                assert(pos ^ 1 == if pos % 2 == 0 { pos + 1 } else { pos - 1 }) by (bit_vector);
            }
            let sibling = if sibling_pos < layer.len() {
                layer[sibling_pos]
            } else {
                layer[pos]
            };
            let side = if pos % 2 == 0 {
                Side::Right
            } else {
                Side::Left
            };
            let ghost before = path@;
            path.push(ProofStep { hash: sibling, side });
            proof {
                let l = self.layer(k as int);
                let q = pos as int / 2;
                assert(path@.subrange(0, k as int) =~= before);
                lemma_fold_path_prefix(leafd, path@, before, k as nat);
                if pos % 2 == 0 {
                    assert(2 * q == pos);
                } else {
                    assert(2 * q + 1 == pos);
                }
                assert(apply_step(l[pos as int], path@[k as int]) == pair_at(l, q));
                assert(self.layer(k + 1)[q] == pair_at(l, q));
            }
            pos = pos / 2;
            k = k + 1;
        }
        proof {
            self.lemma_root_of_layers();
            self.lemma_depth_of_layers(0);
            assert(self.layer(0).len() == self.leaves@.len());
            assert(hv(self.leaves@).len() == self.leaves@.len());
        }
        Some(MerkleProof { leaf_index: index, leaf: self.leaves[index], path })
    }
}

/// Folding a path only depends on the steps already taken.
proof fn lemma_fold_path_prefix(start: Seq<u8>, path: Seq<ProofStep>, prefix: Seq<ProofStep>, k: nat)
    requires
        k <= prefix.len(),
        k <= path.len(),
        forall|i: int| 0 <= i < k ==> path[i] == prefix[i],
    ensures
        fold_path(start, path, k) == fold_path(start, prefix, k),
    decreases k,
{
    if k > 0 {
        lemma_fold_path_prefix(start, path, prefix, (k - 1) as nat);
    }
}

} // verus!
