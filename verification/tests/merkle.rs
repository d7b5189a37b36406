use rill::codec::{decode_proof, encode_proof};
use rill::types::Hash256;
use rill::merkle::{MerkleTree, Side, leaf_hash, merkle_root, node_hash};
fn h(byte: u8) -> Hash256 {
    Hash256([byte; 32])
}

// --- Domain separation ---

#[test]
fn leaf_hash_differs_from_node_hash() {
    // Even with identical 32-byte input, leaf and node hashes must differ
    // due to the prefix byte.
    let a = h(0xAA);
    let lh = leaf_hash(&a);
    // node_hash with same data as if it were two 32-byte halves:
    // This can't be the same as a leaf hash because the prefix differs.
    let nh = node_hash(&a, &a);
    assert_ne!(lh, nh);
}

#[test]
fn leaf_hash_deterministic() {
    let a = h(0x01);
    assert_eq!(leaf_hash(&a), leaf_hash(&a));
}

#[test]
fn node_hash_deterministic() {
    let a = h(0x01);
    let b = h(0x02);
    assert_eq!(node_hash(&a, &b), node_hash(&a, &b));
}

#[test]
fn node_hash_order_matters() {
    let a = h(0x01);
    let b = h(0x02);
    assert_ne!(node_hash(&a, &b), node_hash(&b, &a));
}

#[test]
fn leaf_hash_changes_with_input() {
    assert_ne!(leaf_hash(&h(0x01)), leaf_hash(&h(0x02)));
}

// --- merkle_root ---

#[test]
fn merkle_root_empty() {
    assert_eq!(merkle_root(&[]), Hash256::zero());
}

#[test]
fn merkle_root_single() {
    let a = h(0xAA);
    assert_eq!(merkle_root(&[a]), leaf_hash(&a));
}

#[test]
fn merkle_root_two() {
    let a = h(0x01);
    let b = h(0x02);
    let expected = node_hash(&leaf_hash(&a), &leaf_hash(&b));
    assert_eq!(merkle_root(&[a, b]), expected);
}

#[test]
fn merkle_root_three_odd() {
    let a = h(0x01);
    let b = h(0x02);
    let c = h(0x03);
    // Layer 0: [lh(a), lh(b), lh(c)]
    // Layer 1: [node(lh(a), lh(b)), node(lh(c), lh(c))]  -- c duplicated
    // Layer 2: [node(layer1[0], layer1[1])]
    let la = leaf_hash(&a);
    let lb = leaf_hash(&b);
    let lc = leaf_hash(&c);
    let n01 = node_hash(&la, &lb);
    let n22 = node_hash(&lc, &lc);
    let expected = node_hash(&n01, &n22);
    assert_eq!(merkle_root(&[a, b, c]), expected);
}

#[test]
fn merkle_root_four_balanced() {
    let leaves: Vec<Hash256> = (1..=4).map(|i| h(i)).collect();
    let la = leaf_hash(&leaves[0]);
    let lb = leaf_hash(&leaves[1]);
    let lc = leaf_hash(&leaves[2]);
    let ld = leaf_hash(&leaves[3]);
    let n01 = node_hash(&la, &lb);
    let n23 = node_hash(&lc, &ld);
    let expected = node_hash(&n01, &n23);
    assert_eq!(merkle_root(&leaves), expected);
}

#[test]
fn merkle_root_deterministic() {
    let leaves: Vec<Hash256> = (0..7).map(|i| h(i)).collect();
    assert_eq!(merkle_root(&leaves), merkle_root(&leaves));
}

#[test]
fn merkle_root_changes_with_leaf() {
    let a = vec![h(1), h(2), h(3)];
    let b = vec![h(1), h(2), h(4)];
    assert_ne!(merkle_root(&a), merkle_root(&b));
}

#[test]
fn merkle_root_order_matters() {
    let a = vec![h(1), h(2)];
    let b = vec![h(2), h(1)];
    assert_ne!(merkle_root(&a), merkle_root(&b));
}

// --- MerkleTree ---

#[test]
fn tree_empty() {
    let tree = MerkleTree::from_leaves(&[]);
    assert_eq!(tree.root(), Hash256::zero());
    assert_eq!(tree.leaf_count(), 0);
    assert!(tree.inclusion_proof(0).is_none());
}

#[test]
fn tree_root_matches_standalone() {
    for count in 1..=10 {
        let leaves: Vec<Hash256> = (0..count).map(|i| h(i as u8)).collect();
        let tree = MerkleTree::from_leaves(&leaves);
        assert_eq!(
            tree.root(),
            merkle_root(&leaves),
            "mismatch at count={count}"
        );
    }
}

#[test]
fn tree_leaf_count() {
    let leaves: Vec<Hash256> = (0..5).map(|i| h(i)).collect();
    let tree = MerkleTree::from_leaves(&leaves);
    assert_eq!(tree.leaf_count(), 5);
}

#[test]
fn tree_proof_out_of_bounds() {
    let tree = MerkleTree::from_leaves(&[h(1), h(2)]);
    assert!(tree.inclusion_proof(2).is_none());
    assert!(tree.inclusion_proof(100).is_none());
}

// --- Single-leaf proof ---

#[test]
fn proof_single_leaf() {
    let a = h(0xAA);
    let tree = MerkleTree::from_leaves(&[a]);
    let root = tree.root();

    let proof = tree.inclusion_proof(0).unwrap();
    assert_eq!(proof.leaf, a);
    assert_eq!(proof.leaf_index, 0);
    assert!(proof.path.is_empty());
    assert!(proof.verify(&root));
}

// --- Two-leaf proofs ---

#[test]
fn proof_two_leaves() {
    let leaves = vec![h(0x01), h(0x02)];
    let tree = MerkleTree::from_leaves(&leaves);
    let root = tree.root();

    let p0 = tree.inclusion_proof(0).unwrap();
    assert_eq!(p0.leaf, h(0x01));
    assert_eq!(p0.path.len(), 1);
    assert!(p0.verify(&root));

    let p1 = tree.inclusion_proof(1).unwrap();
    assert_eq!(p1.leaf, h(0x02));
    assert_eq!(p1.path.len(), 1);
    assert!(p1.verify(&root));
}

// --- Multi-leaf proofs (odd and even counts) ---

#[test]
fn proof_all_leaves_three() {
    let leaves = vec![h(1), h(2), h(3)];
    let tree = MerkleTree::from_leaves(&leaves);
    let root = tree.root();

    for i in 0..3 {
        let proof = tree.inclusion_proof(i).unwrap();
        assert_eq!(proof.leaf, leaves[i]);
        assert_eq!(proof.leaf_index, i);
        assert!(proof.verify(&root), "proof failed for leaf {i}");
    }
}

#[test]
fn proof_all_leaves_four() {
    let leaves: Vec<Hash256> = (1..=4).map(|i| h(i)).collect();
    let tree = MerkleTree::from_leaves(&leaves);
    let root = tree.root();

    for i in 0..4 {
        let proof = tree.inclusion_proof(i).unwrap();
        assert!(proof.verify(&root), "proof failed for leaf {i}");
    }
}

#[test]
fn proof_all_leaves_five() {
    let leaves: Vec<Hash256> = (1..=5).map(|i| h(i)).collect();
    let tree = MerkleTree::from_leaves(&leaves);
    let root = tree.root();

    for i in 0..5 {
        let proof = tree.inclusion_proof(i).unwrap();
        assert!(proof.verify(&root), "proof failed for leaf {i}");
    }
}

#[test]
fn proof_all_leaves_large() {
    let leaves: Vec<Hash256> = (0..33).map(|i| h(i as u8)).collect();
    let tree = MerkleTree::from_leaves(&leaves);
    let root = tree.root();

    for i in 0..33 {
        let proof = tree.inclusion_proof(i).unwrap();
        assert!(proof.verify(&root), "proof failed for leaf {i}");
    }
}

// --- Proof depth ---

#[test]
fn proof_depth_power_of_two() {
    // 8 leaves → balanced tree of depth 3
    let leaves: Vec<Hash256> = (0..8).map(|i| h(i)).collect();
    let tree = MerkleTree::from_leaves(&leaves);
    let proof = tree.inclusion_proof(0).unwrap();
    assert_eq!(proof.path.len(), 3);
}

#[test]
fn proof_depth_non_power_of_two() {
    // 5 leaves → 3 layers above leaf: ceil(log2(5)) = 3
    let leaves: Vec<Hash256> = (0..5).map(|i| h(i)).collect();
    let tree = MerkleTree::from_leaves(&leaves);
    let proof = tree.inclusion_proof(0).unwrap();
    assert_eq!(proof.path.len(), 3);
}

// --- Proof verification failures ---

#[test]
fn proof_verify_wrong_root() {
    let leaves = vec![h(1), h(2), h(3), h(4)];
    let tree = MerkleTree::from_leaves(&leaves);
    let proof = tree.inclusion_proof(0).unwrap();

    let wrong_root = Hash256([0xFF; 32]);
    assert!(!proof.verify(&wrong_root));
}

#[test]
fn proof_verify_tampered_leaf() {
    let leaves = vec![h(1), h(2), h(3), h(4)];
    let tree = MerkleTree::from_leaves(&leaves);
    let root = tree.root();
    let mut proof = tree.inclusion_proof(0).unwrap();

    proof.leaf = h(0xFF); // tamper
    assert!(!proof.verify(&root));
}

#[test]
fn proof_verify_tampered_sibling() {
    let leaves = vec![h(1), h(2), h(3), h(4)];
    let tree = MerkleTree::from_leaves(&leaves);
    let root = tree.root();
    let mut proof = tree.inclusion_proof(0).unwrap();

    proof.path[0].hash = Hash256([0xFF; 32]); // tamper
    assert!(!proof.verify(&root));
}

#[test]
fn proof_from_different_tree_fails() {
    let tree_a = MerkleTree::from_leaves(&[h(1), h(2)]);
    let tree_b = MerkleTree::from_leaves(&[h(3), h(4)]);

    let proof_a = tree_a.inclusion_proof(0).unwrap();
    assert!(!proof_a.verify(&tree_b.root()));
}

// --- Duplicate last element behavior ---

#[test]
fn odd_tree_last_leaf_proof_uses_duplication() {
    // With 3 leaves, leaf[2]'s sibling at the leaf layer is itself (duplicated).
    let leaves = vec![h(1), h(2), h(3)];
    let tree = MerkleTree::from_leaves(&leaves);
    let root = tree.root();

    let proof = tree.inclusion_proof(2).unwrap();
    assert!(proof.verify(&root));

    // First sibling should be the duplicate (leaf_hash of the same leaf)
    assert_eq!(proof.path[0].hash, leaf_hash(&h(3)));
    assert_eq!(proof.path[0].side, Side::Right);
}

#[test]
fn single_leaf_differs_from_two_identical() {
    // A tree with [A] must have a different root than [A, A]
    // because [A] = leaf_hash(A), while [A, A] = node_hash(leaf_hash(A), leaf_hash(A)).
    let a = h(0xAA);
    let root_one = merkle_root(&[a]);
    let root_two = merkle_root(&[a, a]);
    assert_ne!(root_one, root_two);
}

// --- Proof serialization ---

#[test]
fn proof_bincode_roundtrip() {
    let leaves: Vec<Hash256> = (1..=5).map(|i| h(i)).collect();
    let tree = MerkleTree::from_leaves(&leaves);
    let proof = tree.inclusion_proof(2).unwrap();

    let encoded = encode_proof(&proof);
    let (decoded, _) = decode_proof(&encoded).unwrap();

    assert_eq!(proof, decoded);
    assert!(decoded.verify(&tree.root()));
}

#[test]
fn proof_decoding_refuses_bad_side_index() {
    let leaves: Vec<Hash256> = (1..=2).map(|i| h(i)).collect();
    let tree = MerkleTree::from_leaves(&leaves);
    let proof = tree.inclusion_proof(0).unwrap();
    let mut encoded = encode_proof(&proof);
    let last = encoded.len() - 1;
    assert!(encoded[last] <= 1);
    encoded[last] = 2;
    assert!(decode_proof(&encoded).is_none());
}

#[test]
fn proof_path_has_one_step_per_round() {
    for (n, depth) in [(1usize, 0usize), (2, 1), (5, 3), (8, 3), (9, 4)] {
        let leaves: Vec<Hash256> = (0..n).map(|i| h(i as u8)).collect();
        let tree = MerkleTree::from_leaves(&leaves);
        for i in 0..n {
            let p = tree.inclusion_proof(i).unwrap();
            assert_eq!(p.path.len(), depth);
            for (k, step) in p.path.iter().enumerate() {
                let expected = if (i >> k) % 2 == 0 { Side::Right } else { Side::Left };
                assert_eq!(step.side, expected);
            }
        }
    }
}
