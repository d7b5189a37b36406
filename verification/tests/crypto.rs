use rill::crypto::{KeyPair, PublicKey, pubkey_hash, sign_transaction_input, signing_hash, verify_transaction_input};
use rill::types::{Hash256, OutPoint, Transaction, TxInput, TxOutput};
use rill::constants::COIN;
use rill::error::CryptoError;
// --- KeyPair ---

#[test]
fn keypair_generate_unique() {
    let kp1 = KeyPair::generate();
    let kp2 = KeyPair::generate();
    assert_ne!(kp1.public_key(), kp2.public_key());
}

#[test]
fn keypair_from_secret_deterministic() {
    let seed = [42u8; 32];
    let kp1 = KeyPair::from_secret_bytes(seed);
    let kp2 = KeyPair::from_secret_bytes(seed);
    assert_eq!(kp1.public_key(), kp2.public_key());
    assert_eq!(kp1.secret_bytes(), kp2.secret_bytes());
}

#[test]
fn keypair_different_seeds_different_keys() {
    let kp1 = KeyPair::from_secret_bytes([1u8; 32]);
    let kp2 = KeyPair::from_secret_bytes([2u8; 32]);
    assert_ne!(kp1.public_key(), kp2.public_key());
}

#[test]
fn keypair_clone() {
    let kp = KeyPair::generate();
    let kp2 = kp.clone();
    assert_eq!(kp.public_key(), kp2.public_key());
    assert_eq!(kp.secret_bytes(), kp2.secret_bytes());
}


// --- PublicKey ---

#[test]
fn pubkey_from_bytes_roundtrip() {
    let kp = KeyPair::generate();
    let pk = kp.public_key();
    let bytes = pk.to_bytes();
    let pk2 = PublicKey::from_bytes(&bytes).unwrap();
    assert_eq!(pk, pk2);
}

#[test]
fn pubkey_from_invalid_bytes_fails() {
    // About half of all 32-byte values fail Ed25519 point decompression.
    // Try small y values until we find one that's invalid.
    let mut found_invalid = false;
    for i in 0u8..=20 {
        let mut bytes = [0u8; 32];
        bytes[0] = i;
        if PublicKey::from_bytes(&bytes).is_err() {
            assert_eq!(
                PublicKey::from_bytes(&bytes).unwrap_err(),
                CryptoError::InvalidPublicKey
            );
            found_invalid = true;
            break;
        }
    }
    assert!(
        found_invalid,
        "expected at least one y value in 0..=20 to fail Ed25519 decompression"
    );
}

#[test]
fn pubkey_hash_deterministic() {
    let kp = KeyPair::from_secret_bytes([7u8; 32]);
    let pk = kp.public_key();
    assert_eq!(pk.pubkey_hash(), pk.pubkey_hash());
}

#[test]
fn pubkey_hash_differs_for_different_keys() {
    let pk1 = KeyPair::from_secret_bytes([1u8; 32]).public_key();
    let pk2 = KeyPair::from_secret_bytes([2u8; 32]).public_key();
    assert_ne!(pk1.pubkey_hash(), pk2.pubkey_hash());
}

#[test]
fn pubkey_hash_matches_standalone_fn() {
    let kp = KeyPair::generate();
    let pk = kp.public_key();
    assert_eq!(pk.pubkey_hash(), pubkey_hash(&pk.to_bytes()));
}

#[test]
fn pubkey_display() {
    let kp = KeyPair::generate();
    let pk = kp.public_key();
    let display = pk.to_hex();
    assert_eq!(display.len(), 64); // 32 bytes = 64 hex chars
    assert!(display.chars().all(|c| c.is_ascii_hexdigit()));
}


// --- Sign / Verify messages ---

#[test]
fn sign_verify_message() {
    let kp = KeyPair::generate();
    let msg = b"hello rill";
    let sig = kp.sign(msg);
    assert!(kp.public_key().verify(msg, &sig).is_ok());
}

#[test]
fn verify_wrong_key_fails() {
    let kp1 = KeyPair::generate();
    let kp2 = KeyPair::generate();
    let msg = b"hello rill";
    let sig = kp1.sign(msg);
    let err = kp2.public_key().verify(msg, &sig).unwrap_err();
    assert_eq!(err, CryptoError::VerificationFailed);
}

#[test]
fn verify_wrong_message_fails() {
    let kp = KeyPair::generate();
    let sig = kp.sign(b"original");
    let err = kp.public_key().verify(b"tampered", &sig).unwrap_err();
    assert_eq!(err, CryptoError::VerificationFailed);
}

// --- Signing hash ---

fn unsigned_tx(kp: &KeyPair) -> Transaction {
    Transaction {
        version: 1,
        inputs: vec![TxInput {
            previous_output: OutPoint {
                txid: Hash256([0x11; 32]),
                index: 0,
            },
            signature: vec![],
            public_key: vec![],
        }],
        outputs: vec![TxOutput {
            value: 50 * COIN,
            pubkey_hash: kp.public_key().pubkey_hash(),
        }],
        lock_time: 0,
    }
}

#[test]
fn signing_hash_deterministic() {
    let kp = KeyPair::generate();
    let tx = unsigned_tx(&kp);
    let h1 = signing_hash(&tx, 0).unwrap();
    let h2 = signing_hash(&tx, 0).unwrap();
    assert_eq!(h1, h2);
}

#[test]
fn signing_hash_changes_with_output() {
    let kp = KeyPair::generate();
    let tx1 = unsigned_tx(&kp);
    let mut tx2 = tx1.clone();
    tx2.outputs[0].value = 49 * COIN;

    assert_ne!(
        signing_hash(&tx1, 0).unwrap(),
        signing_hash(&tx2, 0).unwrap()
    );
}

#[test]
fn signing_hash_changes_with_index() {
    let kp = KeyPair::generate();
    let mut tx = unsigned_tx(&kp);
    tx.inputs.push(TxInput {
        previous_output: OutPoint {
            txid: Hash256([0x22; 32]),
            index: 1,
        },
        signature: vec![],
        public_key: vec![],
    });

    assert_ne!(
        signing_hash(&tx, 0).unwrap(),
        signing_hash(&tx, 1).unwrap()
    );
}

#[test]
fn signing_hash_changes_with_version() {
    let kp = KeyPair::generate();
    let tx1 = unsigned_tx(&kp);
    let mut tx2 = tx1.clone();
    tx2.version = 2;

    assert_ne!(
        signing_hash(&tx1, 0).unwrap(),
        signing_hash(&tx2, 0).unwrap()
    );
}

#[test]
fn signing_hash_changes_with_locktime() {
    let kp = KeyPair::generate();
    let tx1 = unsigned_tx(&kp);
    let mut tx2 = tx1.clone();
    tx2.lock_time = 100;

    assert_ne!(
        signing_hash(&tx1, 0).unwrap(),
        signing_hash(&tx2, 0).unwrap()
    );
}

#[test]
fn signing_hash_out_of_bounds() {
    let kp = KeyPair::generate();
    let tx = unsigned_tx(&kp);
    let err = signing_hash(&tx, 1).unwrap_err();
    assert_eq!(
        err,
        CryptoError::InputIndexOutOfBounds { index: 1, len: 1 }
    );
}

#[test]
fn signing_hash_excludes_signatures() {
    let kp = KeyPair::generate();
    let tx1 = unsigned_tx(&kp);
    let mut tx2 = tx1.clone();
    tx2.inputs[0].signature = vec![0xAA; 64];
    tx2.inputs[0].public_key = vec![0xBB; 32];

    // Sighash should be identical regardless of signature/pubkey content
    assert_eq!(
        signing_hash(&tx1, 0).unwrap(),
        signing_hash(&tx2, 0).unwrap()
    );
}

// --- Transaction signing / verification ---

#[test]
fn sign_verify_transaction_input_roundtrip() {
    let kp = KeyPair::generate();
    let mut tx = unsigned_tx(&kp);
    let expected_hash = kp.public_key().pubkey_hash();

    sign_transaction_input(&mut tx, 0, &kp).unwrap();

    // Input should now have signature and pubkey populated
    assert_eq!(tx.inputs[0].signature.len(), 64);
    assert_eq!(tx.inputs[0].public_key.len(), 32);

    assert!(verify_transaction_input(&tx, 0, &expected_hash).is_ok());
}

#[test]
fn verify_tx_wrong_pubkey_hash() {
    let kp = KeyPair::generate();
    let mut tx = unsigned_tx(&kp);
    sign_transaction_input(&mut tx, 0, &kp).unwrap();

    let wrong_hash = Hash256([0xFF; 32]);
    let err = verify_transaction_input(&tx, 0, &wrong_hash).unwrap_err();
    assert_eq!(err, CryptoError::PubkeyHashMismatch);
}

#[test]
fn verify_tx_tampered_output_fails() {
    let kp = KeyPair::generate();
    let mut tx = unsigned_tx(&kp);
    let expected_hash = kp.public_key().pubkey_hash();
    sign_transaction_input(&mut tx, 0, &kp).unwrap();

    // Tamper with output value after signing
    tx.outputs[0].value = 999;

    let err = verify_transaction_input(&tx, 0, &expected_hash).unwrap_err();
    assert_eq!(err, CryptoError::VerificationFailed);
}

#[test]
fn verify_tx_tampered_input_outpoint_fails() {
    let kp = KeyPair::generate();
    let mut tx = unsigned_tx(&kp);
    let expected_hash = kp.public_key().pubkey_hash();
    sign_transaction_input(&mut tx, 0, &kp).unwrap();

    // Tamper with input outpoint after signing
    tx.inputs[0].previous_output.index = 99;

    let err = verify_transaction_input(&tx, 0, &expected_hash).unwrap_err();
    assert_eq!(err, CryptoError::VerificationFailed);
}

#[test]
fn verify_tx_wrong_signer_fails() {
    let kp1 = KeyPair::generate();
    let kp2 = KeyPair::generate();
    let mut tx = unsigned_tx(&kp1);

    // Sign with kp2 but the UTXO expects kp1's pubkey hash
    sign_transaction_input(&mut tx, 0, &kp2).unwrap();

    let expected_hash = kp1.public_key().pubkey_hash();
    let err = verify_transaction_input(&tx, 0, &expected_hash).unwrap_err();
    assert_eq!(err, CryptoError::PubkeyHashMismatch);
}

#[test]
fn verify_tx_bad_signature_length() {
    let kp = KeyPair::generate();
    let mut tx = unsigned_tx(&kp);
    let expected_hash = kp.public_key().pubkey_hash();

    tx.inputs[0].signature = vec![0; 63]; // too short
    tx.inputs[0].public_key = kp.public_key().to_bytes().to_vec();

    let err = verify_transaction_input(&tx, 0, &expected_hash).unwrap_err();
    assert_eq!(err, CryptoError::InvalidSignature);
}

#[test]
fn verify_tx_bad_pubkey_length() {
    let kp = KeyPair::generate();
    let mut tx = unsigned_tx(&kp);
    let expected_hash = kp.public_key().pubkey_hash();

    tx.inputs[0].signature = vec![0; 64];
    tx.inputs[0].public_key = vec![0; 31]; // too short

    let err = verify_transaction_input(&tx, 0, &expected_hash).unwrap_err();
    assert_eq!(err, CryptoError::InvalidPublicKey);
}

#[test]
fn verify_tx_input_out_of_bounds() {
    let kp = KeyPair::generate();
    let tx = unsigned_tx(&kp);
    let expected_hash = kp.public_key().pubkey_hash();
    let err = verify_transaction_input(&tx, 5, &expected_hash).unwrap_err();
    assert_eq!(
        err,
        CryptoError::InputIndexOutOfBounds { index: 5, len: 1 }
    );
}

#[test]
fn sign_multiple_inputs() {
    let kp1 = KeyPair::generate();
    let kp2 = KeyPair::generate();

    let mut tx = Transaction {
        version: 1,
        inputs: vec![
            TxInput {
                previous_output: OutPoint {
                    txid: Hash256([0x11; 32]),
                    index: 0,
                },
                signature: vec![],
                public_key: vec![],
            },
            TxInput {
                previous_output: OutPoint {
                    txid: Hash256([0x22; 32]),
                    index: 1,
                },
                signature: vec![],
                public_key: vec![],
            },
        ],
        outputs: vec![TxOutput {
            value: 100 * COIN,
            pubkey_hash: kp1.public_key().pubkey_hash(),
        }],
        lock_time: 0,
    };

    // Sign each input with its respective key (any order is fine)
    sign_transaction_input(&mut tx, 1, &kp2).unwrap();
    sign_transaction_input(&mut tx, 0, &kp1).unwrap();

    // Both should verify
    assert!(verify_transaction_input(&tx, 0, &kp1.public_key().pubkey_hash()).is_ok());
    assert!(verify_transaction_input(&tx, 1, &kp2.public_key().pubkey_hash()).is_ok());
}

#[test]
fn sign_input_out_of_bounds() {
    let kp = KeyPair::generate();
    let mut tx = unsigned_tx(&kp);
    let err = sign_transaction_input(&mut tx, 5, &kp).unwrap_err();
    assert_eq!(
        err,
        CryptoError::InputIndexOutOfBounds { index: 5, len: 1 }
    );
}

#[test]
fn signing_hash_exact_preimage() {
    let tx = Transaction {
        version: 2,
        inputs: vec![TxInput {
            previous_output: OutPoint { txid: Hash256([0x11; 32]), index: 3 },
            signature: vec![9; 64],
            public_key: vec![8; 32],
        }],
        outputs: vec![TxOutput { value: 500, pubkey_hash: Hash256([0x22; 32]) }],
        lock_time: 7,
    };
    let mut pre = Vec::new();
    pre.extend_from_slice(&2u64.to_le_bytes());
    pre.extend_from_slice(&1u64.to_le_bytes());
    pre.extend_from_slice(&[0x11; 32]);
    pre.extend_from_slice(&3u64.to_le_bytes());
    pre.extend_from_slice(&1u64.to_le_bytes());
    pre.extend_from_slice(&500u64.to_le_bytes());
    pre.extend_from_slice(&[0x22; 32]);
    pre.extend_from_slice(&7u64.to_le_bytes());
    pre.extend_from_slice(&0u64.to_le_bytes());
    assert_eq!(signing_hash(&tx, 0).unwrap(), Hash256(*blake3::hash(&pre).as_bytes()));
}

#[test]
fn pubkey_hash_is_blake3_of_key() {
    let bytes = KeyPair::from_secret_bytes([3u8; 32]).public_key().to_bytes();
    assert_eq!(pubkey_hash(&bytes), Hash256(*blake3::hash(&bytes).as_bytes()));
}

#[test]
fn public_key_matches_rfc8032_vector() {
    // RFC 8032, section 7.1, test 1.
    let secret = hex::decode("9d61b19deffd5a60ba844af492ec2cc44449c5697b326919703bac031cae7f60").unwrap();
    let mut s = [0u8; 32];
    s.copy_from_slice(&secret);
    let pk = KeyPair::from_secret_bytes(s).public_key();
    assert_eq!(
        pk.to_hex(),
        "d75a980182b10ab7d54bfed3c964073a0ee172f3daa62325af021a68f707511a"
    );
    let sig = KeyPair::from_secret_bytes(s).sign(b"");
    assert_eq!(
        hex::encode(sig),
        "e5564300c360ac729086e2cc806e828a84877f1eb8e5d974d873e065224901555fb8821590a33bacc61e39701cf9b46bd25bf5f0595bbe24655141438e7a100b"
    );
}

#[test]
fn verify_tx_invalid_point_rejected() {
    let kp = KeyPair::from_secret_bytes([5u8; 32]);
    let mut tx = unsigned_tx(&kp);
    sign_transaction_input(&mut tx, 0, &kp).unwrap();
    // Find 32 bytes that do not decode to a point.
    let mut bad = None;
    for i in 0u8..=20 {
        let mut b = [0u8; 32];
        b[0] = i;
        if PublicKey::from_bytes(&b).is_err() {
            bad = Some(b);
            break;
        }
    }
    tx.inputs[0].public_key = bad.unwrap().to_vec();
    let expected = kp.public_key().pubkey_hash();
    assert_eq!(verify_transaction_input(&tx, 0, &expected).unwrap_err(), CryptoError::InvalidPublicKey);
}
