use rill::codec::{
    decode_block, decode_header, decode_transaction, decode_transactions, decode_utxo_entry,
    encode_header, encode_transactions, encode_utxo_entry,
};
use rill::constants::COIN;
use rill::types::{
    encode_block, encode_transaction, Block, BlockHeader, Hash256, OutPoint, Transaction, TxInput,
    TxOutput, UtxoEntry,
};

fn sample_pubkey_hash() -> Hash256 {
    Hash256([0xAA; 32])
}

fn sample_tx() -> Transaction {
    Transaction {
        version: 1,
        inputs: vec![TxInput {
            previous_output: OutPoint { txid: Hash256([0x11; 32]), index: 0 },
            signature: vec![0u8; 64],
            public_key: vec![0u8; 32],
        }],
        outputs: vec![TxOutput { value: 50 * COIN, pubkey_hash: sample_pubkey_hash() }],
        lock_time: 0,
    }
}

fn sample_coinbase() -> Transaction {
    Transaction {
        version: 1,
        inputs: vec![TxInput {
            previous_output: OutPoint::null(),
            signature: vec![],
            public_key: vec![],
        }],
        outputs: vec![TxOutput { value: 50 * COIN, pubkey_hash: sample_pubkey_hash() }],
        lock_time: 0,
    }
}

fn sample_header() -> BlockHeader {
    BlockHeader {
        version: 1,
        prev_hash: Hash256::zero(),
        merkle_root: Hash256::zero(),
        timestamp: 1_700_000_000,
        difficulty_target: u64::MAX,
        nonce: 0,
    }
}

// --- Hash256 ---

#[test]
fn hash256_zero_is_zero() {
    let h = Hash256::zero();
    assert!(h.is_zero());
    assert_eq!(h, Hash256::default());
}

#[test]
fn hash256_nonzero_is_not_zero() {
    assert!(!Hash256([1; 32]).is_zero());
}

#[test]
fn hash256_display_hex() {
    let h = Hash256([0xAB; 32]);
    let s = h.to_hex();
    assert_eq!(s.len(), 64);
    assert!(s.chars().all(|c| c.is_ascii_hexdigit()));
    assert_eq!(&s[0..2], "ab");
}

#[test]
fn hash256_from_bytes() {
    let bytes = [42u8; 32];
    let h = Hash256::from_bytes(bytes);
    assert_eq!(h.as_bytes(), &bytes);
    assert_eq!(Hash256::from(bytes), h);
}

#[test]
fn hash256_as_ref_gives_the_bytes() {
    let h = Hash256([7u8; 32]);
    let r: &[u8] = h.as_ref();
    assert_eq!(r, &[7u8; 32][..]);
}

// --- OutPoint ---

#[test]
fn outpoint_null_detection() {
    assert!(OutPoint::null().is_null());
}

#[test]
fn outpoint_non_null() {
    let op = OutPoint { txid: Hash256([1; 32]), index: 0 };
    assert!(!op.is_null());
}

#[test]
fn outpoint_display() {
    let op = OutPoint { txid: Hash256([0xFF; 32]), index: 3 };
    let s = op.to_text();
    assert!(s.ends_with(":3"));
}

// --- Transaction ---

#[test]
fn coinbase_detection() {
    assert!(sample_coinbase().is_coinbase());
    assert!(!sample_tx().is_coinbase());
}

#[test]
fn multi_input_not_coinbase() {
    let tx = Transaction {
        version: 1,
        inputs: vec![
            TxInput { previous_output: OutPoint::null(), signature: vec![], public_key: vec![] },
            TxInput { previous_output: OutPoint::null(), signature: vec![], public_key: vec![] },
        ],
        outputs: vec![],
        lock_time: 0,
    };
    assert!(!tx.is_coinbase());
}

#[test]
fn total_output_value_sums_correctly() {
    let tx = Transaction {
        version: 1,
        inputs: vec![],
        outputs: vec![
            TxOutput { value: 100, pubkey_hash: Hash256::zero() },
            TxOutput { value: 200, pubkey_hash: Hash256::zero() },
            TxOutput { value: 300, pubkey_hash: Hash256::zero() },
        ],
        lock_time: 0,
    };
    assert_eq!(tx.total_output_value(), Some(600));
}

#[test]
fn total_output_value_overflow_returns_none() {
    let tx = Transaction {
        version: 1,
        inputs: vec![],
        outputs: vec![
            TxOutput { value: u64::MAX, pubkey_hash: Hash256::zero() },
            TxOutput { value: 1, pubkey_hash: Hash256::zero() },
        ],
        lock_time: 0,
    };
    assert_eq!(tx.total_output_value(), None);
}

#[test]
fn total_output_value_empty() {
    let tx = Transaction { version: 1, inputs: vec![], outputs: vec![], lock_time: 0 };
    assert_eq!(tx.total_output_value(), Some(0));
}

#[test]
fn txid_deterministic() {
    let tx = sample_tx();
    assert_eq!(tx.txid().unwrap(), tx.txid().unwrap());
}

#[test]
fn txid_changes_with_data() {
    let tx1 = sample_tx();
    let mut tx2 = sample_tx();
    tx2.lock_time = 1;
    assert_ne!(tx1.txid().unwrap(), tx2.txid().unwrap());
}

#[test]
fn txid_is_nonzero() {
    assert!(!sample_tx().txid().unwrap().is_zero());
}

// --- BlockHeader ---

#[test]
fn block_header_hash_deterministic() {
    let h = sample_header();
    assert_eq!(h.hash(), h.hash());
}

#[test]
fn block_header_hash_changes_with_nonce() {
    let h1 = sample_header();
    let mut h2 = h1.clone();
    h2.nonce = 1;
    assert_ne!(h1.hash(), h2.hash());
}

#[test]
fn block_header_hash_is_nonzero() {
    assert!(!sample_header().hash().is_zero());
}

#[test]
fn block_header_hash_fixed_size_input() {
    let h = sample_header();
    let mut data = Vec::new();
    data.extend_from_slice(&h.version.to_le_bytes());
    data.extend_from_slice(h.prev_hash.as_bytes());
    data.extend_from_slice(h.merkle_root.as_bytes());
    data.extend_from_slice(&h.timestamp.to_le_bytes());
    data.extend_from_slice(&h.difficulty_target.to_le_bytes());
    data.extend_from_slice(&h.nonce.to_le_bytes());
    assert_eq!(data.len(), 96);
    assert_eq!(h.header_bytes(), data);
}

// --- Block ---

#[test]
fn block_coinbase_accessor() {
    let block = Block { header: sample_header(), transactions: vec![sample_coinbase()] };
    assert!(block.coinbase().unwrap().is_coinbase());
}

#[test]
fn block_empty_has_no_coinbase() {
    let block = Block { header: sample_header(), transactions: vec![] };
    assert!(block.coinbase().is_none());
}

// --- UtxoEntry ---

fn coinbase_entry_at_100() -> UtxoEntry {
    UtxoEntry {
        output: TxOutput { value: 50 * COIN, pubkey_hash: Hash256::zero() },
        block_height: 100,
        is_coinbase: true,
        cluster_id: Hash256::zero(),
    }
}

#[test]
fn utxo_coinbase_not_mature_early() {
    assert!(!coinbase_entry_at_100().is_mature(150));
}

#[test]
fn utxo_coinbase_mature_at_threshold() {
    assert!(coinbase_entry_at_100().is_mature(200));
}

#[test]
fn utxo_coinbase_mature_past_threshold() {
    assert!(coinbase_entry_at_100().is_mature(300));
}

#[test]
fn utxo_non_coinbase_always_mature() {
    let entry = UtxoEntry {
        output: TxOutput { value: 100, pubkey_hash: Hash256::zero() },
        block_height: 100,
        is_coinbase: false,
        cluster_id: Hash256::zero(),
    };
    assert!(entry.is_mature(100));
    assert!(entry.is_mature(0));
}

// --- Round trips through the canonical encoding ---

#[test]
fn bincode_round_trip_transaction() {
    let tx = sample_tx();
    let encoded = encode_transaction(&tx);
    let (decoded, used) = decode_transaction(&encoded).unwrap();
    assert_eq!(tx, decoded);
    assert_eq!(used, encoded.len());
}

#[test]
fn bincode_round_trip_block_header() {
    let header = sample_header();
    let encoded = encode_header(&header);
    let (decoded, used) = decode_header(&encoded).unwrap();
    assert_eq!(header, decoded);
    assert_eq!(used, encoded.len());
}

#[test]
fn bincode_round_trip_block() {
    let block = Block {
        header: sample_header(),
        transactions: vec![sample_coinbase(), sample_tx()],
    };
    let encoded = encode_block(&block);
    let (decoded, used) = decode_block(&encoded).unwrap();
    assert_eq!(block, decoded);
    assert_eq!(used, encoded.len());
}

#[test]
fn bincode_round_trip_utxo_entry() {
    let entry = UtxoEntry {
        output: TxOutput { value: 50 * COIN, pubkey_hash: Hash256([0xCC; 32]) },
        block_height: 12345,
        is_coinbase: true,
        cluster_id: Hash256([0xDD; 32]),
    };
    let encoded = encode_utxo_entry(&entry);
    let (decoded, used) = decode_utxo_entry(&encoded).unwrap();
    assert_eq!(entry, decoded);
    assert_eq!(used, encoded.len());
}

#[test]
fn transaction_list_round_trip_leaves_trailing_bytes() {
    let txs = vec![sample_coinbase(), sample_tx()];
    let mut encoded = encode_transactions(&txs);
    let len = encoded.len();
    encoded.extend_from_slice(&[9, 9, 9]);
    let (decoded, used) = decode_transactions(&encoded).unwrap();
    assert_eq!(decoded, txs);
    assert_eq!(used, len);
}

#[test]
fn header_encoding_has_expected_bytes() {
    let encoded = encode_header(&sample_header());
    // version 1, two zero hashes, timestamp as a 4-byte varint, the
    // maximum target as an 8-byte varint, nonce 0.
    let mut expected = vec![1u8];
    expected.extend_from_slice(&[0u8; 64]);
    expected.push(252);
    expected.extend_from_slice(&1_700_000_000u32.to_le_bytes());
    expected.push(253);
    expected.extend_from_slice(&u64::MAX.to_le_bytes());
    expected.push(0);
    assert_eq!(encoded, expected);
}

#[test]
fn decoder_accepts_wide_varints() {
    // A one-byte value written in the two-byte form still reads back.
    let mut bytes = vec![251u8, 5, 0, 1];
    bytes.extend_from_slice(&[0u8; 32]);
    // index, signature length, public key length, output count, lock time
    bytes.extend_from_slice(&[0, 0, 0, 0, 7]);
    let (tx, used) = decode_transaction(&bytes).unwrap();
    assert_eq!(tx.version, 5);
    assert_eq!(tx.inputs.len(), 1);
    assert_eq!(tx.lock_time, 7);
    assert_eq!(used, bytes.len());
}

#[test]
fn decoder_refuses_truncated_input() {
    let encoded = encode_transaction(&sample_tx());
    assert!(decode_transaction(&encoded[..encoded.len() - 1]).is_none());
    assert!(decode_transaction(&[]).is_none());
}

#[test]
fn decoder_refuses_reserved_varint_markers() {
    assert!(decode_transaction(&[254, 0, 0, 0, 0]).is_none());
    assert!(decode_transaction(&[255, 0, 0, 0, 0]).is_none());
}

#[test]
fn decoder_refuses_bad_flag_byte() {
    let entry = coinbase_entry_at_100();
    let mut encoded = encode_utxo_entry(&entry);
    // Value, hash, height, then the flag byte.
    let flag_at = encoded.len() - 33;
    assert_eq!(encoded[flag_at], 1);
    encoded[flag_at] = 2;
    assert!(decode_utxo_entry(&encoded).is_none());
}
