use rill::mempool::{DEFAULT_MAX_BYTES, DEFAULT_MAX_COUNT, FEE_RATE_PRECISION, Mempool, MempoolEntry, compute_fee_rate};
use rill::types::{Block, BlockHeader, Hash256, OutPoint, Transaction, TxInput, TxOutput, encode_transaction};
use rill::constants::COIN;
use rill::error::MempoolError;
use rill::merkle::merkle_root;
// ------------------------------------------------------------------
// Helpers
// ------------------------------------------------------------------

/// Create a test transaction spending the given outpoints.
fn make_tx(outpoints: &[OutPoint], output_value: u64, lock_time: u64) -> Transaction {
    Transaction {
        version: 1,
        inputs: outpoints
            .iter()
            .map(|op| TxInput {
                previous_output: op.clone(),
                signature: vec![0; 64],
                public_key: vec![0; 32],
            })
            .collect(),
        outputs: vec![TxOutput {
            value: output_value,
            pubkey_hash: Hash256::zero(),
        }],
        lock_time,
    }
}

/// Create an outpoint with a unique txid derived from `seed`.
fn outpoint(seed: u8, index: u64) -> OutPoint {
    OutPoint {
        txid: Hash256([seed; 32]),
        index,
    }
}

/// Compute the serialized size of a transaction.
fn tx_size(tx: &Transaction) -> usize {
    encode_transaction(tx).len()
}

// ------------------------------------------------------------------
// Basic operations
// ------------------------------------------------------------------

#[test]
fn new_mempool_is_empty() {
    let pool = Mempool::new(100, 100_000);
    assert!(pool.is_empty());
    assert_eq!(pool.len(), 0);
    assert_eq!(pool.total_bytes(), 0);
    assert_eq!(pool.total_fees(), 0);
}

#[test]
fn with_defaults_creates_pool() {
    let pool = Mempool::with_defaults();
    assert_eq!(pool.max_count(), DEFAULT_MAX_COUNT);
    assert_eq!(pool.max_bytes(), DEFAULT_MAX_BYTES);
    assert!(pool.is_empty());
}

#[test]
fn insert_and_get() {
    let mut pool = Mempool::new(100, 100_000);
    let tx = make_tx(&[outpoint(1, 0)], 49 * COIN, 0);
    let fee = 1 * COIN;

    let txid = pool.insert(tx.clone(), fee).unwrap();
    assert!(!txid.is_zero());

    let entry = pool.get(&txid).unwrap();
    assert_eq!(entry.txid, txid);
    assert_eq!(entry.fee, fee);
    assert_eq!(entry.tx, tx);
    assert!(entry.size > 0);
}

#[test]
fn insert_updates_counts() {
    let mut pool = Mempool::new(100, 100_000);
    let tx = make_tx(&[outpoint(1, 0)], 49 * COIN, 0);
    let size = tx_size(&tx);

    pool.insert(tx, COIN).unwrap();

    assert_eq!(pool.len(), 1);
    assert!(!pool.is_empty());
    assert_eq!(pool.total_bytes(), size);
    assert_eq!(pool.total_fees(), COIN);
}

#[test]
fn contains_after_insert() {
    let mut pool = Mempool::new(100, 100_000);
    let tx = make_tx(&[outpoint(1, 0)], 49 * COIN, 0);

    let txid = pool.insert(tx, COIN).unwrap();
    assert!(pool.contains(&txid));
    assert!(!pool.contains(&Hash256::zero()));
}

#[test]
fn remove_returns_entry() {
    let mut pool = Mempool::new(100, 100_000);
    let tx = make_tx(&[outpoint(1, 0)], 49 * COIN, 0);
    let txid = pool.insert(tx.clone(), COIN).unwrap();

    let entry = pool.remove(&txid).unwrap();
    assert_eq!(entry.txid, txid);
    assert_eq!(entry.tx, tx);
    assert!(pool.is_empty());
    assert_eq!(pool.total_bytes(), 0);
}

#[test]
fn remove_unknown_returns_none() {
    let mut pool = Mempool::new(100, 100_000);
    assert!(pool.remove(&Hash256::zero()).is_none());
}

#[test]
fn remove_cleans_outpoint_index() {
    let mut pool = Mempool::new(100, 100_000);
    let op = outpoint(1, 0);
    let tx = make_tx(&[op.clone()], 49 * COIN, 0);
    let txid = pool.insert(tx, COIN).unwrap();

    // Outpoint should be tracked while in pool.
    let conflict_tx = make_tx(&[op.clone()], 48 * COIN, 0);
    assert!(pool.has_conflict(&conflict_tx));

    pool.remove(&txid);

    // After removal, the outpoint should be free.
    assert!(!pool.has_conflict(&conflict_tx));
}

#[test]
fn txids_returns_all() {
    let mut pool = Mempool::new(100, 100_000);
    let txid1 = pool
        .insert(make_tx(&[outpoint(1, 0)], 49 * COIN, 0), COIN)
        .unwrap();
    let txid2 = pool
        .insert(make_tx(&[outpoint(2, 0)], 48 * COIN, 0), 2 * COIN)
        .unwrap();

    let mut txids = pool.txids();
    txids.sort();
    let mut expected = vec![txid1, txid2];
    expected.sort();
    assert_eq!(txids, expected);
}

#[test]
fn iter_yields_all_entries() {
    let mut pool = Mempool::new(100, 100_000);
    pool.insert(make_tx(&[outpoint(1, 0)], 49 * COIN, 0), COIN)
        .unwrap();
    pool.insert(make_tx(&[outpoint(2, 0)], 48 * COIN, 0), 2 * COIN)
        .unwrap();

    let entries: Vec<_> = pool.iter().collect();
    assert_eq!(entries.len(), 2);
}

// ------------------------------------------------------------------
// Duplicates
// ------------------------------------------------------------------

#[test]
fn rejects_duplicate_txid() {
    let mut pool = Mempool::new(100, 100_000);
    let tx = make_tx(&[outpoint(1, 0)], 49 * COIN, 0);

    pool.insert(tx.clone(), COIN).unwrap();
    let err = pool.insert(tx, COIN).unwrap_err();
    assert!(matches!(err, MempoolError::AlreadyExists(_)));
}

// ------------------------------------------------------------------
// Conflicts
// ------------------------------------------------------------------

#[test]
fn rejects_conflicting_outpoint() {
    let mut pool = Mempool::new(100, 100_000);
    let op = outpoint(1, 0);

    pool.insert(make_tx(&[op.clone()], 49 * COIN, 0), COIN)
        .unwrap();

    // Different tx spending the same outpoint.
    let tx2 = make_tx(&[op], 48 * COIN, 1);
    let err = pool.insert(tx2, 2 * COIN).unwrap_err();
    assert!(matches!(err, MempoolError::Conflict { .. }));
}

#[test]
fn has_conflict_true() {
    let mut pool = Mempool::new(100, 100_000);
    let op = outpoint(1, 0);
    pool.insert(make_tx(&[op.clone()], 49 * COIN, 0), COIN)
        .unwrap();

    let tx2 = make_tx(&[op], 48 * COIN, 1);
    assert!(pool.has_conflict(&tx2));
}

#[test]
fn has_conflict_false() {
    let mut pool = Mempool::new(100, 100_000);
    pool.insert(make_tx(&[outpoint(1, 0)], 49 * COIN, 0), COIN)
        .unwrap();

    let tx2 = make_tx(&[outpoint(2, 0)], 48 * COIN, 0);
    assert!(!pool.has_conflict(&tx2));
}

#[test]
fn has_conflict_empty_pool() {
    let pool = Mempool::new(100, 100_000);
    let tx = make_tx(&[outpoint(1, 0)], 49 * COIN, 0);
    assert!(!pool.has_conflict(&tx));
}

#[test]
fn conflicting_txids_returns_correct() {
    let mut pool = Mempool::new(100, 100_000);
    let op = outpoint(1, 0);
    let txid = pool
        .insert(make_tx(&[op.clone()], 49 * COIN, 0), COIN)
        .unwrap();

    let tx2 = make_tx(&[op], 48 * COIN, 1);
    assert_eq!(pool.conflicting_txids(&tx2), vec![txid]);
}

#[test]
fn conflicting_txids_empty_when_no_conflict() {
    let mut pool = Mempool::new(100, 100_000);
    pool.insert(make_tx(&[outpoint(1, 0)], 49 * COIN, 0), COIN)
        .unwrap();

    let tx2 = make_tx(&[outpoint(2, 0)], 48 * COIN, 0);
    assert!(pool.conflicting_txids(&tx2).is_empty());
}

#[test]
fn conflicting_txids_deduplicates() {
    let mut pool = Mempool::new(100, 100_000);
    let op1 = outpoint(1, 0);
    let op2 = outpoint(1, 1);
    // One pool tx spends both outpoints.
    let txid = pool
        .insert(make_tx(&[op1.clone(), op2.clone()], 49 * COIN, 0), COIN)
        .unwrap();

    // New tx also spends both outpoints → should return the same txid once.
    let tx2 = make_tx(&[op1, op2], 48 * COIN, 1);
    let conflicts = pool.conflicting_txids(&tx2);
    assert_eq!(conflicts.len(), 1);
    assert_eq!(conflicts[0], txid);
}

// ------------------------------------------------------------------
// Size limits and eviction
// ------------------------------------------------------------------

#[test]
fn respects_max_count() {
    let mut pool = Mempool::new(2, 1_000_000);

    pool.insert(make_tx(&[outpoint(1, 0)], 49 * COIN, 0), 1 * COIN)
        .unwrap();
    pool.insert(make_tx(&[outpoint(2, 0)], 48 * COIN, 0), 2 * COIN)
        .unwrap();
    assert_eq!(pool.len(), 2);

    // Third insert with higher fee rate should evict the lowest.
    pool.insert(make_tx(&[outpoint(3, 0)], 47 * COIN, 0), 3 * COIN)
        .unwrap();
    assert_eq!(pool.len(), 2);
}

#[test]
fn evicts_lowest_fee_rate() {
    let mut pool = Mempool::new(2, 1_000_000);

    let txid_low = pool
        .insert(make_tx(&[outpoint(1, 0)], 49 * COIN, 0), 1_000) // low fee
        .unwrap();
    let txid_high = pool
        .insert(make_tx(&[outpoint(2, 0)], 48 * COIN, 0), 10_000) // high fee
        .unwrap();

    // Insert with medium fee → should evict the low-fee tx.
    let txid_med = pool
        .insert(make_tx(&[outpoint(3, 0)], 47 * COIN, 0), 5_000) // medium fee
        .unwrap();

    assert!(!pool.contains(&txid_low));
    assert!(pool.contains(&txid_high));
    assert!(pool.contains(&txid_med));
}

#[test]
fn rejects_when_fee_too_low_for_eviction() {
    let mut pool = Mempool::new(2, 1_000_000);

    pool.insert(make_tx(&[outpoint(1, 0)], 49 * COIN, 0), 5_000)
        .unwrap();
    pool.insert(make_tx(&[outpoint(2, 0)], 48 * COIN, 0), 10_000)
        .unwrap();

    // Insert with lower fee rate than the lowest in pool → rejected.
    let err = pool
        .insert(make_tx(&[outpoint(3, 0)], 47 * COIN, 0), 1_000)
        .unwrap_err();
    assert!(matches!(err, MempoolError::PoolFull));
    assert_eq!(pool.len(), 2);
}

#[test]
fn respects_max_bytes() {
    let tx = make_tx(&[outpoint(1, 0)], 49 * COIN, 0);
    let size = tx_size(&tx);
    // Allow exactly one transaction.
    let mut pool = Mempool::new(100, size);

    pool.insert(tx, COIN).unwrap();
    assert_eq!(pool.len(), 1);

    // Second tx doesn't fit by byte limit. Higher fee should evict.
    pool.insert(make_tx(&[outpoint(2, 0)], 48 * COIN, 0), 2 * COIN)
        .unwrap();
    assert_eq!(pool.len(), 1);
}

// ------------------------------------------------------------------
// Fee rate computation
// ------------------------------------------------------------------

#[test]
fn fee_rate_accessor() {
    let mut pool = Mempool::new(100, 100_000);
    let tx = make_tx(&[outpoint(1, 0)], 49 * COIN, 0);
    let fee = 1_000;

    let txid = pool.insert(tx, fee).unwrap();
    let entry = pool.get(&txid).unwrap();

    let expected_rate = compute_fee_rate(fee, entry.size);
    assert_eq!(entry.fee_rate(), expected_rate);
    assert!(entry.fee_rate() > 0);
}

#[test]
fn fee_rate_zero_fee() {
    assert_eq!(compute_fee_rate(0, 100), 0);
}

#[test]
fn fee_rate_zero_size() {
    assert_eq!(compute_fee_rate(1000, 0), u64::MAX);
}

#[test]
fn fee_rate_precision() {
    // 999 rills / 1000 bytes = 0.999 rills/byte
    // With FEE_RATE_PRECISION = 1000: 999 * 1000 / 1000 = 999 milli-rills/byte
    assert_eq!(compute_fee_rate(999, 1000), 999);
    // Without precision this would truncate to 0.
}

// ------------------------------------------------------------------
// select_transactions
// ------------------------------------------------------------------

#[test]
fn select_empty_pool() {
    let pool = Mempool::new(100, 100_000);
    assert!(pool.select_transactions(100_000).is_empty());
}

#[test]
fn select_returns_highest_fee_rate_first() {
    let mut pool = Mempool::new(100, 1_000_000);

    let txid_low = pool
        .insert(make_tx(&[outpoint(1, 0)], 49 * COIN, 0), 1_000)
        .unwrap();
    let txid_high = pool
        .insert(make_tx(&[outpoint(2, 0)], 48 * COIN, 0), 10_000)
        .unwrap();
    let txid_med = pool
        .insert(make_tx(&[outpoint(3, 0)], 47 * COIN, 0), 5_000)
        .unwrap();

    let selected = pool.select_transactions(1_000_000);
    assert_eq!(selected.len(), 3);
    assert_eq!(selected[0].txid, txid_high);
    assert_eq!(selected[1].txid, txid_med);
    assert_eq!(selected[2].txid, txid_low);
}

#[test]
fn select_respects_size_budget() {
    let mut pool = Mempool::new(100, 1_000_000);

    let tx1 = make_tx(&[outpoint(1, 0)], 49 * COIN, 0);
    let size1 = tx_size(&tx1);
    pool.insert(tx1, 10_000).unwrap();
    pool.insert(make_tx(&[outpoint(2, 0)], 48 * COIN, 0), 5_000)
        .unwrap();

    // Budget for exactly one transaction.
    let selected = pool.select_transactions(size1);
    assert_eq!(selected.len(), 1);
}

#[test]
fn select_zero_budget() {
    let mut pool = Mempool::new(100, 100_000);
    pool.insert(make_tx(&[outpoint(1, 0)], 49 * COIN, 0), COIN)
        .unwrap();

    assert!(pool.select_transactions(0).is_empty());
}

// ------------------------------------------------------------------
// remove_confirmed_block
// ------------------------------------------------------------------

#[test]
fn remove_confirmed_removes_block_txids() {
    let mut pool = Mempool::new(100, 100_000);
    let tx = make_tx(&[outpoint(1, 0)], 49 * COIN, 0);
    let txid = pool.insert(tx.clone(), COIN).unwrap();

    // Unrelated pool tx should survive.
    let txid_other = pool
        .insert(make_tx(&[outpoint(2, 0)], 48 * COIN, 0), COIN)
        .unwrap();

    // Build a block containing the first tx.
    let coinbase = Transaction {
        version: 1,
        inputs: vec![TxInput {
            previous_output: OutPoint::null(),
            signature: vec![],
            public_key: vec![],
        }],
        outputs: vec![TxOutput {
            value: 50 * COIN,
            pubkey_hash: Hash256::zero(),
        }],
        lock_time: 0,
    };
    let block_txs = vec![coinbase, tx];
    let txids: Vec<Hash256> = block_txs.iter().map(|t| t.txid().unwrap()).collect();
    let block = Block {
        header: BlockHeader {
            version: 1,
            prev_hash: Hash256::zero(),
            merkle_root: merkle_root(&txids),
            timestamp: 0,
            difficulty_target: u64::MAX,
            nonce: 0,
        },
        transactions: block_txs,
    };

    pool.remove_confirmed_block(&block);

    assert!(!pool.contains(&txid));
    assert!(pool.contains(&txid_other));
    assert_eq!(pool.len(), 1);
}

#[test]
fn remove_confirmed_removes_conflicting_txs() {
    let mut pool = Mempool::new(100, 100_000);
    let op = outpoint(1, 0);
    // Pool has tx spending outpoint(1,0).
    let pool_txid = pool
        .insert(make_tx(&[op.clone()], 49 * COIN, 0), COIN)
        .unwrap();

    // Block contains a *different* tx spending the same outpoint.
    let block_tx = make_tx(&[op], 48 * COIN, 99);
    let coinbase = Transaction {
        version: 1,
        inputs: vec![TxInput {
            previous_output: OutPoint::null(),
            signature: vec![],
            public_key: vec![],
        }],
        outputs: vec![TxOutput {
            value: 50 * COIN,
            pubkey_hash: Hash256::zero(),
        }],
        lock_time: 0,
    };
    let block_txs = vec![coinbase, block_tx];
    let txids: Vec<Hash256> = block_txs.iter().map(|t| t.txid().unwrap()).collect();
    let block = Block {
        header: BlockHeader {
            version: 1,
            prev_hash: Hash256::zero(),
            merkle_root: merkle_root(&txids),
            timestamp: 0,
            difficulty_target: u64::MAX,
            nonce: 0,
        },
        transactions: block_txs,
    };

    pool.remove_confirmed_block(&block);

    // Pool tx is gone because its input was spent in the block.
    assert!(!pool.contains(&pool_txid));
    assert!(pool.is_empty());
}

#[test]
fn remove_confirmed_unrelated_survives() {
    let mut pool = Mempool::new(100, 100_000);
    let txid_survivor = pool
        .insert(make_tx(&[outpoint(99, 0)], 49 * COIN, 0), COIN)
        .unwrap();

    let coinbase = Transaction {
        version: 1,
        inputs: vec![TxInput {
            previous_output: OutPoint::null(),
            signature: vec![],
            public_key: vec![],
        }],
        outputs: vec![TxOutput {
            value: 50 * COIN,
            pubkey_hash: Hash256::zero(),
        }],
        lock_time: 0,
    };
    let block_txs = vec![coinbase];
    let txids: Vec<Hash256> = block_txs.iter().map(|t| t.txid().unwrap()).collect();
    let block = Block {
        header: BlockHeader {
            version: 1,
            prev_hash: Hash256::zero(),
            merkle_root: merkle_root(&txids),
            timestamp: 0,
            difficulty_target: u64::MAX,
            nonce: 0,
        },
        transactions: block_txs,
    };

    pool.remove_confirmed_block(&block);
    assert!(pool.contains(&txid_survivor));
    assert_eq!(pool.len(), 1);
}

#[test]
fn remove_confirmed_empty_pool_noop() {
    let mut pool = Mempool::new(100, 100_000);
    let coinbase = Transaction {
        version: 1,
        inputs: vec![TxInput {
            previous_output: OutPoint::null(),
            signature: vec![],
            public_key: vec![],
        }],
        outputs: vec![TxOutput {
            value: 50 * COIN,
            pubkey_hash: Hash256::zero(),
        }],
        lock_time: 0,
    };
    let block_txs = vec![coinbase];
    let txids: Vec<Hash256> = block_txs.iter().map(|t| t.txid().unwrap()).collect();
    let block = Block {
        header: BlockHeader {
            version: 1,
            prev_hash: Hash256::zero(),
            merkle_root: merkle_root(&txids),
            timestamp: 0,
            difficulty_target: u64::MAX,
            nonce: 0,
        },
        transactions: block_txs,
    };

    pool.remove_confirmed_block(&block);
    assert!(pool.is_empty());
}

// ------------------------------------------------------------------
// Total fees
// ------------------------------------------------------------------

#[test]
fn total_fees_sums_correctly() {
    let mut pool = Mempool::new(100, 100_000);
    pool.insert(make_tx(&[outpoint(1, 0)], 49 * COIN, 0), 1_000)
        .unwrap();
    pool.insert(make_tx(&[outpoint(2, 0)], 48 * COIN, 0), 2_000)
        .unwrap();

    assert_eq!(pool.total_fees(), 3_000);
}

#[test]
fn total_fees_after_remove() {
    let mut pool = Mempool::new(100, 100_000);
    let txid = pool
        .insert(make_tx(&[outpoint(1, 0)], 49 * COIN, 0), 1_000)
        .unwrap();
    pool.insert(make_tx(&[outpoint(2, 0)], 48 * COIN, 0), 2_000)
        .unwrap();

    pool.remove(&txid);
    assert_eq!(pool.total_fees(), 2_000);
}

// ------------------------------------------------------------------
// Total bytes tracking
// ------------------------------------------------------------------

#[test]
fn total_bytes_tracks_insert_remove() {
    let mut pool = Mempool::new(100, 100_000);
    let tx = make_tx(&[outpoint(1, 0)], 49 * COIN, 0);
    let size = tx_size(&tx);

    let txid = pool.insert(tx, COIN).unwrap();
    assert_eq!(pool.total_bytes(), size);

    pool.remove(&txid);
    assert_eq!(pool.total_bytes(), 0);
}

#[test]
fn total_bytes_multi() {
    let mut pool = Mempool::new(100, 100_000);
    let tx1 = make_tx(&[outpoint(1, 0)], 49 * COIN, 0);
    let tx2 = make_tx(&[outpoint(2, 0)], 48 * COIN, 0);
    let s1 = tx_size(&tx1);
    let s2 = tx_size(&tx2);

    pool.insert(tx1, COIN).unwrap();
    pool.insert(tx2, COIN).unwrap();
    assert_eq!(pool.total_bytes(), s1 + s2);
}

// ------------------------------------------------------------------
// Error display
// ------------------------------------------------------------------

#[test]
fn mempool_error_variants_display() {
    let errors: Vec<MempoolError> = vec![
        MempoolError::AlreadyExists("abc".into()),
        MempoolError::Conflict {
            new_txid: "new".into(),
            existing_txid: "old".into(),
            outpoint: "op:0".into(),
        },
        MempoolError::PoolFull,
        MempoolError::FeeTooLow { fee: 100, minimum: 1000 },
        MempoolError::Internal("oops".into()),
    ];
    for e in &errors {
        assert!(!e.message().is_empty());
    }
}

// ------------------------------------------------------------------
// MempoolEntry
// ------------------------------------------------------------------

#[test]
fn entry_clone() {
    let mut pool = Mempool::new(100, 100_000);
    let txid = pool
        .insert(make_tx(&[outpoint(1, 0)], 49 * COIN, 0), COIN)
        .unwrap();
    let entry = pool.get(&txid).unwrap();
    let cloned = entry.clone();
    assert_eq!(cloned.txid, entry.txid);
    assert_eq!(cloned.fee, entry.fee);
}

#[test]
fn entry_debug() {
    let mut pool = Mempool::new(100, 100_000);
    let txid = pool
        .insert(make_tx(&[outpoint(1, 0)], 49 * COIN, 0), COIN)
        .unwrap();
    let entry = pool.get(&txid).unwrap();
    let debug = format!("{entry:?}");
    assert!(debug.contains("fee"));
}

// ------------------------------------------------------------------
// Min fee enforcement
// ------------------------------------------------------------------

#[test]
fn rejects_zero_fee() {
    let mut pool = Mempool::new(100, 100_000);
    let tx = make_tx(&[outpoint(1, 0)], 49 * COIN, 0);
    let err = pool.insert(tx, 0).unwrap_err();
    assert!(matches!(err, MempoolError::FeeTooLow { fee: 0, minimum: 1000 }));
}

#[test]
fn rejects_fee_below_minimum() {
    let mut pool = Mempool::new(100, 100_000);
    let tx = make_tx(&[outpoint(1, 0)], 49 * COIN, 0);
    let err = pool.insert(tx, 999).unwrap_err();
    assert!(matches!(err, MempoolError::FeeTooLow { fee: 999, minimum: 1000 }));
}

#[test]
fn accepts_fee_at_minimum() {
    let mut pool = Mempool::new(100, 100_000);
    let tx = make_tx(&[outpoint(1, 0)], 49 * COIN, 0);
    assert!(pool.insert(tx, 1000).is_ok());
}

#[test]
fn accepts_fee_above_minimum() {
    let mut pool = Mempool::new(100, 100_000);
    let tx = make_tx(&[outpoint(1, 0)], 49 * COIN, 0);
    assert!(pool.insert(tx, 5000).is_ok());
}

#[test]
fn fee_too_low_error_display() {
    let e = MempoolError::FeeTooLow { fee: 500, minimum: 1000 };
    assert_eq!(e.message(), "fee too low: 500 < minimum 1000");
}

// ------------------------------------------------------------------
// Multiple outpoints per tx
// ------------------------------------------------------------------

#[test]
fn multi_input_tx_tracks_all_outpoints() {
    let mut pool = Mempool::new(100, 100_000);
    let op1 = outpoint(1, 0);
    let op2 = outpoint(2, 0);
    pool.insert(make_tx(&[op1.clone(), op2.clone()], 49 * COIN, 0), COIN)
        .unwrap();

    // Both outpoints should be tracked.
    assert!(pool.has_conflict(&make_tx(&[op1], 40 * COIN, 1)));
    assert!(pool.has_conflict(&make_tx(&[op2], 40 * COIN, 2)));
}

#[test]
fn multi_input_tx_removal_frees_all_outpoints() {
    let mut pool = Mempool::new(100, 100_000);
    let op1 = outpoint(1, 0);
    let op2 = outpoint(2, 0);
    let txid = pool
        .insert(make_tx(&[op1.clone(), op2.clone()], 49 * COIN, 0), COIN)
        .unwrap();

    pool.remove(&txid);

    assert!(!pool.has_conflict(&make_tx(&[op1], 40 * COIN, 1)));
    assert!(!pool.has_conflict(&make_tx(&[op2], 40 * COIN, 2)));
}

#[test]
fn eviction_keeps_earlier_evictions_when_refused() {
    let t1 = make_tx(&[outpoint(1, 0)], 49 * COIN, 0);
    let t2 = make_tx(&[outpoint(2, 0)], 49 * COIN, 0);
    let s1 = tx_size(&t1);
    assert_eq!(s1, tx_size(&t2));
    let mut pool = Mempool::new(2, 2 * s1);
    let low = pool.insert(t1, 1_000).unwrap();
    let high = pool.insert(t2, 1_000_000).unwrap();
    // A larger transaction whose fee rate lies between the two: evicting the
    // low entry still leaves no room, and the high entry outranks it.
    let big = make_tx(&[outpoint(3, 0), outpoint(3, 1)], 49 * COIN, 0);
    assert!(tx_size(&big) > s1);
    assert_eq!(pool.insert(big, 50_000).unwrap_err(), MempoolError::PoolFull);
    assert!(!pool.contains(&low));
    assert!(pool.contains(&high));
    assert_eq!(pool.len(), 1);
    assert_eq!(pool.total_bytes(), s1);
}

#[test]
fn conflict_error_names_both_txids() {
    let mut pool = Mempool::new(10, 1_000_000);
    let first = pool.insert(make_tx(&[outpoint(7, 1)], 49 * COIN, 0), COIN).unwrap();
    let second = make_tx(&[outpoint(7, 1)], 48 * COIN, 9);
    let second_id = second.txid().unwrap();
    match pool.insert(second, COIN).unwrap_err() {
        MempoolError::Conflict { new_txid, existing_txid, outpoint } => {
            assert_eq!(new_txid, second_id.to_hex());
            assert_eq!(existing_txid, first.to_hex());
            assert_eq!(outpoint, format!("{}:1", "07".repeat(32)));
        }
        other => panic!("unexpected {other:?}"),
    }
}

#[test]
fn select_orders_equal_rates_by_txid_descending() {
    let mut pool = Mempool::new(10, 1_000_000);
    let a = make_tx(&[outpoint(8, 0)], 49 * COIN, 0);
    let b = make_tx(&[outpoint(9, 0)], 49 * COIN, 0);
    let sa = encode_transaction(&a).len() as u64;
    let sb = encode_transaction(&b).len() as u64;
    assert_eq!(sa, sb);
    let ida = pool.insert(a, 5_000).unwrap();
    let idb = pool.insert(b, 5_000).unwrap();
    let sel = pool.select_transactions(1_000_000);
    let (hi, lo) = if ida > idb { (ida, idb) } else { (idb, ida) };
    assert_eq!(sel[0].txid, hi);
    assert_eq!(sel[1].txid, lo);
}
