use rill::consensus::engine::{assemble_template, reward_with_release, select_pending};
use rill::block_validation::check_pow;
use rill::constants::{BLOCK_TIME_SECS, BPS_PRECISION, COIN, DECAY_POOL_RELEASE_BPS, INITIAL_REWARD, TESTNET_INITIAL_TARGET};
use rill::consensus::engine::{mine_block, ConsensusEngine, FnClock};
use rill::error::{BlockError, DecayError, RillError, TransactionError};
use rill::genesis::{genesis_block, genesis_hash, GENESIS_TIMESTAMP};
use rill::merkle::merkle_root;
use rill::reward::block_reward;
use rill::traits::{BlockProducer, ChainState, DecayCalculator};
use rill::types::{Block, BlockHeader, Hash256, OutPoint, Transaction, TxInput, TxOutput, UtxoEntry};
use std::sync::Arc;
use std::collections::HashMap;

// ======================================================================
// Mock ChainState
// ======================================================================

struct MockChainState {
    headers: Vec<BlockHeader>,
    blocks: Vec<Block>,
    hashes: Vec<Hash256>,
    utxos: HashMap<OutPoint, UtxoEntry>,
    supply: u64,
    pool: u64,
}

impl MockChainState {
    /// Create a chain with just the genesis block.
    fn with_genesis() -> Self {
        let genesis = genesis_block();
        let hash = genesis.header.hash();
        Self {
            headers: vec![genesis.header.clone()],
            blocks: vec![genesis],
            hashes: vec![hash],
            utxos: HashMap::new(),
            supply: 1_000_000 * COIN,
            pool: 10_000 * COIN,
        }
    }

    /// Add a block at the next height with the given timestamp and difficulty.
    fn add_block(&mut self, timestamp: u64, difficulty: u64) {
        let prev_hash = *self.hashes.last().unwrap();
        let height = self.headers.len() as u64;
        let sig = height.to_le_bytes().to_vec();
        let coinbase = Transaction {
            version: 1,
            inputs: vec![TxInput {
                previous_output: OutPoint::null(),
                signature: sig,
                public_key: vec![],
            }],
            outputs: vec![TxOutput {
                value: block_reward(height),
                pubkey_hash: Hash256([0xAA; 32]),
            }],
            lock_time: height,
        };
        let txid = coinbase.txid().unwrap();
        let mr = merkle_root(&[txid]);
        let header = BlockHeader {
            version: 1,
            prev_hash,
            merkle_root: mr,
            timestamp,
            difficulty_target: difficulty,
            nonce: 0,
        };
        let hash = header.hash();
        let block = Block {
            header: header.clone(),
            transactions: vec![coinbase],
        };
        self.headers.push(header);
        self.blocks.push(block);
        self.hashes.push(hash);
    }

    fn tip_height(&self) -> u64 {
        self.headers.len() as u64 - 1
    }

    fn tip_hash(&self) -> Hash256 {
        *self.hashes.last().unwrap()
    }
}

impl ChainState for MockChainState {
    fn get_utxo(
        &self,
        outpoint: &OutPoint,
    ) -> Result<Option<UtxoEntry>, RillError> {
        Ok(self.utxos.get(outpoint).cloned())
    }

    fn chain_tip(&self) -> Result<(u64, Hash256), RillError> {
        Ok((self.tip_height(), self.tip_hash()))
    }

    fn get_block_header(
        &self,
        hash: &Hash256,
    ) -> Result<Option<BlockHeader>, RillError> {
        Ok(self
            .hashes
            .iter()
            .position(|h| h == hash)
            .map(|i| self.headers[i].clone()))
    }

    fn get_block(&self, hash: &Hash256) -> Result<Option<Block>, RillError> {
        Ok(self
            .hashes
            .iter()
            .position(|h| h == hash)
            .map(|i| self.blocks[i].clone()))
    }

    fn get_block_hash(&self, height: u64) -> Result<Option<Hash256>, RillError> {
        Ok(self.hashes.get(height as usize).copied())
    }

    fn circulating_supply(&self) -> Result<u64, RillError> {
        Ok(self.supply)
    }

    fn cluster_balance(&self, _cluster_id: &Hash256) -> Result<u64, RillError> {
        Ok(0)
    }

    fn decay_pool_balance(&self) -> Result<u64, RillError> {
        Ok(self.pool)
    }

    fn validate_transaction(
        &self,
        tx: &Transaction,
    ) -> Result<(), TransactionError> {
        if tx.inputs.is_empty() || tx.outputs.is_empty() {
            return Err(TransactionError::EmptyInputsOrOutputs);
        }
        Ok(())
    }
}

// ======================================================================
// Mock DecayCalculator
// ======================================================================

struct MockDecay;

impl DecayCalculator for MockDecay {
    fn decay_rate_ppb(&self, _concentration_ppb: u64) -> Result<u64, DecayError> {
        Ok(0)
    }

    fn compute_decay(
        &self,
        _nominal_value: u64,
        _concentration_ppb: u64,
        _blocks_held: u64,
    ) -> Result<u64, DecayError> {
        Ok(0)
    }

    fn decay_pool_release(&self, pool_balance: u64) -> Result<u64, DecayError> {
        Ok(pool_balance * DECAY_POOL_RELEASE_BPS / BPS_PRECISION)
    }
}

// ======================================================================
// Helpers
// ======================================================================

fn make_engine(cs: MockChainState) -> ConsensusEngine<MockChainState, MockDecay, FnClock<impl Fn() -> u64 + Send + Sync>> {
    let time = cs.headers.last().unwrap().timestamp + BLOCK_TIME_SECS;
    ConsensusEngine::with_clock(
        Arc::new(cs),
        Arc::new(MockDecay),
        move || time,
    )
    .with_initial_target(u64::MAX)
}

fn make_engine_at_time(
    cs: MockChainState,
    current_time: u64,
) -> ConsensusEngine<MockChainState, MockDecay, FnClock<impl Fn() -> u64 + Send + Sync>> {
    ConsensusEngine::with_clock(
        Arc::new(cs),
        Arc::new(MockDecay),
        move || current_time,
    )
    .with_initial_target(u64::MAX)
}

// ======================================================================
// Construction
// ======================================================================

#[test]
fn engine_new_succeeds() {
    let cs = MockChainState::with_genesis();
    let _engine = make_engine(cs);
}

// ======================================================================
// block_reward
// ======================================================================

#[test]
fn block_reward_delegates_to_core() {
    let cs = MockChainState::with_genesis();
    let engine = make_engine(cs);
    assert_eq!(engine.block_reward(0), INITIAL_REWARD);
    assert_eq!(engine.block_reward(210_000), INITIAL_REWARD / 2);
    assert_eq!(engine.block_reward(u64::MAX), 0);
}

// ======================================================================
// validate_pow
// ======================================================================

#[test]
fn validate_pow_accepts_easy() {
    let cs = MockChainState::with_genesis();
    let engine = make_engine(cs);
    let header = BlockHeader {
        version: 1,
        prev_hash: Hash256::zero(),
        merkle_root: Hash256::zero(),
        timestamp: 1_000_000,
        difficulty_target: u64::MAX,
        nonce: 0,
    };
    assert!(engine.validate_pow(&header).is_ok());
}

#[test]
fn validate_pow_rejects_hard() {
    let cs = MockChainState::with_genesis();
    let engine = make_engine(cs);
    let header = BlockHeader {
        version: 1,
        prev_hash: Hash256::zero(),
        merkle_root: Hash256::zero(),
        timestamp: 1_000_000,
        difficulty_target: 0,
        nonce: 0,
    };
    assert_eq!(
        engine.validate_pow(&header).unwrap_err(),
        BlockError::InvalidPoW
    );
}

// ======================================================================
// difficulty_target
// ======================================================================

#[test]
fn difficulty_height_0_is_testnet_initial() {
    let cs = MockChainState::with_genesis();
    // Use a production-like engine (no initial target override)
    let time = cs.headers.last().unwrap().timestamp + BLOCK_TIME_SECS;
    let engine = ConsensusEngine::with_clock(
        Arc::new(cs),
        Arc::new(MockDecay),
        move || time,
    );
    assert_eq!(
        engine.difficulty_target(0).unwrap(),
        TESTNET_INITIAL_TARGET,
    );
}

#[test]
fn difficulty_height_1_is_testnet_initial() {
    let cs = MockChainState::with_genesis();
    // Use a production-like engine (no initial target override)
    let time = cs.headers.last().unwrap().timestamp + BLOCK_TIME_SECS;
    let engine = ConsensusEngine::with_clock(
        Arc::new(cs),
        Arc::new(MockDecay),
        move || time,
    );
    assert_eq!(
        engine.difficulty_target(1).unwrap(),
        TESTNET_INITIAL_TARGET,
    );
}

#[test]
fn difficulty_height_0_respects_override() {
    let cs = MockChainState::with_genesis();
    let engine = make_engine(cs);
    // make_engine sets initial target to u64::MAX
    assert_eq!(engine.difficulty_target(0).unwrap(), u64::MAX);
}

#[test]
fn difficulty_height_1_respects_override() {
    let cs = MockChainState::with_genesis();
    let engine = make_engine(cs);
    // make_engine sets initial target to u64::MAX
    assert_eq!(engine.difficulty_target(1).unwrap(), u64::MAX);
}

#[test]
fn difficulty_adjusts_for_slow_blocks() {
    let mut cs = MockChainState::with_genesis();
    let base_ts = GENESIS_TIMESTAMP;
    // Add blocks 2x slower than target (120s intervals)
    for i in 1..=3 {
        cs.add_block(base_ts + i * 120, u64::MAX);
    }
    let engine = make_engine(cs);
    // Height 4 should have higher (easier) target than MAX since blocks are slow
    // But since we start at MAX, it stays at MAX (can't go higher)
    let target = engine.difficulty_target(4).unwrap();
    assert_eq!(target, u64::MAX);
}

#[test]
fn difficulty_adjusts_for_fast_blocks() {
    let mut cs = MockChainState::with_genesis();
    let base_ts = GENESIS_TIMESTAMP;
    let initial_target = u64::MAX / 2;
    // Add blocks 2x faster than target (30s intervals)
    for i in 1..=3 {
        cs.add_block(base_ts + i * 30, initial_target);
    }
    let engine = make_engine(cs);
    // Height 4: blocks are faster, target should decrease
    let target = engine.difficulty_target(4).unwrap();
    assert!(target < initial_target, "target should decrease for fast blocks");
}

// ======================================================================
// create_block_template
// ======================================================================

#[test]
fn template_creates_valid_block() {
    let cs = MockChainState::with_genesis();
    let tip_hash = cs.tip_hash();
    let engine = make_engine(cs);
    let pkh = Hash256([0xBB; 32]);
    let ts = GENESIS_TIMESTAMP + BLOCK_TIME_SECS;
    let block = engine.create_block_template(&pkh, ts).unwrap();

    assert_eq!(block.header.prev_hash, tip_hash);
    assert_eq!(block.header.timestamp, ts);
    assert_eq!(block.header.difficulty_target, u64::MAX);
    assert_eq!(block.transactions.len(), 1);
    assert!(block.transactions[0].is_coinbase());
    assert_eq!(block.transactions[0].outputs[0].pubkey_hash, pkh);
}

#[test]
fn template_includes_decay_pool_release() {
    let cs = MockChainState::with_genesis();
    let pool = cs.pool;
    let engine = make_engine(cs);
    let pkh = Hash256([0xBB; 32]);
    let ts = GENESIS_TIMESTAMP + BLOCK_TIME_SECS;
    let block = engine.create_block_template(&pkh, ts).unwrap();

    let expected_pool_release = pool * DECAY_POOL_RELEASE_BPS / BPS_PRECISION;
    let expected_total = INITIAL_REWARD + expected_pool_release;
    assert_eq!(block.transactions[0].outputs[0].value, expected_total);
}

#[test]
fn template_has_correct_merkle_root() {
    let cs = MockChainState::with_genesis();
    let engine = make_engine(cs);
    let pkh = Hash256([0xBB; 32]);
    let ts = GENESIS_TIMESTAMP + BLOCK_TIME_SECS;
    let block = engine.create_block_template(&pkh, ts).unwrap();

    let txid = block.transactions[0].txid().unwrap();
    let expected_mr = merkle_root(&[txid]);
    assert_eq!(block.header.merkle_root, expected_mr);
}

#[test]
fn template_at_different_heights() {
    let mut cs = MockChainState::with_genesis();
    let base_ts = GENESIS_TIMESTAMP;
    cs.add_block(base_ts + 60, u64::MAX);
    cs.add_block(base_ts + 120, u64::MAX);
    let engine = make_engine(cs);
    let pkh = Hash256([0xBB; 32]);
    let block = engine
        .create_block_template(&pkh, base_ts + 180)
        .unwrap();

    // Height 3 block
    assert!(block.transactions[0].is_coinbase());
    assert_eq!(block.transactions[0].outputs[0].pubkey_hash, pkh);
}

// ======================================================================
// validate_block
// ======================================================================

#[test]
fn validate_accepts_valid_template() {
    let cs = MockChainState::with_genesis();
    let tip_ts = cs.headers.last().unwrap().timestamp;
    let current_time = tip_ts + BLOCK_TIME_SECS;
    let engine = make_engine_at_time(cs, current_time);

    let pkh = Hash256([0xBB; 32]);
    let block = engine
        .create_block_template(&pkh, tip_ts + BLOCK_TIME_SECS)
        .unwrap();
    assert!(engine.validate_block(&block).is_ok());
}

#[test]
fn validate_rejects_wrong_prev_hash() {
    let cs = MockChainState::with_genesis();
    let tip_ts = cs.headers.last().unwrap().timestamp;
    let current_time = tip_ts + BLOCK_TIME_SECS;
    let engine = make_engine_at_time(cs, current_time);

    let pkh = Hash256([0xBB; 32]);
    let mut block = engine
        .create_block_template(&pkh, tip_ts + BLOCK_TIME_SECS)
        .unwrap();
    block.header.prev_hash = Hash256([0xFF; 32]);
    // Recompute merkle root to keep PoW valid
    let txids: Vec<Hash256> = block
        .transactions
        .iter()
        .map(|tx| tx.txid().unwrap())
        .collect();
    block.header.merkle_root = merkle_root(&txids);

    assert_eq!(
        engine.validate_block(&block).unwrap_err(),
        BlockError::InvalidPrevHash
    );
}

#[test]
fn validate_rejects_timestamp_before_parent() {
    let cs = MockChainState::with_genesis();
    let tip_ts = cs.headers.last().unwrap().timestamp;
    let current_time = tip_ts + BLOCK_TIME_SECS;
    let engine = make_engine_at_time(cs, current_time);

    let pkh = Hash256([0xBB; 32]);
    // Build a valid template, then force its timestamp to equal the parent's.
    let mut block = engine
        .create_block_template(&pkh, tip_ts + BLOCK_TIME_SECS)
        .unwrap();
    block.header.timestamp = tip_ts; // same as parent (not after)
    // Fix merkle root
    let txids: Vec<Hash256> = block
        .transactions
        .iter()
        .map(|tx| tx.txid().unwrap())
        .collect();
    block.header.merkle_root = merkle_root(&txids);

    assert_eq!(
        engine.validate_block(&block).unwrap_err(),
        BlockError::TimestampNotAfterParent
    );
}

#[test]
fn validate_rejects_excess_reward() {
    let cs = MockChainState::with_genesis();
    let tip_ts = cs.headers.last().unwrap().timestamp;
    let current_time = tip_ts + BLOCK_TIME_SECS;
    let pool = cs.pool;
    let engine = make_engine_at_time(cs, current_time);

    let pool_release = pool * DECAY_POOL_RELEASE_BPS / BPS_PRECISION;
    let max_reward = INITIAL_REWARD + pool_release;

    // Create a block claiming more than allowed
    let prev_hash = genesis_hash();
    let coinbase = Transaction {
        version: 1,
        inputs: vec![TxInput {
            previous_output: OutPoint::null(),
            signature: 1u64.to_le_bytes().to_vec(),
            public_key: vec![],
        }],
        outputs: vec![TxOutput {
            value: max_reward + 1,
            pubkey_hash: Hash256([0xBB; 32]),
        }],
        lock_time: 0,
    };
    let txid = coinbase.txid().unwrap();
    let mr = merkle_root(&[txid]);
    let block = Block {
        header: BlockHeader {
            version: 1,
            prev_hash,
            merkle_root: mr,
            timestamp: tip_ts + BLOCK_TIME_SECS,
            difficulty_target: u64::MAX,
            nonce: 0,
        },
        transactions: vec![coinbase],
    };

    assert!(matches!(
        engine.validate_block(&block).unwrap_err(),
        BlockError::InvalidReward { .. }
    ));
}

#[test]
fn validate_accepts_partial_reward() {
    let cs = MockChainState::with_genesis();
    let tip_ts = cs.headers.last().unwrap().timestamp;
    let current_time = tip_ts + BLOCK_TIME_SECS;
    let engine = make_engine_at_time(cs, current_time);

    // Claim only 1 rill (well below max)
    let prev_hash = genesis_hash();
    let coinbase = Transaction {
        version: 1,
        inputs: vec![TxInput {
            previous_output: OutPoint::null(),
            signature: 1u64.to_le_bytes().to_vec(),
            public_key: vec![],
        }],
        outputs: vec![TxOutput {
            value: 1,
            pubkey_hash: Hash256([0xBB; 32]),
        }],
        lock_time: 0,
    };
    let txid = coinbase.txid().unwrap();
    let mr = merkle_root(&[txid]);
    let block = Block {
        header: BlockHeader {
            version: 1,
            prev_hash,
            merkle_root: mr,
            timestamp: tip_ts + BLOCK_TIME_SECS,
            difficulty_target: u64::MAX,
            nonce: 0,
        },
        transactions: vec![coinbase],
    };

    assert!(engine.validate_block(&block).is_ok());
}

// ======================================================================
// mine_block
// ======================================================================

#[test]
fn mine_with_easy_difficulty() {
    let cs = MockChainState::with_genesis();
    let engine = make_engine(cs);
    let pkh = Hash256([0xBB; 32]);
    let ts = GENESIS_TIMESTAMP + BLOCK_TIME_SECS;
    let mut block = engine.create_block_template(&pkh, ts).unwrap();

    // u64::MAX difficulty: any nonce works
    assert!(mine_block(&mut block, 0));
    assert_eq!(block.header.nonce, 0);
}

#[test]
fn mine_fails_with_impossible_difficulty() {
    let cs = MockChainState::with_genesis();
    let engine = make_engine(cs);
    let pkh = Hash256([0xBB; 32]);
    let ts = GENESIS_TIMESTAMP + BLOCK_TIME_SECS;
    let mut block = engine.create_block_template(&pkh, ts).unwrap();

    // Set difficulty to 0: practically impossible
    block.header.difficulty_target = 0;
    assert!(!mine_block(&mut block, 1000));
}

#[test]
fn mine_sets_correct_nonce() {
    let cs = MockChainState::with_genesis();
    let engine = make_engine(cs);
    let pkh = Hash256([0xBB; 32]);
    let ts = GENESIS_TIMESTAMP + BLOCK_TIME_SECS;
    let mut block = engine.create_block_template(&pkh, ts).unwrap();

    assert!(mine_block(&mut block, u64::MAX));
    // After mining, block should pass PoW check
    assert!(check_pow(&block));
}

// ======================================================================
// Integration: template → mine → validate
// ======================================================================

#[test]
fn full_cycle_template_mine_validate() {
    let cs = MockChainState::with_genesis();
    let tip_ts = cs.headers.last().unwrap().timestamp;
    let current_time = tip_ts + BLOCK_TIME_SECS;
    let engine = make_engine_at_time(cs, current_time);

    let pkh = Hash256([0xBB; 32]);
    let mut block = engine
        .create_block_template(&pkh, tip_ts + BLOCK_TIME_SECS)
        .unwrap();

    assert!(mine_block(&mut block, u64::MAX));
    assert!(engine.validate_block(&block).is_ok());
}

#[test]
fn full_cycle_multi_block() {
    let mut cs = MockChainState::with_genesis();
    let base_ts = GENESIS_TIMESTAMP;

    // Add a few blocks
    for i in 1..=5 {
        cs.add_block(base_ts + i * BLOCK_TIME_SECS, u64::MAX);
    }

    let tip_ts = cs.headers.last().unwrap().timestamp;
    let current_time = tip_ts + BLOCK_TIME_SECS;
    let engine = make_engine_at_time(cs, current_time);

    let pkh = Hash256([0xCC; 32]);
    let mut block = engine
        .create_block_template(&pkh, tip_ts + BLOCK_TIME_SECS)
        .unwrap();

    assert!(mine_block(&mut block, u64::MAX));
    assert!(engine.validate_block(&block).is_ok());
}

// ======================================================================
// total_reward
// ======================================================================

#[test]
fn total_reward_includes_pool_release() {
    let cs = MockChainState::with_genesis();
    let pool = cs.pool;
    let engine = make_engine(cs);

    let total = engine.total_reward(1).unwrap();
    let expected_pool_release = pool * DECAY_POOL_RELEASE_BPS / BPS_PRECISION;
    assert_eq!(total, INITIAL_REWARD + expected_pool_release);
}

#[test]
fn total_reward_zero_pool() {
    let mut cs = MockChainState::with_genesis();
    cs.pool = 0;
    let engine = make_engine(cs);

    let total = engine.total_reward(1).unwrap();
    assert_eq!(total, INITIAL_REWARD);
}

// ======================================================================
// Object safety
// ======================================================================

#[test]
fn engine_is_object_safe() {
    let cs = MockChainState::with_genesis();
    let engine = make_engine(cs);
    let dyn_bp: &dyn BlockProducer = &engine;
    assert_eq!(dyn_bp.block_reward(0), INITIAL_REWARD);
}

// ======================================================================
// Verified building blocks
// ======================================================================

fn spend(op: OutPoint, value: u64) -> Transaction {
    Transaction {
        version: 1,
        inputs: vec![TxInput { previous_output: op, signature: vec![0; 64], public_key: vec![0; 32] }],
        outputs: vec![TxOutput { value, pubkey_hash: Hash256([0x11; 32]) }],
        lock_time: 0,
    }
}

fn utxo(value: u64, height: u64, is_coinbase: bool) -> UtxoEntry {
    UtxoEntry {
        output: TxOutput { value, pubkey_hash: Hash256([0x22; 32]) },
        block_height: height,
        is_coinbase,
        cluster_id: Hash256::zero(),
    }
}

#[test]
fn reward_with_release_adds_pool_release() {
    assert_eq!(reward_with_release(1, Ok(5)), INITIAL_REWARD + 5);
    assert_eq!(reward_with_release(1, Err(DecayError::ArithmeticOverflow)), INITIAL_REWARD);
    assert_eq!(reward_with_release(1, Ok(u64::MAX)), u64::MAX);
}

#[test]
fn select_pending_filters_and_sums_fees() {
    let a = OutPoint { txid: Hash256([1; 32]), index: 0 };
    let b = OutPoint { txid: Hash256([2; 32]), index: 0 };
    let c = OutPoint { txid: Hash256([3; 32]), index: 0 };
    let immature = OutPoint { txid: Hash256([4; 32]), index: 0 };
    let lookup = |op: &OutPoint| -> Option<UtxoEntry> {
        if *op == a {
            Some(utxo(100, 1, false))
        } else if *op == b {
            Some(utxo(50, 1, false))
        } else if *op == immature {
            Some(utxo(50, 90, true))
        } else {
            None
        }
    };
    let pending = vec![
        spend(a, 90),        // fee 10
        spend(a, 80),        // double spend of a: skipped
        spend(c, 1),         // unknown UTXO: skipped
        spend(b, 60),        // outputs above inputs: skipped
        spend(immature, 10), // immature coinbase at height 100: skipped
        spend(b, 45),        // fee 5
    ];
    let (included, fees) = select_pending(&pending, 100, &lookup);
    assert_eq!(included.len(), 2);
    assert_eq!(included[0], pending[0]);
    assert_eq!(included[1], pending[5]);
    assert_eq!(fees, 15);
}

#[test]
fn assemble_template_rejects_reward_overflow() {
    let r = assemble_template(&Hash256([9; 32]), 10, Hash256::zero(), 1, 5, 7, u64::MAX, 1, vec![]);
    assert_eq!(r, Err(BlockError::InvalidReward { got: u64::MAX, expected: u64::MAX }));
}

#[test]
fn assemble_template_builds_coinbase_and_header() {
    let pkh = Hash256([9; 32]);
    let extra = spend(OutPoint { txid: Hash256([1; 32]), index: 0 }, 3);
    let block = assemble_template(&pkh, 10, Hash256([7; 32]), 258, 20, 99, 50, 4, vec![extra.clone()])
        .unwrap();
    assert_eq!(block.header.timestamp, 21);
    assert_eq!(block.header.prev_hash, Hash256([7; 32]));
    assert_eq!(block.header.difficulty_target, 99);
    assert_eq!(block.header.nonce, 0);
    assert_eq!(block.transactions.len(), 2);
    let cb = &block.transactions[0];
    assert!(cb.is_coinbase());
    assert_eq!(cb.outputs[0].value, 54);
    assert_eq!(cb.outputs[0].pubkey_hash, pkh);
    assert_eq!(cb.inputs[0].signature, 258u64.to_le_bytes().to_vec());
    assert_eq!(cb.lock_time, 258);
    assert_eq!(block.transactions[1], extra);
    let txids: Vec<Hash256> = block.transactions.iter().map(|t| t.txid().unwrap()).collect();
    assert_eq!(block.header.merkle_root, merkle_root(&txids));
}

#[test]
fn mine_block_reports_first_nonce() {
    let mut block = genesis_block();
    block.header.difficulty_target = u64::MAX;
    block.header.nonce = 77;
    assert!(mine_block(&mut block, 10));
    assert_eq!(block.header.nonce, 0);
    let mut hard = genesis_block();
    hard.header.difficulty_target = 0;
    assert!(!mine_block(&mut hard, 5));
    assert_eq!(hard.header.nonce, 5);
}

#[test]
fn max_target_passes_at_nonce_zero() {
    let mut block = genesis_block();
    block.header.difficulty_target = u64::MAX;
    block.header.nonce = 77;
    assert!(check_pow(&block));
    assert!(mine_block(&mut block, 0));
    assert_eq!(block.header.nonce, 0);
}
