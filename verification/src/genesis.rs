//! Genesis block definition for the Rill network.
//!
//! The genesis block (height 0) holds a single coinbase transaction paying
//! the dev fund premine (5% of the mining supply). Every node computes the
//! identical block.

use vstd::prelude::*;

use crate::constants::{BPS_PRECISION, DEV_FUND_BPS, MAX_SUPPLY};
use crate::hashing::{blake3_digest, blake3_hash, sha256_digest};
use crate::merkle::{hv, merkle_root, merkle_root_spec};
use crate::types::{
    header_layout, le_bytes, spec_header_hash, spec_txid, zero_bytes, Block, BlockHeader, Hash256,
    InputModel, OutPoint, OutPointModel, OutputModel, Transaction, TxInput, TxModel, TxOutput,
};

verus! {

/// Genesis block timestamp: January 1, 2026 00:00:00 UTC.
pub const GENESIS_TIMESTAMP: u64 = 1_767_225_600;

/// Message embedded in the genesis coinbase:
/// "Wealth should flow like water. Rill genesis 2026."
pub const GENESIS_MESSAGE: [u8; 49] = [
    87, 101, 97, 108, 116, 104, 32, 115, 104, 111, 117, 108, 100, 32, 102, 108, 111, 119, 32, 108,
    105, 107, 101, 32, 119, 97, 116, 101, 114, 46, 32, 82, 105, 108, 108, 32, 103, 101, 110, 101,
    115, 105, 115, 32, 50, 48, 50, 54, 46,
];

/// The bytes whose BLAKE3 digest is the dev fund pubkey hash:
/// "rill genesis dev fund".
pub const DEV_FUND_SEED: [u8; 21] = [
    114, 105, 108, 108, 32, 103, 101, 110, 101, 115, 105, 115, 32, 100, 101, 118, 32, 102, 117,
    110, 100,
];

/// Dev fund premine: 5% of MAX_SUPPLY (1,050,000 RILL).
pub const DEV_FUND_PREMINE: u64 = MAX_SUPPLY / BPS_PRECISION * DEV_FUND_BPS;

/// The dev fund pubkey hash, `BLAKE3("rill genesis dev fund")`.
pub fn dev_fund_pubkey_hash() -> (r: Hash256)
    ensures
        r@ == blake3_digest(DEV_FUND_SEED@),
{
    Hash256(blake3_hash(DEV_FUND_SEED.as_slice()))
}

/// The genesis coinbase: version 1, one input spending the null outpoint
/// that carries the genesis message, one output paying the premine to the
/// dev fund, lock time 0.
pub open spec fn genesis_coinbase_spec() -> TxModel {
    TxModel {
        version: 1,
        inputs: seq![
            InputModel {
                previous_output: OutPointModel { txid: zero_bytes(), index: u64::MAX },
                signature: GENESIS_MESSAGE@,
                public_key: Seq::empty(),
            },
        ],
        outputs: seq![
            OutputModel { value: DEV_FUND_PREMINE, pubkey_hash: blake3_digest(DEV_FUND_SEED@) },
        ],
        lock_time: 0,
    }
}

/// The 96 header bytes of the genesis block: version 1, zero parent, the
/// Merkle root of the coinbase txid, the genesis timestamp, the easiest
/// target and nonce 0.
pub open spec fn genesis_header_layout() -> Seq<u8> {
    le_bytes(1, 8) + zero_bytes() + merkle_root_spec(seq![spec_txid(genesis_coinbase_spec())])
        + le_bytes(GENESIS_TIMESTAMP, 8) + le_bytes(u64::MAX, 8) + le_bytes(0, 8)
}

/// The genesis header hash.
pub open spec fn spec_genesis_hash() -> Seq<u8> {
    sha256_digest(sha256_digest(genesis_header_layout()))
}

/// Build the genesis coinbase transaction.
pub fn build_genesis_coinbase() -> (r: Transaction)
    ensures
        r@ == genesis_coinbase_spec(),
{
    let mut message: Vec<u8> = Vec::new();
    let mut i: usize = 0;
    while i < 49
        invariant
            i <= 49,
            message@ == GENESIS_MESSAGE@.subrange(0, i as int),
        decreases 49 - i,
    {
        message.push(GENESIS_MESSAGE[i]);
        i = i + 1;
        assert(message@ =~= GENESIS_MESSAGE@.subrange(0, i as int));
    }
    assert(GENESIS_MESSAGE@.subrange(0, 49) =~= GENESIS_MESSAGE@);
    let mut inputs: Vec<TxInput> = Vec::new();
    inputs.push(TxInput { previous_output: OutPoint::null(), signature: message, public_key: Vec::new() });
    let mut outputs: Vec<TxOutput> = Vec::new();
    outputs.push(TxOutput { value: DEV_FUND_PREMINE, pubkey_hash: dev_fund_pubkey_hash() });
    let r = Transaction { version: 1, inputs, outputs, lock_time: 0 };
    assert(r@.inputs =~= genesis_coinbase_spec().inputs);
    assert(r@.outputs =~= genesis_coinbase_spec().outputs);
    r
}

/// The genesis block (height 0).
pub fn genesis_block() -> (r: Block)
    ensures
        r@.transactions == seq![genesis_coinbase_spec()],
        r.transactions@.len() == 1,
        r.transactions@[0]@ == genesis_coinbase_spec(),
        r.header.version == 1,
        r.header.prev_hash@ == zero_bytes(),
        r.header.merkle_root@ == merkle_root_spec(seq![spec_txid(genesis_coinbase_spec())]),
        r.header.timestamp == GENESIS_TIMESTAMP,
        r.header.difficulty_target == u64::MAX,
        r.header.nonce == 0,
        header_layout(r.header) == genesis_header_layout(),
{
    let coinbase = build_genesis_coinbase();
    let coinbase_txid = coinbase.txid().unwrap();
    let mut ids: Vec<Hash256> = Vec::new();
    ids.push(coinbase_txid);
    assert(hv(ids@) =~= seq![spec_txid(coinbase@)]);
    let mr = merkle_root(ids.as_slice());
    let mut transactions: Vec<Transaction> = Vec::new();
    transactions.push(coinbase);
    let r = Block {
        header: BlockHeader {
            version: 1,
            prev_hash: Hash256::zero(),
            merkle_root: mr,
            timestamp: GENESIS_TIMESTAMP,
            difficulty_target: u64::MAX,
            nonce: 0,
        },
        transactions,
    };
    assert(r@.transactions =~= seq![genesis_coinbase_spec()]);
    r
}

/// The genesis block header hash.
pub fn genesis_hash() -> (r: Hash256)
    ensures
        r@ == spec_genesis_hash(),
{
    let b = genesis_block();
    b.header.hash()
}

/// The transaction ID of the genesis coinbase.
pub fn genesis_coinbase_txid() -> (r: Hash256)
    ensures
        r@ == spec_txid(genesis_coinbase_spec()),
{
    let b = genesis_block();
    let tx = &b.transactions[0];
    match tx.txid() {
        Ok(h) => h,
        Err(_) => Hash256::zero(),
    }
}

/// Check whether a block is the genesis block by comparing header hashes.
pub fn is_genesis(block: &Block) -> (r: bool)
    ensures
        r == (spec_header_hash(block.header) == spec_genesis_hash()),
{
    let h = block.header.hash();
    let g = genesis_hash();
    h == g
}

} // verus!
