//! Trait interfaces for the Rill protocol.
//!
//! - [`ChainState`]: read-only blockchain state (implemented by the node)
//! - [`DecayCalculator`]: decay math engine
//! - [`BlockProducer`]: block creation and validation
//! - [`NetworkService`]: P2P networking
//!
//! These traits are for implementors outside this crate; their required
//! methods promise nothing, and code here that calls them is verified for
//! every value they may return. A provided method is stated over what the
//! required method it is built from may return.

use vstd::prelude::*;

use crate::error::{BlockError, DecayError, NetworkError, RillError, TransactionError};
use crate::types::{Block, BlockHeader, Hash256, OutPoint, Transaction, UtxoEntry};

verus! {

/// Read-only view of the blockchain state.
pub trait ChainState: Send + Sync {
    /// Look up a UTXO by outpoint. Returns `None` if spent or unknown.
    fn get_utxo(&self, outpoint: &OutPoint) -> Result<Option<UtxoEntry>, RillError>;

    /// Check whether a UTXO exists and is unspent: `get_utxo`'s answer is
    /// `Some`, or its error.
    fn contains_utxo(&self, outpoint: &OutPoint) -> (r: Result<bool, RillError>)
        ensures
            exists|u: Result<Option<UtxoEntry>, RillError>|
                call_ensures(Self::get_utxo, (self, outpoint), u) && r == match u {
                    Ok(o) => Ok::<bool, RillError>(o is Some),
                    Err(e) => Err::<bool, RillError>(e),
                },
    {
        match self.get_utxo(outpoint) {
            Ok(u) => Ok(u.is_some()),
            Err(e) => Err(e),
        }
    }

    /// Current chain tip as `(height, block_hash)`.
    fn chain_tip(&self) -> Result<(u64, Hash256), RillError>;

    /// Get a block header by its hash.
    fn get_block_header(&self, hash: &Hash256) -> Result<Option<BlockHeader>, RillError>;

    /// Get a full block by its hash.
    fn get_block(&self, hash: &Hash256) -> Result<Option<Block>, RillError>;

    /// Get the block hash at a given height.
    fn get_block_hash(&self, height: u64) -> Result<Option<Hash256>, RillError>;

    /// Total circulating supply in rills.
    fn circulating_supply(&self) -> Result<u64, RillError>;

    /// Total balance of a decay-tracking cluster in rills.
    fn cluster_balance(&self, cluster_id: &Hash256) -> Result<u64, RillError>;

    /// Current balance of the decay pool in rills.
    fn decay_pool_balance(&self) -> Result<u64, RillError>;

    /// Validate a transaction against the current UTXO set and consensus rules.
    fn validate_transaction(&self, tx: &Transaction) -> Result<(), TransactionError>;

    /// All UTXOs; none unless the implementor provides them.
    fn iter_utxos(&self) -> (r: Result<Vec<(OutPoint, UtxoEntry)>, RillError>)
        default_ensures
            r matches Ok(v) && v@.len() == 0,
    {
        Ok(Vec::new())
    }
}

/// Pure computation of decay rates and effective values.
pub trait DecayCalculator: Send + Sync {
    /// Per-block decay rate for a given concentration, in parts-per-billion.
    fn decay_rate_ppb(&self, concentration_ppb: u64) -> Result<u64, DecayError>;

    /// Total decay amount for a nominal value held at a given concentration.
    fn compute_decay(
        &self,
        nominal_value: u64,
        concentration_ppb: u64,
        blocks_held: u64,
    ) -> Result<u64, DecayError>;

    /// Effective (post-decay) value: `nominal_value - compute_decay(..)`,
    /// an arithmetic error when the decay exceeds the nominal value.
    fn effective_value(&self, nominal_value: u64, concentration_ppb: u64, blocks_held: u64) -> (r:
        Result<u64, DecayError>)
        ensures
            exists|d: Result<u64, DecayError>|
                call_ensures(
                    Self::compute_decay,
                    (self, nominal_value, concentration_ppb, blocks_held),
                    d,
                ) && r == match d {
                    Ok(v) => if v <= nominal_value {
                        Ok::<u64, DecayError>((nominal_value - v) as u64)
                    } else {
                        Err::<u64, DecayError>(DecayError::ArithmeticOverflow)
                    },
                    Err(e) => Err::<u64, DecayError>(e),
                },
    {
        match self.compute_decay(nominal_value, concentration_ppb, blocks_held) {
            Ok(decay) => {
                if decay <= nominal_value {
                    Ok(nominal_value - decay)
                } else {
                    Err(DecayError::ArithmeticOverflow)
                }
            },
            Err(e) => Err(e),
        }
    }

    /// Amount released from the decay pool to miners for the next block.
    fn decay_pool_release(&self, pool_balance: u64) -> Result<u64, DecayError>;
}

/// Block creation, validation, and reward computation.
pub trait BlockProducer: Send + Sync {
    /// Create a block template with a coinbase paying `coinbase_pubkey_hash`.
    fn create_block_template(&self, coinbase_pubkey_hash: &Hash256, timestamp: u64) -> Result<
        Block,
        BlockError,
    >;

    /// Validate a complete block.
    fn validate_block(&self, block: &Block) -> Result<(), BlockError>;

    /// The base mining reward for a given block height.
    fn block_reward(&self, height: u64) -> u64;

    /// The difficulty target for a given block height.
    fn difficulty_target(&self, height: u64) -> Result<u64, BlockError>;

    /// Validate proof-of-work of a header.
    fn validate_pow(&self, header: &BlockHeader) -> Result<(), BlockError>;
}

/// P2P network operations.
pub trait NetworkService: Send + Sync {
    /// Broadcast a validated block to all connected peers.
    fn broadcast_block(&self, block: &Block) -> Result<(), NetworkError>;

    /// Broadcast a validated transaction to all connected peers.
    fn broadcast_transaction(&self, tx: &Transaction) -> Result<(), NetworkError>;

    /// Number of currently connected peers.
    fn peer_count(&self) -> usize;

    /// Whether the node has at least one connected peer.
    fn is_connected(&self) -> (r: bool)
        ensures
            exists|n: usize| call_ensures(Self::peer_count, (self,), n) && r == (n > 0),
    {
        self.peer_count() > 0
    }

    /// Request a specific block from peers by hash.
    fn request_block(&self, hash: &Hash256) -> Result<(), NetworkError>;

    /// Request block headers starting from the given locator hashes.
    fn request_headers(&self, locator: &[Hash256]) -> Result<(), NetworkError>;
}

} // verus!
