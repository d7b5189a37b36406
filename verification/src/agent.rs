//! Proof of Conduct agent wallet types.
//!
//! Agent wallets take part in conduct scoring, which adjusts their decay
//! multiplier according to on-chain behaviour.

use vstd::prelude::*;

use crate::types::{Hash256, WalletType};

verus! {

/// Persistent state of a registered agent wallet, keyed by `pubkey_hash`.
#[derive(Debug, Clone, Copy, PartialEq, Eq)]
pub struct AgentWalletState {
    /// BLAKE3 hash of the agent's Ed25519 public key.
    pub pubkey_hash: Hash256,
    /// Block height at which the agent was registered.
    pub registered_at_block: u64,
    /// Staked balance locked during registration.
    pub stake_balance: u64,
    /// Block height until which the stake is locked.
    pub stake_locked_until: u64,
    /// Current conduct score (0–1000).
    pub conduct_score: u16,
    /// Current decay multiplier in basis points (10,000 = 1.0×).
    pub conduct_multiplier_bps: u64,
    /// Whether the Undertow penalty is active.
    pub undertow_active: bool,
    /// Block height at which the Undertow penalty expires.
    pub undertow_expires_at: u64,
}

/// Summary of an agent's conduct profile, as served to clients.
#[derive(Debug, Clone, Copy, PartialEq, Eq)]
pub struct ConductProfile {
    /// BLAKE3 hash of the agent's Ed25519 public key.
    pub pubkey_hash: Hash256,
    /// Whether this is a Standard or Agent wallet.
    pub wallet_type: WalletType,
    /// Current conduct score (0–1000).
    pub conduct_score: u16,
    /// Current decay multiplier in basis points (10,000 = 1.0×).
    pub conduct_multiplier_bps: u64,
    /// Effective decay rate in parts-per-billion at current concentration.
    pub effective_decay_rate_ppb: u64,
    /// Whether the Undertow penalty is active.
    pub undertow_active: bool,
    /// Block height at which the agent was registered.
    pub registered_at_block: u64,
    /// Number of blocks since registration.
    pub wallet_age_blocks: u64,
}

} // verus!
