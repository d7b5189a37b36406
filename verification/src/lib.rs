//! Rill: a cryptocurrency with progressive concentration decay.
//!
//! All consensus arithmetic is integer-only. Every function in this crate is
//! verified against its contract, apart from the trusted wrappers around
//! outside code in `crypto`, `hashing`, `hexcode`, `types` and the system
//! clock reader of `consensus::engine`.

pub mod address;
pub mod agent;
pub mod arith;
pub mod block_validation;
pub mod chain_state;
pub mod cli;
pub mod cluster;
pub mod codec;
pub mod conduct;
pub mod consensus;
pub mod crypto;
pub mod constants;
pub mod decay;
pub mod difficulty;
pub mod error;
pub mod explorer;
pub mod faucet;
pub mod genesis;
pub mod hashing;
pub mod hexcode;
pub mod keyed;
pub mod mempool;
pub mod payments;
pub mod merkle;
pub mod miner;
pub mod reward;
pub mod text;
pub mod traits;
pub mod types;
pub mod validation;

