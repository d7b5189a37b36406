//! Progressive concentration decay.
//!
//! All calculations use integer arithmetic only:
//! - sigmoid-based decay rates from a fixed-point lookup table,
//! - compound decay over many blocks by fixed-point binary exponentiation,
//! - piecewise linear weakening of UTXO lineage,
//! - a decay pool releasing 1% per block to miners.

pub mod engine;
pub mod lineage;
pub mod sigmoid;
