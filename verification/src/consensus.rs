//! Consensus rules beyond single-block validation: checkpoints, the RandomX
//! key schedule and the consensus engine.

pub mod checkpoint;
pub mod randomx;
pub mod engine;
