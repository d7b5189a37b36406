//! The RandomX key schedule.
//!
//! The RandomX VM is seeded by the hash of a key block; the key rotates every
//! `RANDOMX_KEY_BLOCK_INTERVAL` blocks.

use vstd::prelude::*;

use crate::constants::RANDOMX_KEY_BLOCK_INTERVAL;

verus! {

/// The key block height for a block height: the height rounded down to a
/// multiple of the key interval (genesis for the first interval).
pub fn key_block_height(height: u64) -> (r: u64)
    ensures
        r == height / RANDOMX_KEY_BLOCK_INTERVAL * RANDOMX_KEY_BLOCK_INTERVAL,
        r <= height,
        height - r < RANDOMX_KEY_BLOCK_INTERVAL,
        r % RANDOMX_KEY_BLOCK_INTERVAL == 0,
{
    proof {
        vstd::arithmetic::div_mod::lemma_fundamental_div_mod(height as int, RANDOMX_KEY_BLOCK_INTERVAL as int);
        vstd::arithmetic::div_mod::lemma_mod_multiples_basic(
            height as int / RANDOMX_KEY_BLOCK_INTERVAL as int,
            RANDOMX_KEY_BLOCK_INTERVAL as int,
        );
    }
    (height / RANDOMX_KEY_BLOCK_INTERVAL) * RANDOMX_KEY_BLOCK_INTERVAL
}

/// Blocks in the same key interval share one key block; the key block of a
/// key block is itself.
pub proof fn lemma_key_block_idempotent(height: u64)
    ensures
        (height / RANDOMX_KEY_BLOCK_INTERVAL * RANDOMX_KEY_BLOCK_INTERVAL) as u64
            / RANDOMX_KEY_BLOCK_INTERVAL * RANDOMX_KEY_BLOCK_INTERVAL == height
            / RANDOMX_KEY_BLOCK_INTERVAL * RANDOMX_KEY_BLOCK_INTERVAL,
{
    let q = height as int / RANDOMX_KEY_BLOCK_INTERVAL as int;
    vstd::arithmetic::div_mod::lemma_fundamental_div_mod(height as int, RANDOMX_KEY_BLOCK_INTERVAL as int);
    vstd::arithmetic::div_mod::lemma_div_multiples_vanish(q, RANDOMX_KEY_BLOCK_INTERVAL as int);
}

} // verus!
