//! Reward schedule and halving logic.
//!
//! The base reward starts at `INITIAL_REWARD` (50 RILL) and halves every
//! `HALVING_INTERVAL` (210,000) blocks; epochs 33 and later pay nothing.

use vstd::prelude::*;

use crate::arith::sat_mul_u64;
use crate::constants::{HALVING_INTERVAL, INITIAL_REWARD, MAX_SUPPLY, COIN};

verus! {

/// The reward of halving epoch `epoch`: `INITIAL_REWARD >> epoch`, and 0 once
/// the shift would reach the width of a `u64`.
pub open spec fn spec_epoch_reward(epoch: u64) -> u64 {
    if epoch >= 64 {
        0
    } else {
        INITIAL_REWARD >> epoch
    }
}

/// The base mining reward of the block at `height`.
pub open spec fn spec_block_reward(height: u64) -> u64 {
    spec_epoch_reward(height / HALVING_INTERVAL)
}

/// Sum of the schedule rewards of the heights `0..n`.
pub open spec fn reward_sum(n: nat) -> nat
    decreases n,
{
    if n == 0 {
        0
    } else {
        reward_sum((n - 1) as nat) + spec_block_reward((n - 1) as u64) as nat
    }
}

/// Sum over the epochs `0..n` of a full epoch's rewards.
pub open spec fn epoch_reward_sum(n: nat) -> nat
    decreases n,
{
    if n == 0 {
        0
    } else {
        epoch_reward_sum((n - 1) as nat) + (spec_epoch_reward((n - 1) as u64) as nat) * (HALVING_INTERVAL as nat)
    }
}

/// Facts about the shifted reward that the bit-vector solver establishes.
pub proof fn lemma_epoch_reward_facts(e: u64)
    ensures
        e <= 32 ==> spec_epoch_reward(e) >= 1,
        e >= 33 ==> spec_epoch_reward(e) == 0,
        spec_epoch_reward(e) <= INITIAL_REWARD,
        e == 32 ==> spec_epoch_reward(e) == 1,
{
    if e < 64 {
        assert(e <= 32 ==> (5_000_000_000u64 >> e) >= 1) by (bit_vector);
        assert(33 <= e < 64 ==> (5_000_000_000u64 >> e) == 0) by (bit_vector);
        assert(e < 64 ==> (5_000_000_000u64 >> e) <= 5_000_000_000u64) by (bit_vector);
        assert(e == 32 ==> (5_000_000_000u64 >> e) == 1) by (bit_vector);
    }
}

/// Each epoch pays exactly half (rounded down) of the previous epoch.
pub proof fn lemma_epoch_reward_halves(e: u64)
    requires
        e < u64::MAX,
    ensures
        spec_epoch_reward((e + 1) as u64) == spec_epoch_reward(e) / 2,
{
    if e + 1 < 64 {
        assert(e + 1 < 64 ==> (5_000_000_000u64 >> ((e + 1) as u64)) == (5_000_000_000u64 >> e) / 2)
            by (bit_vector);
    } else if e == 63 {
        assert((5_000_000_000u64 >> 63u64) == 0) by (bit_vector);
    }
}

/// Later epochs never pay more than earlier ones.
pub proof fn lemma_epoch_reward_nonincreasing(e1: u64, e2: u64)
    requires
        e1 <= e2,
    ensures
        spec_epoch_reward(e2) <= spec_epoch_reward(e1),
{
    if e2 < 64 {
        assert(e1 <= e2 && e2 < 64 ==> (5_000_000_000u64 >> e2) <= (5_000_000_000u64 >> e1))
            by (bit_vector);
    }
}

/// The block reward never increases with the height.
pub proof fn lemma_block_reward_nonincreasing(h1: u64, h2: u64)
    requires
        h1 <= h2,
    ensures
        spec_block_reward(h2) <= spec_block_reward(h1),
{
    lemma_div_monotone(h1, h2);
    lemma_epoch_reward_nonincreasing(h1 / HALVING_INTERVAL, h2 / HALVING_INTERVAL);
}

proof fn lemma_div_monotone(a: u64, b: u64)
    requires
        a <= b,
    ensures
        a / HALVING_INTERVAL <= b / HALVING_INTERVAL,
{
    vstd::arithmetic::div_mod::lemma_div_is_ordered(a as int, b as int, HALVING_INTERVAL as int);
}

/// Heights inside epoch `e` all lie in that epoch.
proof fn lemma_height_in_epoch(h: int, e: int)
    requires
        e * HALVING_INTERVAL <= h < (e + 1) * HALVING_INTERVAL,
        0 <= e,
    ensures
        h / HALVING_INTERVAL as int == e,
{
    vstd::arithmetic::div_mod::lemma_fundamental_div_mod(h, HALVING_INTERVAL as int);
    vstd::arithmetic::div_mod::lemma_mod_bound(h, HALVING_INTERVAL as int);
    let q = h / HALVING_INTERVAL as int;
    assert(q == e) by (nonlinear_arith)
        requires
            h == 210000 * q + h % 210000,
            0 <= h % 210000 < 210000,
            e * 210000 <= h < (e + 1) * 210000,
    ;
}

/// Summing a run of heights that all pay `r` adds `k * r`.
proof fn lemma_reward_sum_run(start: nat, k: nat, r: nat)
    requires
        start + k <= u64::MAX + 1,
        forall|h: u64| start <= h < start + k ==> #[trigger] spec_block_reward(h) == r,
    ensures
        reward_sum(start + k) == reward_sum(start) + k * r,
    decreases k,
{
    if k > 0 {
        lemma_reward_sum_run(start, (k - 1) as nat, r);
        assert(start + (k - 1) as nat == (start + k - 1) as nat);
        assert(spec_block_reward((start + k - 1) as u64) == r);
        assert(reward_sum(start + k) == reward_sum((start + k - 1) as nat) + r);
        let km1 = (k - 1) as nat;
        assert(km1 * r + r == k * r) by (nonlinear_arith)
            requires
                km1 + 1 == k,
        ;
        assert(reward_sum(start + km1) == reward_sum(start) + km1 * r);
        assert(reward_sum(start + k) == reward_sum(start + km1) + r);
    } else {
        assert(k * r == 0) by (nonlinear_arith)
            requires
                k == 0,
        ;
    }
}

/// Summing the heights of epoch `e` (or a prefix of it) adds the epoch reward per block.
proof fn lemma_reward_sum_epoch_part(e: u64, k: nat)
    requires
        k <= HALVING_INTERVAL,
        e <= 40,
    ensures
        reward_sum((e * HALVING_INTERVAL + k) as nat) == reward_sum((e * HALVING_INTERVAL) as nat) + k
            * spec_epoch_reward(e),
{
    let start = (e * HALVING_INTERVAL) as nat;
    assert forall|h: u64| start <= h < start + k implies #[trigger] spec_block_reward(h)
        == spec_epoch_reward(e) by {
        lemma_height_in_epoch(h as int, e as int);
    }
    lemma_reward_sum_run(start, k, spec_epoch_reward(e) as nat);
}

/// The rewards of whole epochs add up to the epoch sum.
proof fn lemma_reward_sum_epochs(n: u64)
    requires
        n <= 40,
    ensures
        reward_sum((n * HALVING_INTERVAL) as nat) == epoch_reward_sum(n as nat),
    decreases n,
{
    if n > 0 {
        lemma_reward_sum_epochs((n - 1) as u64);
        lemma_reward_sum_epoch_part((n - 1) as u64, HALVING_INTERVAL as nat);
        assert(spec_epoch_reward((n - 1) as u64) * HALVING_INTERVAL == HALVING_INTERVAL
            * spec_epoch_reward((n - 1) as u64)) by (nonlinear_arith);
    }
}

/// Epoch sums only grow, and stay below `n` full first epochs.
proof fn lemma_epoch_reward_sum_bound(n: nat)
    ensures
        epoch_reward_sum(n) <= n * (INITIAL_REWARD * HALVING_INTERVAL),
    decreases n,
{
    if n > 0 {
        lemma_epoch_reward_sum_bound((n - 1) as nat);
        lemma_epoch_reward_facts((n - 1) as u64);
        assert(spec_epoch_reward((n - 1) as u64) * HALVING_INTERVAL <= INITIAL_REWARD
            * HALVING_INTERVAL) by (nonlinear_arith)
            requires
                spec_epoch_reward((n - 1) as u64) <= INITIAL_REWARD,
        ;
        assert((n - 1) * (INITIAL_REWARD * HALVING_INTERVAL) + INITIAL_REWARD * HALVING_INTERVAL
            == n * (INITIAL_REWARD * HALVING_INTERVAL)) by (nonlinear_arith);
    }
}

/// The exact total of the schedule.
pub proof fn lemma_total_schedule_value()
    ensures
        epoch_reward_sum(33) == 2_099_999_997_690_000nat,
{
    assert((5_000_000_000u64 >> 0u64) == 5000000000u64 && (5_000_000_000u64 >> 1u64) == 2500000000u64 && (5_000_000_000u64 >> 2u64) == 1250000000u64 && (5_000_000_000u64 >> 3u64) == 625000000u64 && (5_000_000_000u64 >> 4u64) == 312500000u64 && (5_000_000_000u64 >> 5u64) == 156250000u64 && (5_000_000_000u64 >> 6u64) == 78125000u64 && (5_000_000_000u64 >> 7u64) == 39062500u64 && (5_000_000_000u64 >> 8u64) == 19531250u64 && (5_000_000_000u64 >> 9u64) == 9765625u64 && (5_000_000_000u64 >> 10u64) == 4882812u64 && (5_000_000_000u64 >> 11u64) == 2441406u64 && (5_000_000_000u64 >> 12u64) == 1220703u64 && (5_000_000_000u64 >> 13u64) == 610351u64 && (5_000_000_000u64 >> 14u64) == 305175u64 && (5_000_000_000u64 >> 15u64) == 152587u64 && (5_000_000_000u64 >> 16u64) == 76293u64 && (5_000_000_000u64 >> 17u64) == 38146u64 && (5_000_000_000u64 >> 18u64) == 19073u64 && (5_000_000_000u64 >> 19u64) == 9536u64 && (5_000_000_000u64 >> 20u64) == 4768u64 && (5_000_000_000u64 >> 21u64) == 2384u64 && (5_000_000_000u64 >> 22u64) == 1192u64 && (5_000_000_000u64 >> 23u64) == 596u64 && (5_000_000_000u64 >> 24u64) == 298u64 && (5_000_000_000u64 >> 25u64) == 149u64 && (5_000_000_000u64 >> 26u64) == 74u64 && (5_000_000_000u64 >> 27u64) == 37u64 && (5_000_000_000u64 >> 28u64) == 18u64 && (5_000_000_000u64 >> 29u64) == 9u64 && (5_000_000_000u64 >> 30u64) == 4u64 && (5_000_000_000u64 >> 31u64) == 2u64 && (5_000_000_000u64 >> 32u64) == 1u64) by (bit_vector);
    reveal_with_fuel(epoch_reward_sum, 34);
}

/// Compute the base mining reward (in rills) for a given block height.
pub fn block_reward(height: u64) -> (r: u64)
    ensures
        r == spec_block_reward(height),
{
    epoch_reward(halving_epoch(height))
}

/// The mining reward (in rills) for a given halving epoch.
pub fn epoch_reward(epoch: u64) -> (r: u64)
    ensures
        r == spec_epoch_reward(epoch),
{
    if epoch >= 64 {
        return 0;
    }
    INITIAL_REWARD >> epoch
}

/// Which halving epoch a block height falls in.
pub fn halving_epoch(height: u64) -> (r: u64)
    ensures
        r == height / HALVING_INTERVAL,
{
    height / HALVING_INTERVAL
}

/// The first block height of a given halving epoch (saturating).
pub fn epoch_start_height(epoch: u64) -> (r: u64)
    ensures
        r == (if epoch * HALVING_INTERVAL <= u64::MAX { epoch * HALVING_INTERVAL } else {
            u64::MAX as int
        }),
{
    sat_mul_u64(epoch, HALVING_INTERVAL)
}

/// The height at which the next halving occurs after `height`, or `None`
/// once the reward is already zero.
pub fn next_halving_height(height: u64) -> (r: Option<u64>)
    ensures
        spec_block_reward(height) == 0 ==> r is None,
        spec_block_reward(height) != 0 ==> r == Some(
            ((height / HALVING_INTERVAL + 1) * HALVING_INTERVAL) as u64,
        ),
        r matches Some(n) ==> height < n && n - height <= HALVING_INTERVAL,
{
    let epoch = halving_epoch(height);
    if epoch_reward(epoch) == 0 {
        return None;
    }
    proof {
        lemma_epoch_reward_facts(epoch);
        vstd::arithmetic::div_mod::lemma_fundamental_div_mod(height as int, HALVING_INTERVAL as int);
        vstd::arithmetic::div_mod::lemma_mod_bound(height as int, HALVING_INTERVAL as int);
    }
    Some(epoch_start_height(epoch + 1))
}

/// Number of blocks remaining until the next halving from `height`, or `None`
/// once the reward is already zero.
pub fn blocks_until_halving(height: u64) -> (r: Option<u64>)
    ensures
        spec_block_reward(height) == 0 ==> r is None,
        spec_block_reward(height) != 0 ==> r == Some(
            ((height / HALVING_INTERVAL + 1) * HALVING_INTERVAL - height) as u64,
        ),
{
    match next_halving_height(height) {
        Some(next) => Some(next - height),
        None => None,
    }
}

/// Cumulative mining rewards from height 0 through `height` (inclusive).
pub fn cumulative_reward(height: u64) -> (r: u64)
    ensures
        r == reward_sum(height as nat + 1),
{
    let final_epoch = halving_epoch(height);
    let mut total: u64 = 0;
    let mut epoch: u64 = 0;
    proof {
        vstd::arithmetic::div_mod::lemma_fundamental_div_mod(height as int, HALVING_INTERVAL as int);
        vstd::arithmetic::div_mod::lemma_mod_bound(height as int, HALVING_INTERVAL as int);
    }
    while epoch <= final_epoch
        invariant
            final_epoch == height / HALVING_INTERVAL,
            final_epoch * HALVING_INTERVAL <= height,
            epoch <= final_epoch,
            epoch <= 33,
            total == reward_sum((epoch * HALVING_INTERVAL) as nat),
            total == epoch_reward_sum(epoch as nat),
        decreases final_epoch + 1 - epoch,
    {
        let reward = epoch_reward(epoch);
        proof {
            lemma_epoch_reward_facts(epoch);
        }
        if reward == 0 {
            proof {
                assert(epoch >= 33);
                let start = (epoch * HALVING_INTERVAL) as nat;
                let k = (height + 1 - start) as nat;
                assert forall|h: u64| start <= h < start + k implies #[trigger] spec_block_reward(h)
                    == 0 by {
                    lemma_div_monotone(start as u64, h);
                    assert(start as u64 / HALVING_INTERVAL == epoch);
                    lemma_epoch_reward_facts(h / HALVING_INTERVAL);
                }
                lemma_reward_sum_run(start, k, 0);
            }
            return total;
        }
        let start = epoch_start_height(epoch);
        let end = if epoch == final_epoch {
            height
        } else {
            epoch_start_height(epoch + 1) - 1
        };
        let blocks = end - start + 1;
        proof {
            lemma_reward_sum_epoch_part(epoch, blocks as nat);
            lemma_epoch_reward_sum_bound(epoch as nat);
            assert(reward * blocks <= INITIAL_REWARD * HALVING_INTERVAL) by (nonlinear_arith)
                requires
                    reward <= INITIAL_REWARD,
                    blocks <= HALVING_INTERVAL,
            ;
            assert(epoch * (INITIAL_REWARD * HALVING_INTERVAL) <= 33 * (INITIAL_REWARD
                * HALVING_INTERVAL)) by (nonlinear_arith)
                requires
                    epoch <= 33,
            ;
            assert(blocks * reward == reward * blocks) by (nonlinear_arith);
        }
        total = total.saturating_add(sat_mul_u64(reward, blocks));
        if epoch == final_epoch {
            return total;
        }
        proof {
            assert(blocks == HALVING_INTERVAL);
            assert(reward * HALVING_INTERVAL == HALVING_INTERVAL * reward) by (nonlinear_arith);
        }
        epoch = epoch + 1;
    }
    total
}

/// Total mining supply across all halving epochs.
pub fn total_mining_supply() -> (r: u64)
    ensures
        r == epoch_reward_sum(33),
        r == reward_sum((33 * HALVING_INTERVAL) as nat),
        r == 2_099_999_997_690_000u64,
        r < MAX_SUPPLY,
        MAX_SUPPLY - r < COIN,
{
    let mut total: u64 = 0;
    let mut epoch: u64 = 0;
    while epoch < 64
        invariant
            epoch <= 33,
            total == epoch_reward_sum(epoch as nat),
        ensures
            epoch == 33,
            total == epoch_reward_sum(33),
        decreases 64 - epoch,
    {
        let reward = epoch_reward(epoch);
        proof {
            lemma_epoch_reward_facts(epoch);
        }
        if reward == 0 {
            break;
        }
        proof {
            lemma_epoch_reward_sum_bound(epoch as nat);
            assert(reward * HALVING_INTERVAL <= INITIAL_REWARD * HALVING_INTERVAL)
                by (nonlinear_arith)
                requires
                    reward <= INITIAL_REWARD,
            ;
            assert(epoch * (INITIAL_REWARD * HALVING_INTERVAL) <= 32 * (INITIAL_REWARD
                * HALVING_INTERVAL)) by (nonlinear_arith)
                requires
                    epoch <= 32,
            ;
        }
        total = total.saturating_add(sat_mul_u64(reward, HALVING_INTERVAL));
        epoch = epoch + 1;
    }
    proof {
        lemma_reward_sum_epochs(33);
        lemma_total_schedule_value();
    }
    total
}

/// The last halving epoch with a non-zero mining reward.
pub fn last_reward_epoch() -> (r: u64)
    ensures
        r == 32,
        spec_epoch_reward(r) > 0,
        forall|e: u64| e > r ==> spec_epoch_reward(e) == 0,
{
    let mut epoch: u64 = 64;
    while epoch > 0
        invariant
            epoch <= 64,
            forall|e: u64| e >= epoch ==> spec_epoch_reward(e) == 0,
        decreases epoch,
    {
        epoch = epoch - 1;
        if epoch_reward(epoch) > 0 {
            proof {
                lemma_epoch_reward_facts(epoch);
                lemma_epoch_reward_facts(32);
                assert forall|e: u64| e > epoch implies spec_epoch_reward(e) == 0 by {
                    if e < 33 {
                        lemma_epoch_reward_facts(e);
                    }
                }
            }
            return epoch;
        }
        proof {
            lemma_epoch_reward_facts(epoch);
        }
    }
    proof {
        lemma_epoch_reward_facts(0);
    }
    0
}

/// The last block height that receives a non-zero mining reward.
pub fn last_reward_height() -> (r: u64)
    ensures
        r == 33 * HALVING_INTERVAL - 1,
        spec_block_reward(r) > 0,
        forall|h: u64| h > r ==> spec_block_reward(h) == 0,
{
    let r = epoch_start_height(last_reward_epoch() + 1) - 1;
    proof {
        assert(r / HALVING_INTERVAL == 32);
        lemma_epoch_reward_facts(32);
        assert forall|h: u64| h > r implies spec_block_reward(h) == 0 by {
            lemma_div_monotone((r + 1) as u64, h);
            lemma_epoch_reward_facts(h / HALVING_INTERVAL);
        }
    }
    r
}

/// The cumulative reward never decreases as the height grows.
pub proof fn lemma_reward_sum_monotone(a: nat, b: nat)
    requires
        a <= b,
    ensures
        reward_sum(a) <= reward_sum(b),
    decreases b,
{
    if a < b {
        lemma_reward_sum_monotone(a, (b - 1) as nat);
    }
}

/// The cumulative reward through `height + 1` is that through `height` plus
/// the reward of block `height + 1`.
pub proof fn lemma_cumulative_running_sum(height: u64)
    requires
        height < u64::MAX,
    ensures
        reward_sum(height as nat + 2) == reward_sum(height as nat + 1) + spec_block_reward(
            (height + 1) as u64,
        ),
{
}

/// Heights from the last halving epoch on earn nothing, so the cumulative
/// reward stays at the schedule's total.
pub proof fn lemma_cumulative_constant_after_schedule(n: nat)
    requires
        33 * HALVING_INTERVAL <= n <= u64::MAX as nat + 1,
    ensures
        reward_sum(n) == epoch_reward_sum(33),
    decreases n,
{
    if n == 33 * HALVING_INTERVAL {
        lemma_reward_sum_epochs(33);
    } else {
        lemma_cumulative_constant_after_schedule((n - 1) as nat);
        let h = (n - 1) as u64;
        assert(33 * HALVING_INTERVAL <= h);
        assert(h / HALVING_INTERVAL >= 33) by {
            vstd::arithmetic::div_mod::lemma_div_is_ordered(
                33 * HALVING_INTERVAL as int,
                h as int,
                HALVING_INTERVAL as int,
            );
        }
        lemma_epoch_reward_facts(h / HALVING_INTERVAL);
    }
}

} // verus!
