//! UTXO lineage weakening for decay calculation.
//!
//! Lineage weakens linearly: from full association at 0 blocks to half at
//! `LINEAGE_HALF_LIFE` blocks, then to none at `LINEAGE_FULL_RESET` blocks.

use vstd::prelude::*;

use crate::constants::{CONCENTRATION_PRECISION, LINEAGE_FULL_RESET, LINEAGE_HALF_LIFE};

verus! {

/// The lineage factor in `[0, CONCENTRATION_PRECISION]` after `blocks_held` blocks.
pub open spec fn spec_lineage_factor(blocks_held: u64) -> u64 {
    let half = (CONCENTRATION_PRECISION / 2) as int;
    if blocks_held == 0 {
        CONCENTRATION_PRECISION
    } else if blocks_held >= LINEAGE_FULL_RESET {
        0
    } else if blocks_held <= LINEAGE_HALF_LIFE {
        (CONCENTRATION_PRECISION - half * blocks_held / (LINEAGE_HALF_LIFE as int)) as u64
    } else {
        (half * (LINEAGE_FULL_RESET - blocks_held) / ((LINEAGE_FULL_RESET - LINEAGE_HALF_LIFE) as int)) as u64
    }
}

/// Compute the lineage factor for a UTXO held for `blocks_held` blocks.
pub fn lineage_factor(blocks_held: u64) -> (r: u64)
    ensures
        r == spec_lineage_factor(blocks_held),
        r <= CONCENTRATION_PRECISION,
{
    if blocks_held == 0 {
        return CONCENTRATION_PRECISION;
    }
    if blocks_held >= LINEAGE_FULL_RESET {
        return 0;
    }
    let half = CONCENTRATION_PRECISION / 2;
    if blocks_held <= LINEAGE_HALF_LIFE {
        proof {
            assert(half * blocks_held <= half * LINEAGE_HALF_LIFE) by (nonlinear_arith)
                requires
                    blocks_held <= LINEAGE_HALF_LIFE,
            ;
            assert(half * blocks_held / (LINEAGE_HALF_LIFE as int) <= half) by (nonlinear_arith)
                requires
                    half * blocks_held <= half * LINEAGE_HALF_LIFE,
                    blocks_held >= 0,
            ;
        }
        CONCENTRATION_PRECISION - half * blocks_held / LINEAGE_HALF_LIFE
    } else {
        let remaining = LINEAGE_FULL_RESET - blocks_held;
        let range = LINEAGE_FULL_RESET - LINEAGE_HALF_LIFE;
        proof {
            assert(half * remaining <= half * range) by (nonlinear_arith)
                requires
                    remaining <= range,
            ;
            assert(half * remaining / (range as int) <= half) by (nonlinear_arith)
                requires
                    half * remaining <= half * range,
                    range > 0,
                    remaining >= 0,
            ;
        }
        half * remaining / range
    }
}

/// Lineage association never grows back as a UTXO ages.
pub proof fn lemma_lineage_factor_nonincreasing(a: u64, b: u64)
    requires
        a <= b,
    ensures
        spec_lineage_factor(b) <= spec_lineage_factor(a),
{
    let half = (CONCENTRATION_PRECISION / 2) as int;
    let hl = LINEAGE_HALF_LIFE as int;
    let fr = LINEAGE_FULL_RESET as int;
    let range = fr - hl;
    assert(half > 0 && hl > 0 && range > 0);
    if 0 < a && b <= LINEAGE_HALF_LIFE {
        assert(half * a <= half * b) by (nonlinear_arith)
            requires
                a <= b,
                half > 0,
        ;
        vstd::arithmetic::div_mod::lemma_div_is_ordered(half * a, half * b, hl);
        lemma_weighted_at_most_half(half, a as int, hl);
        lemma_weighted_at_most_half(half, b as int, hl);
    } else if LINEAGE_HALF_LIFE < a && b < LINEAGE_FULL_RESET {
        assert(half * (fr - b) <= half * (fr - a)) by (nonlinear_arith)
            requires
                a <= b,
                half > 0,
        ;
        vstd::arithmetic::div_mod::lemma_div_is_ordered(half * (fr - b), half * (fr - a), range);
        lemma_weighted_at_most_half(half, fr - a, range);
        lemma_weighted_at_most_half(half, fr - b, range);
    } else if 0 < a <= LINEAGE_HALF_LIFE && LINEAGE_HALF_LIFE < b < LINEAGE_FULL_RESET {
        lemma_weighted_at_most_half(half, a as int, hl);
        lemma_weighted_at_most_half(half, fr - b, range);
    } else if a == 0 && 0 < b <= LINEAGE_HALF_LIFE {
        lemma_weighted_at_most_half(half, b as int, hl);
    } else if a == 0 && LINEAGE_HALF_LIFE < b < LINEAGE_FULL_RESET {
        lemma_weighted_at_most_half(half, fr - b, range);
    }
}

/// `half * k / n` lies in `[0, half]` for `0 <= k <= n`.
proof fn lemma_weighted_at_most_half(half: int, k: int, n: int)
    requires
        half > 0,
        0 <= k <= n,
        n > 0,
    ensures
        0 <= half * k / n <= half,
{
    assert(half * k <= half * n) by (nonlinear_arith)
        requires
            half > 0,
            k <= n,
    ;
    vstd::arithmetic::div_mod::lemma_div_is_ordered(half * k, half * n, n);
    vstd::arithmetic::div_mod::lemma_div_multiples_vanish(half, n);
    assert(half * k >= 0) by (nonlinear_arith)
        requires
            half > 0,
            k >= 0,
    ;
    vstd::arithmetic::div_mod::lemma_div_is_ordered(0, half * k, n);
    assert(half * n == n * half) by (nonlinear_arith);
}

/// The lineage-weakened contribution of a balance:
/// `nominal_balance * lineage_factor(blocks_held) / CONCENTRATION_PRECISION`.
pub fn lineage_adjusted_balance(nominal_balance: u64, blocks_held: u64) -> (r: u64)
    ensures
        r == (nominal_balance as int) * (spec_lineage_factor(blocks_held) as int)
            / (CONCENTRATION_PRECISION as int),
        r <= nominal_balance,
{
    let factor = lineage_factor(blocks_held);
    proof {
        assert((nominal_balance as int) * (factor as int) <= (nominal_balance as int) * (
        CONCENTRATION_PRECISION as int)) by (nonlinear_arith)
            requires
                factor <= CONCENTRATION_PRECISION,
        ;
        assert((nominal_balance as int) * (factor as int) / (CONCENTRATION_PRECISION as int)
            <= nominal_balance) by (nonlinear_arith)
            requires
                (nominal_balance as int) * (factor as int) <= (nominal_balance as int) * (
                CONCENTRATION_PRECISION as int),
                factor >= 0,
        ;
        assert((nominal_balance as int) * (factor as int) <= u128::MAX) by (nonlinear_arith)
            requires
                factor <= CONCENTRATION_PRECISION,
                nominal_balance <= u64::MAX,
        ;
    }
    (nominal_balance as u128 * factor as u128 / CONCENTRATION_PRECISION as u128) as u64
}

} // verus!
