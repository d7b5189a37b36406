//! The production decay engine.
//!
//! Decay rates come from the sigmoid table; decay compounds over the blocks
//! held through fixed-point binary exponentiation with `u128` intermediates.

use vstd::prelude::*;

use crate::constants::{
    BPS_PRECISION, DECAY_C_THRESHOLD_PPB, DECAY_K, DECAY_POOL_RELEASE_BPS, DECAY_PRECISION,
    DECAY_R_MAX_PPB,
};
use crate::decay::sigmoid::{
    lemma_sigmoid_monotone, lemma_table_facts, sigmoid_positive, spec_sigmoid, SIGMOID_PRECISION,
    SIGMOID_TABLE,
};
use crate::error::DecayError;
use crate::traits::DecayCalculator;

verus! {

/// Remaining work of the square-and-multiply loop from state
/// `(result, b, e)`: each step multiplies `result` by `b` when `e` is odd,
/// halves `e`, and squares `b` while bits remain, dividing every product by `p`.
pub open spec fn pow_loop(result: int, b: int, e: nat, p: int) -> int
    decreases e,
{
    if e == 0 {
        result
    } else {
        let r2 = if e % 2 == 1 { result * b / p } else { result };
        let e2 = e / 2;
        let b2 = if e2 > 0 { b * b / p } else { b };
        pow_loop(r2, b2, e2, p)
    }
}

/// Whether every product formed by the loop from state `(result, b, e)` fits in a `u128`.
pub open spec fn pow_loop_fits(result: int, b: int, e: nat, p: int) -> bool
    decreases e,
{
    if e == 0 {
        true
    } else {
        let r2 = if e % 2 == 1 { result * b / p } else { result };
        let e2 = e / 2;
        let b2 = if e2 > 0 { b * b / p } else { b };
        &&& (e % 2 == 1 ==> result * b <= u128::MAX)
        &&& (e2 > 0 ==> b * b <= u128::MAX)
        &&& pow_loop_fits(r2, b2, e2, p)
    }
}

/// Fixed-point `(base / precision)^exp`, scaled by `precision`.
pub open spec fn spec_fixed_pow(base: u64, exp: u64, precision: u64) -> int {
    pow_loop(precision as int, base as int, exp as nat, precision as int)
}

/// The loop never overflows for these arguments.
pub open spec fn fixed_pow_fits(base: u64, exp: u64, precision: u64) -> bool {
    pow_loop_fits(precision as int, base as int, exp as nat, precision as int)
}

/// With a base and an accumulator at most `p`, the loop stays within `[0, p]`
/// and never overflows.
pub proof fn lemma_pow_loop_bounded(result: int, b: int, e: nat, p: int)
    requires
        0 < p <= u64::MAX,
        0 <= result <= p,
        0 <= b <= p,
    ensures
        0 <= pow_loop(result, b, e, p) <= p,
        pow_loop_fits(result, b, e, p),
    decreases e,
{
    if e > 0 {
        assert(result * b <= p * p) by (nonlinear_arith)
            requires
                0 <= result <= p,
                0 <= b <= p,
        ;
        assert(b * b <= p * p) by (nonlinear_arith)
            requires
                0 <= b <= p,
        ;
        assert(p * p <= u128::MAX) by (nonlinear_arith)
            requires
                0 < p <= u64::MAX,
        ;
        assert(0 <= result * b / p <= result) by (nonlinear_arith)
            requires
                0 <= result <= p,
                0 <= b <= p,
                p > 0,
        ;
        assert(0 <= b * b / p <= b) by (nonlinear_arith)
            requires
                0 <= b <= p,
                p > 0,
        ;
        let r2 = if e % 2 == 1 { result * b / p } else { result };
        let e2 = e / 2;
        let b2 = if e2 > 0 { b * b / p } else { b };
        lemma_pow_loop_bounded(r2, b2, e2, p);
    }
}

/// The loop result grows with both its accumulator and its base.
pub proof fn lemma_pow_loop_monotone(r1: int, b1: int, r2: int, b2: int, e: nat, p: int)
    requires
        p > 0,
        0 <= r1 <= r2,
        0 <= b1 <= b2,
    ensures
        pow_loop(r1, b1, e, p) <= pow_loop(r2, b2, e, p),
    decreases e,
{
    if e > 0 {
        assert(r1 * b1 <= r2 * b2) by (nonlinear_arith)
            requires
                0 <= r1 <= r2,
                0 <= b1 <= b2,
        ;
        assert(b1 * b1 <= b2 * b2) by (nonlinear_arith)
            requires
                0 <= b1 <= b2,
        ;
        vstd::arithmetic::div_mod::lemma_div_is_ordered(r1 * b1, r2 * b2, p);
        vstd::arithmetic::div_mod::lemma_div_is_ordered(b1 * b1, b2 * b2, p);
        assert(0 <= r1 * b1 / p && 0 <= b1 * b1 / p) by (nonlinear_arith)
            requires
                r1 >= 0,
                b1 >= 0,
                p > 0,
        ;
        let e2 = e / 2;
        let n1 = if e % 2 == 1 { r1 * b1 / p } else { r1 };
        let n2 = if e % 2 == 1 { r2 * b2 / p } else { r2 };
        let c1 = if e2 > 0 { b1 * b1 / p } else { b1 };
        let c2 = if e2 > 0 { b2 * b2 / p } else { b2 };
        lemma_pow_loop_monotone(n1, c1, n2, c2, e2, p);
    }
}

/// Fixed-point exponentiation by squaring: `(base / precision)^exp` in
/// fixed point with denominator `precision`. Every product is formed in
/// `u128`; an overflowing product is an arithmetic error.
pub fn fixed_pow(base: u64, exp: u64, precision: u64) -> (r: Result<u64, DecayError>)
    requires
        precision > 0,
    ensures
        fixed_pow_fits(base, exp, precision) ==> r == Ok::<u64, DecayError>(
            spec_fixed_pow(base, exp, precision) as u64,
        ),
        !fixed_pow_fits(base, exp, precision) ==> r == Err::<u64, DecayError>(
            DecayError::ArithmeticOverflow,
        ),
{
    if exp == 0 {
        return Ok(precision);
    }
    let p = precision as u128;
    let mut result: u128 = p;
    let mut b: u128 = base as u128;
    let mut e = exp;
    while e > 0
        invariant
            p == precision,
            p > 0,
            pow_loop(result as int, b as int, e as nat, p as int) == spec_fixed_pow(
                base,
                exp,
                precision,
            ),
            pow_loop_fits(result as int, b as int, e as nat, p as int) == fixed_pow_fits(
                base,
                exp,
                precision,
            ),
        decreases e,
    {
        if e % 2 == 1 {
            match result.checked_mul(b) {
                Some(v) => {
                    result = v / p;
                },
                None => {
                    return Err(DecayError::ArithmeticOverflow);
                },
            }
        }
        e = e / 2;
        if e > 0 {
            match b.checked_mul(b) {
                Some(v) => {
                    b = v / p;
                },
                None => {
                    return Err(DecayError::ArithmeticOverflow);
                },
            }
        }
    }
    Ok(result as u64)
}

/// Per-block decay rate in parts per billion for a concentration in parts per billion:
/// zero at or below the threshold, `R_MAX * sigmoid(K * (c - threshold))` above it.
pub open spec fn spec_decay_rate(concentration_ppb: u64) -> int {
    if concentration_ppb <= DECAY_C_THRESHOLD_PPB {
        0
    } else {
        let arg = (DECAY_K as int) * (concentration_ppb - DECAY_C_THRESHOLD_PPB);
        (DECAY_R_MAX_PPB as int) * (spec_sigmoid(arg as u128) as int) / (SIGMOID_PRECISION as int)
    }
}

/// Decay of `nominal` at per-block `rate` compounded over `blocks`:
/// the whole value at a rate of 100% or more, otherwise
/// `nominal - nominal * retention^blocks`, saturating at zero.
pub open spec fn spec_compound_decay(nominal: u64, rate: int, blocks: u64) -> int {
    if rate >= DECAY_PRECISION {
        nominal as int
    } else {
        let retention_total = spec_fixed_pow((DECAY_PRECISION - rate) as u64, blocks, DECAY_PRECISION);
        let effective = ((nominal as int) * retention_total / (DECAY_PRECISION as int)) as u64;
        if effective <= nominal {
            nominal - effective
        } else {
            0
        }
    }
}

/// Total decay of `nominal` held `blocks` blocks at `concentration_ppb`.
pub open spec fn spec_compute_decay(nominal: u64, concentration_ppb: u64, blocks: u64) -> int {
    let rate = spec_decay_rate(concentration_ppb);
    if blocks == 0 || nominal == 0 || rate == 0 {
        0
    } else {
        spec_compound_decay(nominal, rate, blocks)
    }
}

/// A base rate scaled by a conduct multiplier in basis points, capped at 100%.
pub open spec fn spec_conduct_rate(base_rate: int, multiplier_bps: u64) -> int {
    let adjusted = base_rate * (multiplier_bps as int) / (BPS_PRECISION as int);
    if adjusted <= DECAY_PRECISION {
        adjusted
    } else {
        DECAY_PRECISION as int
    }
}

/// Total decay with the per-block rate scaled by a conduct multiplier.
pub open spec fn spec_decay_with_conduct(
    nominal: u64,
    concentration_ppb: u64,
    blocks: u64,
    multiplier_bps: u64,
) -> int {
    let rate = spec_decay_rate(concentration_ppb);
    if blocks == 0 || nominal == 0 || rate == 0 {
        0
    } else {
        spec_compound_decay(nominal, spec_conduct_rate(rate, multiplier_bps), blocks)
    }
}

/// The decay rate lies in `[0, R_MAX]`; above the threshold it is at least `R_MAX / 3`.
pub proof fn lemma_decay_rate_bounds(concentration_ppb: u64)
    ensures
        0 <= spec_decay_rate(concentration_ppb) <= DECAY_R_MAX_PPB,
        concentration_ppb <= DECAY_C_THRESHOLD_PPB <==> spec_decay_rate(concentration_ppb) == 0,
        concentration_ppb > DECAY_C_THRESHOLD_PPB ==> spec_decay_rate(concentration_ppb)
            >= DECAY_R_MAX_PPB / 3,
{
    if concentration_ppb > DECAY_C_THRESHOLD_PPB {
        let arg = (DECAY_K as int) * (concentration_ppb - DECAY_C_THRESHOLD_PPB);
        let s = spec_sigmoid(arg as u128) as int;
        lemma_sigmoid_range(arg as u128);
        assert((DECAY_R_MAX_PPB as int) * s <= (DECAY_R_MAX_PPB as int) * (SIGMOID_PRECISION as int))
            by (nonlinear_arith)
            requires
                s <= SIGMOID_PRECISION,
        ;
        assert((DECAY_R_MAX_PPB as int) * s >= (DECAY_R_MAX_PPB as int) * 500_000_000)
            by (nonlinear_arith)
            requires
                s >= 500_000_000,
        ;
        vstd::arithmetic::div_mod::lemma_div_is_ordered(
            (DECAY_R_MAX_PPB as int) * s,
            (DECAY_R_MAX_PPB as int) * (SIGMOID_PRECISION as int),
            SIGMOID_PRECISION as int,
        );
        vstd::arithmetic::div_mod::lemma_div_is_ordered(
            (DECAY_R_MAX_PPB as int) * 500_000_000,
            (DECAY_R_MAX_PPB as int) * s,
            SIGMOID_PRECISION as int,
        );
    }
}

/// The interpolated sigmoid always lies in `[0.5, 1.0]`.
proof fn lemma_sigmoid_range(x: u128)
    ensures
        500_000_000 <= spec_sigmoid(x) <= SIGMOID_PRECISION,
{
    lemma_table_facts();
    lemma_sigmoid_monotone(0, x);
    lemma_sigmoid_monotone(x, u128::MAX);
    assert(spec_sigmoid(0) == SIGMOID_TABLE@[0]);
    assert(u128::MAX as int / (crate::decay::sigmoid::TABLE_STEP as int) >= 16);
}

/// The decay rate never decreases as concentration grows.
pub proof fn lemma_decay_rate_monotone(c1: u64, c2: u64)
    requires
        c1 <= c2,
    ensures
        spec_decay_rate(c1) <= spec_decay_rate(c2),
{
    lemma_decay_rate_bounds(c1);
    lemma_decay_rate_bounds(c2);
    if c1 > DECAY_C_THRESHOLD_PPB {
        let a1 = (DECAY_K as int) * (c1 - DECAY_C_THRESHOLD_PPB);
        let a2 = (DECAY_K as int) * (c2 - DECAY_C_THRESHOLD_PPB);
        assert(a1 <= a2 <= u128::MAX) by (nonlinear_arith)
            requires
                DECAY_C_THRESHOLD_PPB < c1 <= c2 <= u64::MAX,
                a1 == (DECAY_K as int) * (c1 - DECAY_C_THRESHOLD_PPB),
                a2 == (DECAY_K as int) * (c2 - DECAY_C_THRESHOLD_PPB),
        ;
        lemma_sigmoid_monotone(a1 as u128, a2 as u128);
        let s1 = spec_sigmoid(a1 as u128) as int;
        let s2 = spec_sigmoid(a2 as u128) as int;
        assert((DECAY_R_MAX_PPB as int) * s1 <= (DECAY_R_MAX_PPB as int) * s2) by (nonlinear_arith)
            requires
                s1 <= s2,
        ;
        vstd::arithmetic::div_mod::lemma_div_is_ordered(
            (DECAY_R_MAX_PPB as int) * s1,
            (DECAY_R_MAX_PPB as int) * s2,
            SIGMOID_PRECISION as int,
        );
    }
}

/// Compound decay lies in `[0, nominal]` for every rate.
pub proof fn lemma_compound_decay_bounds(nominal: u64, rate: int, blocks: u64)
    requires
        0 <= rate,
    ensures
        0 <= spec_compound_decay(nominal, rate, blocks) <= nominal,
{
}

/// A higher per-block rate never yields less compound decay.
pub proof fn lemma_compound_decay_monotone(nominal: u64, r1: int, r2: int, blocks: u64)
    requires
        0 <= r1 <= r2,
    ensures
        spec_compound_decay(nominal, r1, blocks) <= spec_compound_decay(nominal, r2, blocks),
{
    if r2 < DECAY_PRECISION {
        let p = DECAY_PRECISION as int;
        lemma_pow_loop_monotone(p, p - r2, p, p - r1, blocks as nat, p);
        lemma_pow_loop_bounded(p, p - r1, blocks as nat, p);
        lemma_pow_loop_bounded(p, p - r2, blocks as nat, p);
        let t1 = spec_fixed_pow((DECAY_PRECISION - r1) as u64, blocks, DECAY_PRECISION);
        let t2 = spec_fixed_pow((DECAY_PRECISION - r2) as u64, blocks, DECAY_PRECISION);
        assert(0 <= (nominal as int) * t2 <= (nominal as int) * t1 <= (nominal as int) * p)
            by (nonlinear_arith)
            requires
                0 <= t2 <= t1 <= p,
                nominal >= 0,
        ;
        vstd::arithmetic::div_mod::lemma_div_is_ordered((nominal as int) * t2, (nominal as int) * t1, p);
        vstd::arithmetic::div_mod::lemma_div_is_ordered((nominal as int) * t1, (nominal as int) * p, p);
        vstd::arithmetic::div_mod::lemma_div_is_ordered(0, (nominal as int) * t2, p);
        assert((nominal as int) * p / p == nominal) by (nonlinear_arith)
            requires
                p > 0,
        ;
    }
}

/// Decay at the standard multiplier of `1.0x` equals the unscaled decay.
pub proof fn lemma_conduct_neutral_multiplier(nominal: u64, concentration_ppb: u64, blocks: u64)
    ensures
        spec_decay_with_conduct(nominal, concentration_ppb, blocks, BPS_PRECISION)
            == spec_compute_decay(nominal, concentration_ppb, blocks),
{
    let rate = spec_decay_rate(concentration_ppb);
    lemma_decay_rate_bounds(concentration_ppb);
    assert(rate * (BPS_PRECISION as int) / (BPS_PRECISION as int) == rate) by (nonlinear_arith)
        requires
            BPS_PRECISION > 0,
    ;
}

/// A higher conduct multiplier never yields less decay.
pub proof fn lemma_conduct_multiplier_monotone(
    nominal: u64,
    concentration_ppb: u64,
    blocks: u64,
    m1: u64,
    m2: u64,
)
    requires
        m1 <= m2,
    ensures
        spec_decay_with_conduct(nominal, concentration_ppb, blocks, m1) <= spec_decay_with_conduct(
            nominal,
            concentration_ppb,
            blocks,
            m2,
        ),
{
    let rate = spec_decay_rate(concentration_ppb);
    lemma_decay_rate_bounds(concentration_ppb);
    assert(0 <= rate * (m1 as int) <= rate * (m2 as int)) by (nonlinear_arith)
        requires
            0 <= rate,
            m1 <= m2,
            m1 >= 0,
    ;
    vstd::arithmetic::div_mod::lemma_div_is_ordered(rate * (m1 as int), rate * (m2 as int), BPS_PRECISION as int);
    vstd::arithmetic::div_mod::lemma_div_is_ordered(0, rate * (m1 as int), BPS_PRECISION as int);
    lemma_compound_decay_monotone(
        nominal,
        spec_conduct_rate(rate, m1),
        spec_conduct_rate(rate, m2),
        blocks,
    );
}

/// Decay never decreases as concentration grows.
pub proof fn lemma_decay_monotone_in_concentration(nominal: u64, c1: u64, c2: u64, blocks: u64)
    requires
        c1 <= c2,
    ensures
        spec_compute_decay(nominal, c1, blocks) <= spec_compute_decay(nominal, c2, blocks),
{
    lemma_decay_rate_monotone(c1, c2);
    lemma_decay_rate_bounds(c1);
    lemma_compound_decay_bounds(nominal, spec_decay_rate(c2), blocks);
    lemma_compound_decay_monotone(nominal, spec_decay_rate(c1), spec_decay_rate(c2), blocks);
}

/// The production decay calculator: sigmoid rates, compound decay, and zero
/// decay at or below the concentration threshold.
#[derive(Debug, Clone, Default)]
pub struct DecayEngine;

impl DecayEngine {
    /// Create a new engine.
    pub fn new() -> (r: Self) {
        DecayEngine
    }

    /// Decay of `nominal` at a per-block rate below 100%, compounded over `blocks`.
    fn compound(nominal: u64, rate: u64, blocks: u64) -> (r: u64)
        requires
            rate < DECAY_PRECISION,
        ensures
            r == spec_compound_decay(nominal, rate as int, blocks),
    {
        let retention = DECAY_PRECISION - rate;
        proof {
            lemma_pow_loop_bounded(
                DECAY_PRECISION as int,
                retention as int,
                blocks as nat,
                DECAY_PRECISION as int,
            );
        }
        let retention_total = match fixed_pow(retention, blocks, DECAY_PRECISION) {
            Ok(v) => v,
            Err(_) => {
                proof {
                    assert(false);
                }
                0
            },
        };
        proof {
            assert((nominal as int) * (retention_total as int) <= (u64::MAX as int) * (
            DECAY_PRECISION as int)) by (nonlinear_arith)
                requires
                    retention_total <= DECAY_PRECISION,
                    nominal <= u64::MAX,
            ;
        }
        let effective = (nominal as u128 * retention_total as u128 / DECAY_PRECISION as u128) as u64;
        nominal.saturating_sub(effective)
    }

    /// Decay with the per-block rate scaled by a conduct multiplier in basis
    /// points (`10_000` = 1.0x), capped at 100% per block.
    pub fn compute_decay_with_conduct(
        &self,
        nominal_value: u64,
        concentration_ppb: u64,
        blocks_held: u64,
        conduct_multiplier_bps: u64,
    ) -> (r: Result<u64, DecayError>)
        ensures
            r == Ok::<u64, DecayError>(
                spec_decay_with_conduct(
                    nominal_value,
                    concentration_ppb,
                    blocks_held,
                    conduct_multiplier_bps,
                ) as u64,
            ),
            spec_decay_with_conduct(nominal_value, concentration_ppb, blocks_held, conduct_multiplier_bps)
                <= nominal_value,
    {
        proof {
            lemma_decay_rate_bounds(concentration_ppb);
            lemma_compound_decay_bounds(
                nominal_value,
                spec_conduct_rate(spec_decay_rate(concentration_ppb), conduct_multiplier_bps),
                blocks_held,
            );
        }
        if blocks_held == 0 || nominal_value == 0 {
            return Ok(0);
        }
        let base_rate = match self.decay_rate_ppb(concentration_ppb) {
            Ok(v) => v,
            Err(e) => {
                return Err(e);
            },
        };
        if base_rate == 0 {
            return Ok(0);
        }
        proof {
            assert((base_rate as int) * (conduct_multiplier_bps as int) <= (u64::MAX as int) * (
            u64::MAX as int)) by (nonlinear_arith)
                requires
                    base_rate <= u64::MAX,
                    conduct_multiplier_bps <= u64::MAX,
            ;
            assert(0 <= (base_rate as int) * (conduct_multiplier_bps as int)) by (nonlinear_arith)
                requires
                    base_rate >= 0,
                    conduct_multiplier_bps >= 0,
            ;
        }
        let scaled = base_rate as u128 * conduct_multiplier_bps as u128 / BPS_PRECISION as u128;
        let adjusted_rate: u64 = if scaled <= DECAY_PRECISION as u128 {
            scaled as u64
        } else {
            DECAY_PRECISION
        };
        if adjusted_rate >= DECAY_PRECISION {
            return Ok(nominal_value);
        }
        Ok(Self::compound(nominal_value, adjusted_rate, blocks_held))
    }
}

impl DecayCalculator for DecayEngine {
    fn decay_rate_ppb(&self, concentration_ppb: u64) -> (r: Result<u64, DecayError>)
        ensures
            r == Ok::<u64, DecayError>(spec_decay_rate(concentration_ppb) as u64),
            spec_decay_rate(concentration_ppb) <= DECAY_R_MAX_PPB,
    {
        proof {
            lemma_decay_rate_bounds(concentration_ppb);
        }
        if concentration_ppb <= DECAY_C_THRESHOLD_PPB {
            return Ok(0);
        }
        let diff = concentration_ppb - DECAY_C_THRESHOLD_PPB;
        proof {
            assert((DECAY_K as int) * (diff as int) <= u128::MAX) by (nonlinear_arith)
                requires
                    diff <= u64::MAX,
            ;
        }
        let arg_scaled = DECAY_K as u128 * diff as u128;
        let sigmoid_val = sigmoid_positive(arg_scaled);
        proof {
            lemma_sigmoid_range(arg_scaled);
        }
        let rate = DECAY_R_MAX_PPB as u128 * sigmoid_val as u128 / SIGMOID_PRECISION as u128;
        Ok(rate as u64)
    }

    fn compute_decay(&self, nominal_value: u64, concentration_ppb: u64, blocks_held: u64) -> (r:
        Result<u64, DecayError>)
        ensures
            r == Ok::<u64, DecayError>(
                spec_compute_decay(nominal_value, concentration_ppb, blocks_held) as u64,
            ),
            spec_compute_decay(nominal_value, concentration_ppb, blocks_held) <= nominal_value,
    {
        proof {
            lemma_decay_rate_bounds(concentration_ppb);
            lemma_compound_decay_bounds(
                nominal_value,
                spec_decay_rate(concentration_ppb),
                blocks_held,
            );
        }
        if blocks_held == 0 || nominal_value == 0 {
            return Ok(0);
        }
        let rate = match self.decay_rate_ppb(concentration_ppb) {
            Ok(v) => v,
            Err(e) => {
                return Err(e);
            },
        };
        if rate == 0 {
            return Ok(0);
        }
        if rate >= DECAY_PRECISION {
            return Ok(nominal_value);
        }
        Ok(Self::compound(nominal_value, rate, blocks_held))
    }

    fn effective_value(&self, nominal_value: u64, concentration_ppb: u64, blocks_held: u64) -> (r:
        Result<u64, DecayError>)
        ensures
            r == Ok::<u64, DecayError>(
                (nominal_value - spec_compute_decay(nominal_value, concentration_ppb, blocks_held)) as u64,
            ),
    {
        match self.compute_decay(nominal_value, concentration_ppb, blocks_held) {
            Ok(decay) => {
                if decay <= nominal_value {
                    Ok(nominal_value - decay)
                } else {
                    Err(DecayError::ArithmeticOverflow)
                }
            },
            Err(e) => Err(e),
        }
    }

    fn decay_pool_release(&self, pool_balance: u64) -> (r: Result<u64, DecayError>)
        ensures
            (pool_balance as int) * (DECAY_POOL_RELEASE_BPS as int) <= u64::MAX ==> r == Ok::<
                u64,
                DecayError,
            >(((pool_balance as int) * (DECAY_POOL_RELEASE_BPS as int) / (BPS_PRECISION as int)) as u64),
            (pool_balance as int) * (DECAY_POOL_RELEASE_BPS as int) > u64::MAX ==> r == Err::<
                u64,
                DecayError,
            >(DecayError::ArithmeticOverflow),
            (pool_balance as int) * (DECAY_POOL_RELEASE_BPS as int) / (BPS_PRECISION as int)
                <= pool_balance,
    {
        proof {
            assert((pool_balance as int) * (DECAY_POOL_RELEASE_BPS as int) / (BPS_PRECISION as int)
                <= pool_balance) by (nonlinear_arith)
                requires
                    pool_balance >= 0,
            ;
        }
        match pool_balance.checked_mul(DECAY_POOL_RELEASE_BPS) {
            Some(v) => Ok(v / BPS_PRECISION),
            None => Err(DecayError::ArithmeticOverflow),
        }
    }
}

} // verus!
