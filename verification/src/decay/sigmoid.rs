//! Fixed-point sigmoid lookup table with linear interpolation.
//!
//! The table holds `sigmoid(x) * 10^9` for `x = 0.0, 0.5, ..., 8.0`;
//! beyond 8.0 the value saturates at the last entry.

use vstd::prelude::*;

use crate::constants::CONCENTRATION_PRECISION;

verus! {

/// Precision of sigmoid output values (parts-per-billion).
pub const SIGMOID_PRECISION: u64 = 1_000_000_000;

/// Step size between table entries in scaled input units (0.5).
pub const TABLE_STEP: u64 = CONCENTRATION_PRECISION / 2;

/// Precomputed `sigmoid(x) * SIGMOID_PRECISION` for `x = 0.0, 0.5, ..., 8.0`.
pub const SIGMOID_TABLE: [u64; 17] = [
    500_000_000,
    622_459_331,
    731_058_579,
    817_574_476,
    880_797_078,
    924_141_820,
    952_574_127,
    970_687_769,
    982_013_790,
    989_013_057,
    993_307_149,
    995_929_862,
    997_527_377,
    998_498_883,
    999_088_949,
    999_447_221,
    999_664_650,
];

/// The table is strictly increasing and stays within `[0.5, 1.0)`.
pub proof fn lemma_table_facts()
    ensures
        forall|i: int, j: int| 0 <= i <= j < 17 ==> SIGMOID_TABLE@[i] <= SIGMOID_TABLE@[j],
        forall|i: int| 0 <= i < 17 ==> 500_000_000 <= #[trigger] SIGMOID_TABLE@[i] < SIGMOID_PRECISION,
{
    assert(SIGMOID_TABLE@ =~= seq![
        500_000_000u64, 622_459_331, 731_058_579, 817_574_476, 880_797_078, 924_141_820,
        952_574_127, 970_687_769, 982_013_790, 989_013_057, 993_307_149, 995_929_862,
        997_527_377, 998_498_883, 999_088_949, 999_447_221, 999_664_650,
    ]);
}

/// Interpolated sigmoid of a scaled non-negative argument.
pub open spec fn spec_sigmoid(x: u128) -> u64 {
    let step = TABLE_STEP as int;
    let index = (x as int) / step;
    if index >= 16 {
        SIGMOID_TABLE@[16]
    } else {
        let lo = SIGMOID_TABLE@[index];
        let hi = SIGMOID_TABLE@[index + 1];
        (lo + (hi - lo) * ((x as int) % step) / step) as u64
    }
}

/// Compute `sigmoid(x) * SIGMOID_PRECISION` by table lookup with linear
/// interpolation; `x_scaled` is the argument times 10^9. Arguments at or
/// beyond 8.0 give the last table entry.
pub fn sigmoid_positive(x_scaled: u128) -> (r: u64)
    ensures
        r == spec_sigmoid(x_scaled),
        SIGMOID_TABLE@[0] <= r <= SIGMOID_TABLE@[16],
{
    proof {
        lemma_table_facts();
    }
    let step = TABLE_STEP as u128;
    let q = x_scaled / step;
    if q >= 16 {
        return SIGMOID_TABLE[16];
    }
    let index = q as usize;
    let frac = (x_scaled % step) as u64;
    let lo = SIGMOID_TABLE[index];
    let hi = SIGMOID_TABLE[index + 1];
    let diff = hi - lo;
    proof {
        assert((diff as int) * (frac as int) <= (diff as int) * (step as int)) by (nonlinear_arith)
            requires
                frac < step,
                diff >= 0,
        ;
        assert(((diff as int) * (frac as int)) / (step as int) <= diff) by (nonlinear_arith)
            requires
                (diff as int) * (frac as int) <= (diff as int) * (step as int),
                step > 0,
                diff >= 0,
                frac >= 0,
        ;
    }
    lo + (diff as u128 * frac as u128 / step) as u64
}

/// The sigmoid never decreases as its argument grows.
pub proof fn lemma_sigmoid_monotone(x1: u128, x2: u128)
    requires
        x1 <= x2,
    ensures
        spec_sigmoid(x1) <= spec_sigmoid(x2),
{
    lemma_table_facts();
    let step = TABLE_STEP as int;
    let i1 = (x1 as int) / step;
    let i2 = (x2 as int) / step;
    vstd::arithmetic::div_mod::lemma_div_is_ordered(x1 as int, x2 as int, step);
    lemma_segment_bounds(x1);
    lemma_segment_bounds(x2);
    if i1 < 16 && i2 < 16 {
        if i1 == i2 {
            let lo = SIGMOID_TABLE@[i1];
            let d = SIGMOID_TABLE@[i1 + 1] - lo;
            let m1 = (x1 as int) % step;
            let m2 = (x2 as int) % step;
            vstd::arithmetic::div_mod::lemma_fundamental_div_mod(x1 as int, step);
            vstd::arithmetic::div_mod::lemma_fundamental_div_mod(x2 as int, step);
            assert(m1 <= m2);
            assert(d * m1 <= d * m2) by (nonlinear_arith)
                requires
                    d >= 0,
                    m1 <= m2,
            ;
            vstd::arithmetic::div_mod::lemma_div_is_ordered(d * m1, d * m2, step);
            assert(d * m1 / step >= 0) by (nonlinear_arith)
                requires
                    d >= 0,
                    m1 >= 0,
                    step > 0,
            ;
            assert(d * m2 <= d * step) by (nonlinear_arith)
                requires
                    d >= 0,
                    m2 < step,
            ;
            vstd::arithmetic::div_mod::lemma_div_is_ordered(d * m2, d * step, step);
            vstd::arithmetic::div_mod::lemma_div_multiples_vanish(d, step);
            assert(d * step == step * d) by (nonlinear_arith);
            assert(SIGMOID_TABLE@[i1 + 1] <= SIGMOID_TABLE@[16]);
        } else {
            assert(SIGMOID_TABLE@[i1 + 1] <= SIGMOID_TABLE@[i2]);
        }
    } else if i1 < 16 {
        assert(SIGMOID_TABLE@[i1 + 1] <= SIGMOID_TABLE@[16]);
    }
}

/// Within a segment the interpolated value lies between the segment's ends.
proof fn lemma_segment_bounds(x: u128)
    ensures
        (x as int) / (TABLE_STEP as int) < 16 ==> SIGMOID_TABLE@[(x as int) / (TABLE_STEP as int)] <= spec_sigmoid(x)
            <= SIGMOID_TABLE@[(x as int) / (TABLE_STEP as int) + 1],
{
    lemma_table_facts();
    let step = TABLE_STEP as int;
    let i = (x as int) / step;
    if i < 16 {
        let lo = SIGMOID_TABLE@[i];
        let d = SIGMOID_TABLE@[i + 1] - lo;
        vstd::arithmetic::div_mod::lemma_mod_bound(x as int, step);
        assert(d * ((x as int) % step) <= d * step) by (nonlinear_arith)
            requires
                d >= 0,
                0 <= (x as int) % step < step,
        ;
        assert(d * ((x as int) % step) / step <= d) by (nonlinear_arith)
            requires
                d * ((x as int) % step) <= d * step,
                step > 0,
                d >= 0,
                (x as int) % step >= 0,
        ;
        assert(d * ((x as int) % step) / step >= 0) by (nonlinear_arith)
            requires
                d >= 0,
                (x as int) % step >= 0,
                step > 0,
        ;
    }
}

} // verus!
