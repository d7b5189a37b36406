//! Saturating integer helpers used by the consensus arithmetic.

use vstd::prelude::*;

verus! {

/// `a * b`, clamped to `u64::MAX`.
pub fn sat_mul_u64(a: u64, b: u64) -> (r: u64)
    ensures
        r == (if a * b <= u64::MAX { a * b } else { u64::MAX as int }),
{
    match a.checked_mul(b) {
        Some(v) => v,
        None => u64::MAX,
    }
}

/// `a * b`, clamped to `u128::MAX`.
pub fn sat_mul_u128(a: u128, b: u128) -> (r: u128)
    ensures
        r == (if a * b <= u128::MAX { a * b } else { u128::MAX as int }),
{
    match a.checked_mul(b) {
        Some(v) => v,
        None => u128::MAX,
    }
}

} // verus!
