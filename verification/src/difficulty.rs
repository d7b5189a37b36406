//! Difficulty adjustment algorithm.
//!
//! The target is adjusted every block from a rolling window of the most recent
//! `DIFFICULTY_WINDOW` intervals. Higher targets are easier. Per-window
//! adjustments are clamped to a factor of `MAX_ADJUSTMENT_FACTOR`.

use vstd::prelude::*;

use crate::arith::{sat_mul_u64, sat_mul_u128};
use crate::constants::{BLOCK_TIME_SECS, DIFFICULTY_WINDOW};

verus! {

/// Maximum difficulty adjustment factor per window.
pub const MAX_ADJUSTMENT_FACTOR: u64 = 4;

/// Minimum difficulty target (hardest possible difficulty).
pub const MIN_TARGET: u64 = 1;

/// Maximum (easiest) difficulty target.
pub const MAX_TARGET: u64 = u64::MAX;

/// `a - b`, or 0 when `b > a`.
pub open spec fn sat_sub(a: int, b: int) -> int {
    if a >= b {
        a - b
    } else {
        0
    }
}

/// `v` clamped into `[lo, hi]` (upper bound applied last).
pub open spec fn clamp(v: int, lo: int, hi: int) -> int {
    let a = if v >= lo {
        v
    } else {
        lo
    };
    if a <= hi {
        a
    } else {
        hi
    }
}

/// The next target computed from a window of timestamps, oldest first.
///
/// With fewer than two timestamps the target is unchanged. Otherwise the
/// elapsed time (first to last, never negative) is clamped to
/// `[expected / 4, expected * 4]` where `expected` is 60 seconds per interval,
/// the target is scaled by `clamped / expected`, and the result is clamped to
/// `[MIN_TARGET, MAX_TARGET]`.
pub open spec fn spec_next_target(ts: Seq<u64>, current: u64) -> u64 {
    if ts.len() < 2 {
        current
    } else {
        let actual = sat_sub(ts.last() as int, ts[0] as int);
        let expected = (ts.len() - 1) * BLOCK_TIME_SECS;
        let max_time = if expected * 4 <= u64::MAX {
            expected * 4
        } else {
            u64::MAX as int
        };
        let clamped = clamp(actual, expected / 4, max_time);
        let product = if current * clamped <= u128::MAX {
            current * clamped
        } else {
            u128::MAX as int
        };
        let result = product / expected;
        let capped = if result <= u64::MAX {
            result
        } else {
            u64::MAX as int
        };
        (if capped >= MIN_TARGET {
            capped
        } else {
            MIN_TARGET as int
        }) as u64
    }
}

/// Compute the next difficulty target from a window of recent timestamps.
///
/// `timestamps` must be ordered oldest to newest; `current_target` is the
/// target of the most recent block in the window.
pub fn next_target(timestamps: &[u64], current_target: u64) -> (r: u64)
    requires
        timestamps@.len() <= u64::MAX / BLOCK_TIME_SECS,
    ensures
        r == spec_next_target(timestamps@, current_target),
        timestamps@.len() >= 2 ==> MIN_TARGET <= r,
        timestamps@.len() >= 2 && current_target >= 1 ==> r <= current_target * MAX_ADJUSTMENT_FACTOR,
{
    if timestamps.len() < 2 {
        return current_target;
    }
    let last = timestamps[timestamps.len() - 1];
    let first = timestamps[0];
    let actual_time = last.saturating_sub(first);
    let intervals = (timestamps.len() - 1) as u64;
    let expected_time = intervals * BLOCK_TIME_SECS;
    if expected_time == 0 {
        return current_target;
    }
    let min_time = expected_time / MAX_ADJUSTMENT_FACTOR;
    let max_time = sat_mul_u64(expected_time, MAX_ADJUSTMENT_FACTOR);
    let lower = if actual_time >= min_time {
        actual_time
    } else {
        min_time
    };
    let clamped = if lower <= max_time {
        lower
    } else {
        max_time
    };
    proof {
        assert(clamped <= expected_time * 4);
        assert((current_target as int) * (clamped as int) <= u128::MAX) by (nonlinear_arith)
            requires
                current_target <= u64::MAX,
                clamped <= u64::MAX,
        ;
    }
    let result = sat_mul_u128(current_target as u128, clamped as u128) / (expected_time as u128);
    proof {
        if current_target >= 1 {
            let p = (current_target as int) * (clamped as int);
            assert(p <= (current_target as int) * 4 * (expected_time as int)) by (nonlinear_arith)
                requires
                    clamped <= expected_time * 4,
                    p == (current_target as int) * (clamped as int),
                    current_target >= 1,
            ;
            assert(p / (expected_time as int) <= (current_target as int) * 4) by (nonlinear_arith)
                requires
                    p <= (current_target as int) * 4 * (expected_time as int),
                    expected_time > 0,
                    p >= 0,
            ;
        }
    }
    let capped: u64 = if result <= u64::MAX as u128 {
        result as u64
    } else {
        u64::MAX
    };
    if capped >= MIN_TARGET {
        capped
    } else {
        MIN_TARGET
    }
}

/// Compute the expected difficulty target for the block at `height`.
///
/// `parent_target` is the target of the block at `height - 1`; `get_timestamp`
/// returns the timestamp of the block at a given height. Heights 0 and 1
/// get `MAX_TARGET`.
pub fn target_for_height<F: Fn(u64) -> u64>(height: u64, parent_target: u64, get_timestamp: F) -> (r: u64)
    requires
        forall|h: u64| h < height ==> call_requires(get_timestamp, (h,)),
    ensures
        height <= 1 ==> r == MAX_TARGET,
        height > 1 ==> exists|ts: Seq<u64>| #[trigger] window_of(get_timestamp, height, ts)
            && r == spec_next_target(ts, parent_target),
{
    target_for_height_with_initial(height, parent_target, get_timestamp, MAX_TARGET)
}

/// The first height of the difficulty window used for the block at `height`.
pub open spec fn window_start(height: u64) -> int {
    if height < DIFFICULTY_WINDOW + 1 {
        0
    } else {
        height - (DIFFICULTY_WINDOW + 1)
    }
}

/// `ts` holds, in order, timestamps that `get_timestamp` may return for each
/// height of the window that ends just below `height`.
pub open spec fn window_of<F: Fn(u64) -> u64>(get_timestamp: F, height: u64, ts: Seq<u64>) -> bool {
    &&& ts.len() == height - window_start(height)
    &&& forall|i: int|
        0 <= i < ts.len() ==> call_ensures(get_timestamp, ((window_start(height) + i) as u64,), #[trigger] ts[i])
}

/// Like [`target_for_height`] but with an explicit initial (genesis) target.
pub fn target_for_height_with_initial<F: Fn(u64) -> u64>(
    height: u64,
    parent_target: u64,
    get_timestamp: F,
    initial_target: u64,
) -> (r: u64)
    requires
        forall|h: u64| h < height ==> call_requires(get_timestamp, (h,)),
    ensures
        height <= 1 ==> r == initial_target,
        height > 1 ==> exists|ts: Seq<u64>| #[trigger] window_of(get_timestamp, height, ts)
            && r == spec_next_target(ts, parent_target),
{
    if height <= 1 {
        return initial_target;
    }
    let num_timestamps = if height < DIFFICULTY_WINDOW + 1 {
        height
    } else {
        DIFFICULTY_WINDOW + 1
    };
    let start = height - num_timestamps;
    let mut timestamps: Vec<u64> = Vec::new();
    let mut h = start;
    while h < height
        invariant
            start <= h <= height,
            start == window_start(height),
            height - start <= DIFFICULTY_WINDOW + 1,
            timestamps@.len() == h - start,
            forall|h2: u64| h2 < height ==> call_requires(get_timestamp, (h2,)),
            forall|i: int|
                0 <= i < timestamps@.len() ==> call_ensures(get_timestamp, ((start + i) as u64,), #[trigger] timestamps@[i]),
        decreases height - h,
    {
        let t = get_timestamp(h);
        timestamps.push(t);
        h = h + 1;
    }
    let r = next_target(timestamps.as_slice(), parent_target);
    assert(window_of(get_timestamp, height, timestamps@));
    r
}

/// Expected total time for the full difficulty window (in seconds).
pub fn expected_window_time() -> (r: u64)
    ensures
        r == DIFFICULTY_WINDOW * BLOCK_TIME_SECS,
{
    DIFFICULTY_WINDOW * BLOCK_TIME_SECS
}

/// The number of timestamp entries used in a full difficulty window.
pub fn full_window_size() -> (r: u64)
    ensures
        r == DIFFICULTY_WINDOW + 1,
{
    DIFFICULTY_WINDOW + 1
}

/// A window that elapsed exactly the expected time leaves the target unchanged
/// (a zero target becomes `MIN_TARGET`).
pub proof fn lemma_on_target_is_stable(ts: Seq<u64>, current: u64)
    requires
        2 <= ts.len() <= u64::MAX / BLOCK_TIME_SECS,
        ts[0] <= ts.last(),
        ts.last() - ts[0] == (ts.len() - 1) * BLOCK_TIME_SECS,
    ensures
        spec_next_target(ts, current) == (if current >= 1 { current } else { MIN_TARGET }),
{
    let expected = (ts.len() - 1) * BLOCK_TIME_SECS;
    assert(expected / 4 <= expected);
    assert(expected <= expected * 4);
    assert((current as int) * expected <= u128::MAX) by (nonlinear_arith)
        requires
            current <= u64::MAX,
            expected <= u64::MAX,
    ;
    assert(((current as int) * expected) / expected == current) by (nonlinear_arith)
        requires
            expected > 0,
    ;
}

/// Slower windows never produce a harder (lower) target than faster ones.
pub proof fn lemma_next_target_monotone_in_time(ts1: Seq<u64>, ts2: Seq<u64>, current: u64)
    requires
        2 <= ts1.len(),
        ts1.len() == ts2.len(),
        ts1.len() <= u64::MAX / BLOCK_TIME_SECS,
        sat_sub(ts1.last() as int, ts1[0] as int) <= sat_sub(ts2.last() as int, ts2[0] as int),
    ensures
        spec_next_target(ts1, current) <= spec_next_target(ts2, current),
{
    let expected = (ts1.len() - 1) * BLOCK_TIME_SECS;
    let a1 = sat_sub(ts1.last() as int, ts1[0] as int);
    let a2 = sat_sub(ts2.last() as int, ts2[0] as int);
    let max_time = if expected * 4 <= u64::MAX {
        expected * 4
    } else {
        u64::MAX as int
    };
    let c1 = clamp(a1, expected / 4, max_time);
    let c2 = clamp(a2, expected / 4, max_time);
    assert(c1 <= c2);
    assert(c1 <= u64::MAX && c2 <= u64::MAX);
    assert((current as int) * c1 <= (current as int) * c2) by (nonlinear_arith)
        requires
            c1 <= c2,
            current >= 0,
    ;
    assert((current as int) * c2 <= u128::MAX) by (nonlinear_arith)
        requires
            current <= u64::MAX,
            0 <= c2 <= u64::MAX,
    ;
    assert(((current as int) * c1) / expected <= ((current as int) * c2) / expected) by (nonlinear_arith)
        requires
            (current as int) * c1 <= (current as int) * c2,
            expected > 0,
            c1 >= 0,
            current >= 0,
    ;
}

} // verus!
