use rill::constants::{BLOCK_TIME_SECS, DIFFICULTY_WINDOW};
use rill::difficulty::{MAX_ADJUSTMENT_FACTOR, MAX_TARGET, MIN_TARGET, expected_window_time, full_window_size, next_target, target_for_height};
// ------------------------------------------------------------------
// Helper: build evenly-spaced timestamps
// ------------------------------------------------------------------

/// Generate `count` timestamps starting at `start`, spaced by `interval` seconds.
fn spaced_timestamps(start: u64, count: usize, interval: u64) -> Vec<u64> {
    (0..count).map(|i| start + i as u64 * interval).collect()
}

// ------------------------------------------------------------------
// next_target — edge cases
// ------------------------------------------------------------------

#[test]
fn next_target_empty_returns_current() {
    assert_eq!(next_target(&[], 1000), 1000);
}

#[test]
fn next_target_single_returns_current() {
    assert_eq!(next_target(&[100], 1000), 1000);
}

// ------------------------------------------------------------------
// next_target — on-target timing
// ------------------------------------------------------------------

#[test]
fn on_target_returns_same_difficulty() {
    // 61 timestamps with exactly 60-second spacing → 60 intervals, 3600s actual = expected
    let ts = spaced_timestamps(1_000_000, 61, BLOCK_TIME_SECS);
    let target = 1_000_000_u64;
    assert_eq!(next_target(&ts, target), target);
}

#[test]
fn on_target_small_window() {
    // 2 timestamps, 1 interval at exact pace
    let ts = vec![100, 100 + BLOCK_TIME_SECS];
    let target = 500_000_u64;
    assert_eq!(next_target(&ts, target), target);
}

// ------------------------------------------------------------------
// next_target — slow blocks → easier (higher target)
// ------------------------------------------------------------------

#[test]
fn slow_blocks_increase_target() {
    // Blocks twice as slow as expected
    let ts = spaced_timestamps(1_000_000, 61, BLOCK_TIME_SECS * 2);
    let target = 1_000_000_u64;
    let new = next_target(&ts, target);
    assert_eq!(new, target * 2);
}

#[test]
fn slow_blocks_three_times() {
    let ts = spaced_timestamps(1_000_000, 61, BLOCK_TIME_SECS * 3);
    let target = 1_000_000_u64;
    let new = next_target(&ts, target);
    assert_eq!(new, target * 3);
}

// ------------------------------------------------------------------
// next_target — fast blocks → harder (lower target)
// ------------------------------------------------------------------

#[test]
fn fast_blocks_decrease_target() {
    // Blocks twice as fast
    let ts = spaced_timestamps(1_000_000, 61, BLOCK_TIME_SECS / 2);
    let target = 1_000_000_u64;
    let new = next_target(&ts, target);
    assert_eq!(new, target / 2);
}

#[test]
fn fast_blocks_three_times() {
    let ts = spaced_timestamps(1_000_000, 61, BLOCK_TIME_SECS / 3);
    let target = 1_200_000_u64; // divisible by 3
    let new = next_target(&ts, target);
    assert_eq!(new, target / 3);
}

// ------------------------------------------------------------------
// next_target — clamping
// ------------------------------------------------------------------

#[test]
fn clamps_max_increase_to_4x() {
    // Blocks 10x slower than expected → clamped to 4x increase
    let ts = spaced_timestamps(1_000_000, 61, BLOCK_TIME_SECS * 10);
    let target = 1_000_000_u64;
    let new = next_target(&ts, target);
    assert_eq!(new, target * MAX_ADJUSTMENT_FACTOR);
}

#[test]
fn clamps_max_decrease_to_quarter() {
    // All same timestamp (instant blocks) → clamped to 1/4 decrease
    let ts = vec![1_000_000; 61];
    let target = 1_000_000_u64;
    let new = next_target(&ts, target);
    assert_eq!(new, target / MAX_ADJUSTMENT_FACTOR);
}

#[test]
fn clamp_at_exact_4x_boundary() {
    // Exactly 4x slower → not clamped, equals 4x
    let ts = spaced_timestamps(1_000_000, 61, BLOCK_TIME_SECS * 4);
    let target = 1_000_000_u64;
    let new = next_target(&ts, target);
    assert_eq!(new, target * 4);
}

#[test]
fn clamp_at_exact_quarter_boundary() {
    // Exactly 4x faster → not clamped, equals 1/4
    let ts = spaced_timestamps(1_000_000, 61, BLOCK_TIME_SECS / 4);
    let target = 1_000_000_u64;
    let new = next_target(&ts, target);
    assert_eq!(new, target / 4);
}

// ------------------------------------------------------------------
// next_target — bounds
// ------------------------------------------------------------------

#[test]
fn result_never_below_min_target() {
    // Very fast blocks with very low current target
    let ts = vec![1_000_000; 61]; // instant
    let new = next_target(&ts, 1); // 1 / 4 = 0, clamped to MIN_TARGET
    assert_eq!(new, MIN_TARGET);
}

#[test]
fn result_never_above_max_target() {
    // Very slow blocks with very high current target
    let ts = spaced_timestamps(1_000_000, 61, BLOCK_TIME_SECS * 10);
    let new = next_target(&ts, u64::MAX);
    assert_eq!(new, MAX_TARGET);
}

#[test]
fn max_target_with_on_target_stays_max() {
    let ts = spaced_timestamps(1_000_000, 61, BLOCK_TIME_SECS);
    assert_eq!(next_target(&ts, MAX_TARGET), MAX_TARGET);
}

#[test]
fn min_target_with_on_target_stays_min() {
    let ts = spaced_timestamps(1_000_000, 61, BLOCK_TIME_SECS);
    assert_eq!(next_target(&ts, MIN_TARGET), MIN_TARGET);
}

// ------------------------------------------------------------------
// next_target — partial windows
// ------------------------------------------------------------------

#[test]
fn two_timestamps_on_target() {
    let ts = vec![1000, 1060]; // 1 interval, 60s
    assert_eq!(next_target(&ts, 500_000), 500_000);
}

#[test]
fn two_timestamps_slow() {
    let ts = vec![1000, 1120]; // 1 interval, 120s (2x slow)
    assert_eq!(next_target(&ts, 500_000), 1_000_000);
}

#[test]
fn two_timestamps_fast() {
    let ts = vec![1000, 1030]; // 1 interval, 30s (2x fast)
    assert_eq!(next_target(&ts, 500_000), 250_000);
}

#[test]
fn ten_timestamps_on_target() {
    // 10 timestamps, 9 intervals, each 60s → 540s actual = expected
    let ts = spaced_timestamps(1000, 10, BLOCK_TIME_SECS);
    assert_eq!(next_target(&ts, 1_000_000), 1_000_000);
}

// ------------------------------------------------------------------
// next_target — proportional adjustment
// ------------------------------------------------------------------

#[test]
fn proportional_increase_half_speed() {
    // 50% slower: each interval 90s instead of 60s
    let ts = spaced_timestamps(1_000_000, 61, 90);
    let target = 2_000_000_u64;
    let new = next_target(&ts, target);
    // actual = 60 * 90 = 5400, expected = 60 * 60 = 3600
    // new = 2_000_000 * 5400 / 3600 = 3_000_000
    assert_eq!(new, 3_000_000);
}

#[test]
fn proportional_decrease_twice_speed() {
    // 50% faster: each interval 30s instead of 60s
    let ts = spaced_timestamps(1_000_000, 61, 30);
    let target = 2_000_000_u64;
    let new = next_target(&ts, target);
    // actual = 60 * 30 = 1800, expected = 60 * 60 = 3600
    // new = 2_000_000 * 1800 / 3600 = 1_000_000
    assert_eq!(new, 1_000_000);
}

// ------------------------------------------------------------------
// next_target — non-uniform spacing
// ------------------------------------------------------------------

#[test]
fn non_uniform_spacing_uses_total_time() {
    // Only the total span matters, not individual intervals
    // Total span = 3600 (same as expected for 60 intervals)
    let mut ts: Vec<u64> = Vec::new();
    ts.push(1_000_000);
    // 59 blocks at 1s intervals
    for i in 1..60 {
        ts.push(1_000_000 + i);
    }
    // Last block jumps to make total span exactly 3600
    ts.push(1_000_000 + 3600);
    assert_eq!(ts.len(), 61);

    let target = 1_000_000_u64;
    assert_eq!(next_target(&ts, target), target);
}

// ------------------------------------------------------------------
// target_for_height
// ------------------------------------------------------------------

#[test]
fn height_zero_returns_max() {
    assert_eq!(target_for_height(0, 1000, |_| 0), MAX_TARGET);
}

#[test]
fn height_one_returns_max() {
    assert_eq!(target_for_height(1, 1000, |_| 0), MAX_TARGET);
}

#[test]
fn height_two_uses_two_timestamps() {
    // Heights 0 and 1, 1 interval
    let target = 500_000_u64;
    let new = target_for_height(2, target, |h| match h {
        0 => 1000,
        1 => 1060, // exactly on target
        _ => panic!("unexpected height {h}"),
    });
    assert_eq!(new, target);
}

#[test]
fn height_two_slow_blocks() {
    let target = 500_000_u64;
    let new = target_for_height(2, target, |h| match h {
        0 => 1000,
        1 => 1120, // 2x slow
        _ => panic!("unexpected height {h}"),
    });
    assert_eq!(new, 1_000_000);
}

#[test]
fn height_grows_window_progressively() {
    // At height 5, window = min(5, 61) = 5 timestamps → 4 intervals
    let target = 1_000_000_u64;
    let new = target_for_height(5, target, |h| {
        assert!(h < 5, "should not request height >= 5");
        // On-target: each block 60s apart, starting at t=1000
        1000 + h * BLOCK_TIME_SECS
    });
    assert_eq!(new, target);
}

#[test]
fn height_uses_full_window_at_steady_state() {
    // At height 100, window = min(100, 61) = 61 timestamps from heights [39..100)
    let target = 1_000_000_u64;
    let new = target_for_height(100, target, |h| {
        assert!(h >= 39 && h < 100, "height {h} out of expected window");
        1000 + h * BLOCK_TIME_SECS
    });
    assert_eq!(new, target);
}

#[test]
fn height_exactly_at_window_boundary() {
    // At height 61, window = min(61, 61) = 61 timestamps from heights [0..61)
    let target = 1_000_000_u64;
    let new = target_for_height(61, target, |h| {
        assert!(h < 61, "height {h} out of expected window");
        1000 + h * BLOCK_TIME_SECS
    });
    assert_eq!(new, target);
}

#[test]
fn height_just_past_window_boundary() {
    // At height 62, window = min(62, 61) = 61 timestamps from heights [1..62)
    let target = 1_000_000_u64;
    let new = target_for_height(62, target, |h| {
        assert!(h >= 1 && h < 62, "height {h} out of expected window");
        1000 + h * BLOCK_TIME_SECS
    });
    assert_eq!(new, target);
}

#[test]
fn target_for_height_slow_steady_state() {
    // Blocks are 2x slow in the full window
    let target = 1_000_000_u64;
    let new = target_for_height(100, target, |h| {
        1000 + h * BLOCK_TIME_SECS * 2
    });
    assert_eq!(new, target * 2);
}

#[test]
fn target_for_height_fast_steady_state() {
    // Blocks are 2x fast in the full window
    let target = 1_000_000_u64;
    let new = target_for_height(100, target, |h| {
        1000 + h * BLOCK_TIME_SECS / 2
    });
    assert_eq!(new, target / 2);
}

// ------------------------------------------------------------------
// Constants and helpers
// ------------------------------------------------------------------

#[test]
fn expected_window_time_value() {
    assert_eq!(expected_window_time(), DIFFICULTY_WINDOW * BLOCK_TIME_SECS);
    assert_eq!(expected_window_time(), 3600);
}

#[test]
fn full_window_size_value() {
    assert_eq!(full_window_size(), DIFFICULTY_WINDOW + 1);
    assert_eq!(full_window_size(), 61);
}

#[test]
fn max_adjustment_factor_value() {
    assert_eq!(MAX_ADJUSTMENT_FACTOR, 4);
}

#[test]
fn min_target_value() {
    assert_eq!(MIN_TARGET, 1);
}

#[test]
fn max_target_value() {
    assert_eq!(MAX_TARGET, u64::MAX);
}

// ------------------------------------------------------------------
// Convergence / stability
// ------------------------------------------------------------------

#[test]
fn converges_to_target_block_time() {
    // Simulate difficulty adjustment over multiple windows.
    // Start with MAX_TARGET and blocks at 30s (2x fast).
    // After one adjustment, target should halve.
    let mut target = MAX_TARGET / 2; // start at half-max to avoid overflow
    let ts_fast = spaced_timestamps(1_000_000, 61, BLOCK_TIME_SECS / 2);
    target = next_target(&ts_fast, target);
    assert_eq!(target, MAX_TARGET / 4);

    // Now simulate on-target blocks — difficulty should stay
    let ts_on = spaced_timestamps(2_000_000, 61, BLOCK_TIME_SECS);
    let stable = next_target(&ts_on, target);
    assert_eq!(stable, target);
}

#[test]
fn repeated_on_target_is_stable() {
    let mut target = 5_000_000_u64;
    for round in 0..10 {
        let ts = spaced_timestamps(1_000_000 + round * 10_000, 61, BLOCK_TIME_SECS);
        target = next_target(&ts, target);
    }
    assert_eq!(target, 5_000_000);
}

#[test]
fn oscillation_dampened_by_clamp() {
    // Even with wild swings, clamp limits each adjustment to 4x
    let target = 1_000_000_u64;

    // Extremely fast window (all same timestamp)
    let ts_instant = vec![1_000_000; 61];
    let after_fast = next_target(&ts_instant, target);
    assert_eq!(after_fast, target / 4);

    // Then extremely slow window
    let ts_slow = spaced_timestamps(2_000_000, 61, BLOCK_TIME_SECS * 100);
    let after_slow = next_target(&ts_slow, after_fast);
    assert_eq!(after_slow, after_fast * 4); // = target (back to original)
}

// ------------------------------------------------------------------
// Integer precision
// ------------------------------------------------------------------

#[test]
fn u128_intermediate_handles_large_target() {
    // MAX_TARGET * 4 would overflow u64 but u128 handles it
    let ts_slow = spaced_timestamps(1_000_000, 61, BLOCK_TIME_SECS * 4);
    let new = next_target(&ts_slow, MAX_TARGET);
    // MAX_TARGET * 4 / 1 overflows u64 but clamped to MAX_TARGET
    assert_eq!(new, MAX_TARGET);
}

#[test]
fn small_target_rounding() {
    // Target = 3, blocks 2x slow → 3 * 2 = 6
    let ts = spaced_timestamps(1000, 61, BLOCK_TIME_SECS * 2);
    assert_eq!(next_target(&ts, 3), 6);
}

#[test]
fn small_target_truncation() {
    // Target = 5, blocks 2x fast → 5 / 2 = 2 (integer truncation)
    let ts = spaced_timestamps(1000, 61, BLOCK_TIME_SECS / 2);
    assert_eq!(next_target(&ts, 5), 2);
}

#[test]
fn target_one_fast_blocks_stays_at_min() {
    // Target = 1, fast blocks → 1 / 4 = 0, clamped to MIN_TARGET = 1
    let ts = vec![1_000_000; 61];
    assert_eq!(next_target(&ts, 1), MIN_TARGET);
}
