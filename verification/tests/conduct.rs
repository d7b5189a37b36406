use rill::conduct::{VELOCITY_BASELINE_MAX_EPOCHS, VelocityBaseline, compute_raw_score, contract_fulfilment_score, dispute_rate_score, isqrt, peer_review_score, score_to_multiplier_bps, smooth_score, velocity_anomaly_score, wallet_age_score};
// --- contract_fulfilment_score ---

#[test]
fn contract_fulfilment_score_no_contracts() {
    assert_eq!(contract_fulfilment_score(0, 0), 500);
}

#[test]
fn contract_fulfilment_score_perfect() {
    assert_eq!(contract_fulfilment_score(10, 10), 1000);
}

#[test]
fn contract_fulfilment_score_half() {
    assert_eq!(contract_fulfilment_score(5, 10), 500);
}

#[test]
fn contract_fulfilment_score_none_fulfilled() {
    assert_eq!(contract_fulfilment_score(0, 10), 0);
}

#[test]
fn contract_fulfilment_score_never_exceeds_1000() {
    // fulfilled > total would be a protocol bug, but saturate safely.
    assert!(contract_fulfilment_score(20, 10) <= 1000);
}

// --- dispute_rate_score ---

#[test]
fn dispute_rate_score_no_contracts() {
    assert_eq!(dispute_rate_score(0, 0), 500);
}

#[test]
fn dispute_rate_score_no_disputes() {
    assert_eq!(dispute_rate_score(0, 10), 1000);
}

#[test]
fn dispute_rate_score_all_disputed() {
    assert_eq!(dispute_rate_score(10, 10), 0);
}

#[test]
fn dispute_rate_score_half_disputed() {
    assert_eq!(dispute_rate_score(5, 10), 500);
}

// --- peer_review_score ---

#[test]
fn peer_review_score_no_reviews() {
    assert_eq!(peer_review_score(0, 0), 500);
}

#[test]
fn peer_review_score_perfect_ten() {
    // 10 reviews all scoring 10 → sum = 100, avg = 10, score = 1000.
    assert_eq!(peer_review_score(100, 10), 1000);
}

#[test]
fn peer_review_score_minimum_one() {
    // 10 reviews all scoring 1 → sum = 10, avg = 1, score = 0.
    assert_eq!(peer_review_score(10, 10), 0);
}

#[test]
fn peer_review_score_midpoint() {
    // 10 reviews with avg 5.5 → sum = 55, expected ≈ 500.
    let mid = peer_review_score(55, 10);
    assert!(mid >= 490 && mid <= 510, "expected ~500 got {mid}");
}

#[test]
fn peer_review_score_single_review() {
    // 1 review scoring 5 → avg = 5, score = (5-1)*1000/9 = 444.
    let s = peer_review_score(5, 1);
    assert_eq!(s, 444);
}

// --- score_to_multiplier_bps ---

#[test]
fn multiplier_bps_top_bracket() {
    assert_eq!(score_to_multiplier_bps(1000), 5_000);
    assert_eq!(score_to_multiplier_bps(900), 5_000);
}

#[test]
fn multiplier_bps_second_bracket() {
    assert_eq!(score_to_multiplier_bps(899), 7_500);
    assert_eq!(score_to_multiplier_bps(750), 7_500);
}

#[test]
fn multiplier_bps_third_bracket() {
    assert_eq!(score_to_multiplier_bps(749), 10_000);
    assert_eq!(score_to_multiplier_bps(600), 10_000);
}

#[test]
fn multiplier_bps_fourth_bracket() {
    assert_eq!(score_to_multiplier_bps(599), 15_000);
    assert_eq!(score_to_multiplier_bps(500), 15_000);
}

#[test]
fn multiplier_bps_fifth_bracket() {
    assert_eq!(score_to_multiplier_bps(499), 20_000);
    assert_eq!(score_to_multiplier_bps(350), 20_000);
}

#[test]
fn multiplier_bps_sixth_bracket() {
    assert_eq!(score_to_multiplier_bps(349), 25_000);
    assert_eq!(score_to_multiplier_bps(200), 25_000);
}

#[test]
fn multiplier_bps_bottom_bracket() {
    assert_eq!(score_to_multiplier_bps(199), 30_000);
    assert_eq!(score_to_multiplier_bps(0), 30_000);
}

#[test]
fn multiplier_bps_boundaries_are_correct() {
    // Verify every boundary transitions to the right bracket.
    let cases: &[(u16, u64)] = &[
        (900, 5_000),
        (899, 7_500),
        (750, 7_500),
        (749, 10_000),
        (600, 10_000),
        (599, 15_000),
        (500, 15_000),
        (499, 20_000),
        (350, 20_000),
        (349, 25_000),
        (200, 25_000),
        (199, 30_000),
    ];
    for &(score, expected_bps) in cases {
        assert_eq!(
            score_to_multiplier_bps(score),
            expected_bps,
            "score={score}"
        );
    }
}

// --- VelocityBaseline::push_epoch / rolling window ---

#[test]
fn push_epoch_accumulates_correctly() {
    let mut b = VelocityBaseline::new();
    b.push_epoch(100);
    b.push_epoch(200);
    b.push_epoch(300);
    assert_eq!(b.epoch_count(), 3);
    assert_eq!(b.sum, 600);
    assert_eq!(b.mean(), 200);
}

#[test]
fn push_epoch_rolling_window_evicts_oldest() {
    let mut b = VelocityBaseline::new();
    // Fill the window completely.
    for i in 0..VELOCITY_BASELINE_MAX_EPOCHS {
        b.push_epoch(i as u64);
    }
    assert_eq!(b.epoch_count(), VELOCITY_BASELINE_MAX_EPOCHS);

    // Push one more — the oldest (0) should be evicted.
    b.push_epoch(999);
    assert_eq!(b.epoch_count(), VELOCITY_BASELINE_MAX_EPOCHS);
    assert_eq!(b.epoch_volumes[0], 1); // formerly index 1
    assert_eq!(*b.epoch_volumes.last().unwrap(), 999);

    // Running sum must be consistent with the stored volumes.
    let expected_sum: u64 = b.epoch_volumes.iter().sum();
    assert_eq!(b.sum, expected_sum);
}

#[test]
fn push_epoch_running_sum_squares_consistent() {
    let mut b = VelocityBaseline::new();
    for v in [10u64, 20, 30, 40, 50] {
        b.push_epoch(v);
    }
    let expected: u128 = b
        .epoch_volumes
        .iter()
        .map(|&v| (v as u128) * (v as u128))
        .sum();
    assert_eq!(b.sum_squares, expected);
}

#[test]
fn push_epoch_eviction_keeps_sum_squares_consistent() {
    let mut b = VelocityBaseline::new();
    for i in 0..VELOCITY_BASELINE_MAX_EPOCHS {
        b.push_epoch((i as u64) * 10);
    }
    b.push_epoch(12345);

    let expected_sq: u128 = b
        .epoch_volumes
        .iter()
        .map(|&v| (v as u128) * (v as u128))
        .sum();
    assert_eq!(b.sum_squares, expected_sq);
}

// --- mean / variance / stddev ---

#[test]
fn mean_empty_is_zero() {
    assert_eq!(VelocityBaseline::new().mean(), 0);
}

#[test]
fn variance_empty_is_zero() {
    assert_eq!(VelocityBaseline::new().variance(), 0);
}

#[test]
fn variance_uniform_is_zero() {
    let mut b = VelocityBaseline::new();
    for _ in 0..10 {
        b.push_epoch(500);
    }
    assert_eq!(b.variance(), 0);
    assert_eq!(b.stddev_approx(), 0);
}

#[test]
fn variance_known_values() {
    // volumes: 0, 200 → mean=100, var=(0+40000)/2 - 10000 = 10000
    let mut b = VelocityBaseline::new();
    b.push_epoch(0);
    b.push_epoch(200);
    assert_eq!(b.mean(), 100);
    assert_eq!(b.variance(), 10_000);
    assert_eq!(b.stddev_approx(), 100);
}

#[test]
fn stddev_perfect_square() {
    // volumes: 0, 0, 200, 200 → mean=100
    // sum_sq = 2*(0^2) + 2*(200^2) = 80000
    // sq_mean = 80000/4 = 20000
    // mean_sq = 100^2 = 10000
    // variance = 10000, stddev = 100
    let mut b = VelocityBaseline::new();
    for _ in 0..2 {
        b.push_epoch(0);
        b.push_epoch(200);
    }
    assert_eq!(b.variance(), 10_000);
    assert_eq!(b.stddev_approx(), 100);
}

// --- is_anomalous ---

#[test]
fn is_anomalous_insufficient_data_returns_false() {
    let mut b = VelocityBaseline::new();
    for _ in 0..9 {
        b.push_epoch(100);
    }
    // Only 9 epochs — below the minimum.
    assert!(!b.is_anomalous(9_999_999));
}

#[test]
fn is_anomalous_normal_volume_returns_false() {
    let mut b = VelocityBaseline::new();
    for _ in 0..10 {
        b.push_epoch(100);
    }
    // Exactly at the mean — not anomalous.
    assert!(!b.is_anomalous(100));
}

#[test]
fn is_anomalous_high_volume_returns_true() {
    let mut b = VelocityBaseline::new();
    // Mean = 100, stddev = 0 (all identical).
    // Threshold = 100 + 3*0 = 100. Anything > 100 is anomalous.
    for _ in 0..10 {
        b.push_epoch(100);
    }
    assert!(b.is_anomalous(101));
    assert!(b.is_anomalous(10_000));
}

#[test]
fn is_anomalous_exactly_at_threshold_is_not_anomalous() {
    let mut b = VelocityBaseline::new();
    for _ in 0..10 {
        b.push_epoch(100);
    }
    // stddev == 0, threshold == 100. Volume == 100 is NOT > threshold.
    assert!(!b.is_anomalous(100));
}

#[test]
fn is_anomalous_with_nonzero_stddev() {
    let mut b = VelocityBaseline::new();
    // Add 10 epochs: 5 × 0, 5 × 200 → mean=100, variance=10000, stddev=100.
    for _ in 0..5 {
        b.push_epoch(0);
        b.push_epoch(200);
    }
    // threshold = 100 + 3*100 = 400.
    assert!(!b.is_anomalous(400)); // exactly at threshold, not above
    assert!(b.is_anomalous(401));
}

// --- wallet_age_score ---

#[test]
fn wallet_age_score_zero() {
    // log2(0 + 1) = log2(1) = 0 → score = 0
    assert_eq!(wallet_age_score(0), 0);
}

#[test]
fn wallet_age_score_one() {
    // log2(1 + 1) = log2(2) = 1 → score = 150
    assert_eq!(wallet_age_score(1), 150);
}

#[test]
fn wallet_age_score_medium() {
    // log2(100 + 1) = 6 → score = 900
    let s = wallet_age_score(100);
    assert!(s > 0 && s <= 1000);
}

#[test]
fn wallet_age_score_cap() {
    assert_eq!(wallet_age_score(10_000), 1000);
    assert_eq!(wallet_age_score(u64::MAX), 1000);
}

#[test]
fn wallet_age_score_monotone() {
    let ages = [0u64, 1, 3, 7, 15, 31, 63, 127, 255, 511, 1023, 10_000];
    let mut prev = 0u16;
    for &age in &ages {
        let s = wallet_age_score(age);
        assert!(s >= prev, "score should be non-decreasing: age={age}, s={s}, prev={prev}");
        prev = s;
    }
}

// --- velocity_anomaly_score ---

#[test]
fn velocity_anomaly_score_no_baseline() {
    let b = VelocityBaseline::new();
    assert_eq!(velocity_anomaly_score(&b, 0), 500);
    assert_eq!(velocity_anomaly_score(&b, 9_999_999), 500);
}

#[test]
fn velocity_anomaly_score_normal_volume_high_score() {
    let mut b = VelocityBaseline::new();
    for _ in 0..10 {
        b.push_epoch(100);
    }
    // Normal volume at mean (100). stddev=0, upper=100.
    // volume == upper → score = 1000 * 0 / 100 = 0, but clamped to min 1.
    let s = velocity_anomaly_score(&b, 100);
    assert!(s >= 1, "expected >= 1, got {s}");

    // Volume below the mean should score very high (maximum 1000).
    let s_low = velocity_anomaly_score(&b, 0);
    assert_eq!(s_low, 1000);
}

#[test]
fn velocity_anomaly_score_anomalous_returns_zero() {
    let mut b = VelocityBaseline::new();
    for _ in 0..10 {
        b.push_epoch(100);
    }
    // Threshold = 100 + 3*0 = 100. Volume 101 > 100.
    assert_eq!(velocity_anomaly_score(&b, 10_000), 0);
    assert_eq!(velocity_anomaly_score(&b, 101), 0);
}

#[test]
fn velocity_anomaly_score_insufficient_epochs_neutral() {
    let mut b = VelocityBaseline::new();
    for _ in 0..9 {
        b.push_epoch(100);
    }
    assert_eq!(velocity_anomaly_score(&b, 10_000), 500);
}

// --- compute_raw_score ---

#[test]
fn compute_raw_score_all_neutral() {
    assert_eq!(compute_raw_score(500, 500, 500, 500, 500), 500);
}

#[test]
fn compute_raw_score_all_perfect() {
    assert_eq!(compute_raw_score(1000, 1000, 1000, 1000, 1000), 1000);
}

#[test]
fn compute_raw_score_all_terrible() {
    assert_eq!(compute_raw_score(0, 0, 0, 0, 0), 0);
}

#[test]
fn compute_raw_score_weights_sum_to_100() {
    // With score 1 for one signal and 0 for the rest the result should
    // equal the weight of that signal divided by 100 (integer division).
    // contract_fulfilment weight = 30 → 1 * 30 / 100 = 0
    assert_eq!(compute_raw_score(1, 0, 0, 0, 0), 0);
    // All-100 → 100 * (30+25+20+15+10) / 100 = 100
    assert_eq!(compute_raw_score(100, 100, 100, 100, 100), 100);
}

#[test]
fn compute_raw_score_mixed_inputs() {
    // contract=1000(30%) + dispute=0(25%) + vel=500(20%) + peer=0(15%) + age=0(10%)
    // = 30000 + 0 + 10000 + 0 + 0 = 40000 / 100 = 400
    assert_eq!(compute_raw_score(1000, 0, 500, 0, 0), 400);
}

// --- smooth_score ---

#[test]
fn smooth_score_no_change() {
    assert_eq!(smooth_score(500, 500), 500);
    assert_eq!(smooth_score(0, 0), 0);
    assert_eq!(smooth_score(1000, 1000), 1000);
}

#[test]
fn smooth_score_weighted_average() {
    // old=500, raw=1000 → (500*85 + 1000*15) / 100 = (42500 + 15000) / 100 = 575
    assert_eq!(smooth_score(500, 1000), 575);
}

#[test]
fn smooth_score_moves_slowly_toward_raw() {
    let s = smooth_score(0, 1000);
    // (0*85 + 1000*15) / 100 = 150
    assert_eq!(s, 150);
}

#[test]
fn smooth_score_clamp_high() {
    // old=1000, raw=1000 → 1000, no overflow.
    assert_eq!(smooth_score(1000, 1000), 1000);
}

#[test]
fn smooth_score_clamp_low() {
    assert_eq!(smooth_score(0, 0), 0);
}

// --- isqrt internal helper ---

#[test]
fn isqrt_known_values() {
    assert_eq!(isqrt(0), 0);
    assert_eq!(isqrt(1), 1);
    assert_eq!(isqrt(4), 2);
    assert_eq!(isqrt(9), 3);
    assert_eq!(isqrt(10_000), 100);
    assert_eq!(isqrt(u64::MAX), 4_294_967_295);
}

#[test]
fn isqrt_floor_property() {
    for n in [2u64, 3, 5, 7, 8, 15, 24, 99, 1000, 999_983] {
        let r = isqrt(n);
        assert!(r * r <= n, "isqrt({n}) = {r}: r^2 > n");
        assert!((r + 1) * (r + 1) > n, "isqrt({n}) = {r}: (r+1)^2 <= n");
    }
}

#[test]
fn dispute_rate_score_floors_at_zero() {
    assert_eq!(dispute_rate_score(66, 1), 0);
    assert_eq!(dispute_rate_score(11, 10), 0);
    assert_eq!(dispute_rate_score(1, 3), 667);
}
