use rill::decay::sigmoid::{SIGMOID_PRECISION, SIGMOID_TABLE, TABLE_STEP, sigmoid_positive};
#[test]
fn sigmoid_at_zero() {
    assert_eq!(sigmoid_positive(0), 500_000_000);
}

#[test]
fn sigmoid_at_half() {
    // x=0.5 → x_scaled = 500_000_000
    assert_eq!(sigmoid_positive(500_000_000), 622_459_331);
}

#[test]
fn sigmoid_at_one() {
    // x=1.0 → x_scaled = 1_000_000_000
    assert_eq!(sigmoid_positive(1_000_000_000), 731_058_579);
}

#[test]
fn sigmoid_at_two() {
    // x=2.0 → x_scaled = 2_000_000_000
    assert_eq!(sigmoid_positive(2_000_000_000), 880_797_078);
}

#[test]
fn sigmoid_at_table_max() {
    // x=8.0 → x_scaled = 8_000_000_000
    assert_eq!(sigmoid_positive(8_000_000_000), 999_664_650);
}

#[test]
fn sigmoid_beyond_table_saturates() {
    assert_eq!(sigmoid_positive(100_000_000_000), 999_664_650);
    assert_eq!(sigmoid_positive(u128::MAX / 2), 999_664_650);
}

#[test]
fn sigmoid_monotonically_increasing_at_steps() {
    for i in 1..SIGMOID_TABLE.len() {
        assert!(
            SIGMOID_TABLE[i] > SIGMOID_TABLE[i - 1],
            "table not monotonic at index {i}"
        );
    }
}

#[test]
fn sigmoid_interpolation_midpoint() {
    // Midpoint between table[0] (x=0) and table[1] (x=0.5)
    // x=0.25 → x_scaled = 250_000_000
    let val = sigmoid_positive(250_000_000);
    let expected = SIGMOID_TABLE[0] + (SIGMOID_TABLE[1] - SIGMOID_TABLE[0]) / 2;
    assert_eq!(val, expected);
}

#[test]
fn sigmoid_interpolation_quarter() {
    // Quarter point between table[0] and table[1]
    // x=0.125 → x_scaled = 125_000_000
    let val = sigmoid_positive(125_000_000);
    let expected = SIGMOID_TABLE[0] + (SIGMOID_TABLE[1] - SIGMOID_TABLE[0]) / 4;
    assert_eq!(val, expected);
}

#[test]
fn sigmoid_all_table_entries_exact() {
    for (i, &expected) in SIGMOID_TABLE.iter().enumerate() {
        let x_scaled = i as u128 * TABLE_STEP as u128;
        assert_eq!(
            sigmoid_positive(x_scaled),
            expected,
            "mismatch at table index {i}"
        );
    }
}

#[test]
fn sigmoid_symmetry_property() {
    // sigmoid(-x) = 1 - sigmoid(x)
    let sig_pos = sigmoid_positive(1_000_000_000);
    let sig_neg = SIGMOID_PRECISION - sig_pos;
    assert_eq!(sig_neg, SIGMOID_PRECISION - 731_058_579);
}

#[test]
fn sigmoid_table_values_within_bounds() {
    for (i, &val) in SIGMOID_TABLE.iter().enumerate() {
        assert!(val >= 500_000_000, "sigmoid below 0.5 at index {i}");
        assert!(val <= SIGMOID_PRECISION, "sigmoid above 1.0 at index {i}");
    }
}

// --- sampled properties ---

fn samples(limit: u128) -> Vec<u128> {
    let mut v = Vec::new();
    let mut x: u128 = 0;
    let mut step: u128 = 1;
    while x < limit {
        v.push(x);
        x += step;
        step = step * 3 + 7;
    }
    for i in 0..=40u128 {
        v.push(i * (limit / 40));
        v.push(i * (limit / 40) + 1);
    }
    v
}

#[test]
fn sigmoid_always_in_bounds() {
    for x in samples(20_000_000_000) {
        let result = sigmoid_positive(x);
        assert!(result >= SIGMOID_TABLE[0]);
        assert!(result <= *SIGMOID_TABLE.last().unwrap());
    }
}

#[test]
fn sigmoid_monotonic() {
    let xs = samples(10_000_000_000);
    for &a in &xs {
        for &b in xs.iter().step_by(7) {
            let (lo, hi) = if a <= b { (a, b) } else { (b, a) };
            assert!(
                sigmoid_positive(lo) <= sigmoid_positive(hi),
                "sigmoid not monotonic: f({}) = {} > f({}) = {}",
                lo,
                sigmoid_positive(lo),
                hi,
                sigmoid_positive(hi)
            );
        }
    }
}

#[test]
fn sigmoid_deterministic() {
    for x in samples(20_000_000_000) {
        assert_eq!(sigmoid_positive(x), sigmoid_positive(x));
    }
}
