//! Proof of Conduct scoring engine.
//!
//! Pure computation with integer-only math. Conduct scores are dimensionless
//! integers in the range `0..=1000`.

use vstd::prelude::*;
use vstd::std_specs::bits::u64_leading_zeros;

use crate::arith::sat_mul_u128;

verus! {

/// Maximum epochs tracked in the velocity baseline rolling window.
pub const VELOCITY_BASELINE_MAX_EPOCHS: usize = 90;

/// Minimum epochs of history required before velocity anomaly detection fires.
pub const VELOCITY_BASELINE_MIN_EPOCHS: usize = 10;

/// Exponential-smoothing weight of the existing score, out of 100.
pub const SMOOTH_OLD_WEIGHT: u16 = 85;

/// Exponential-smoothing weight of the incoming raw score, out of 100.
pub const SMOOTH_NEW_WEIGHT: u16 = 15;

/// Number of standard deviations above the mean that triggers an anomaly.
pub const ANOMALY_STDDEV_THRESHOLD: u64 = 3;

/// The decay multiplier (basis points) of a conduct score.
pub open spec fn spec_multiplier_bps(score: u16) -> u64 {
    if 900 <= score <= 1000 {
        5_000
    } else if 750 <= score <= 899 {
        7_500
    } else if 600 <= score <= 749 {
        10_000
    } else if 500 <= score <= 599 {
        15_000
    } else if 350 <= score <= 499 {
        20_000
    } else if 200 <= score <= 349 {
        25_000
    } else {
        30_000
    }
}

/// Map a conduct score (0–1000) to a decay multiplier in basis points
/// (10 000 BPS = 1.0x). Scores above 1000 fall in the bottom bracket.
pub fn score_to_multiplier_bps(score: u16) -> (r: u64)
    ensures
        r == spec_multiplier_bps(score),
{
    if 900 <= score && score <= 1000 {
        5_000
    } else if 750 <= score && score <= 899 {
        7_500
    } else if 600 <= score && score <= 749 {
        10_000
    } else if 500 <= score && score <= 599 {
        15_000
    } else if 350 <= score && score <= 499 {
        20_000
    } else if 200 <= score && score <= 349 {
        25_000
    } else {
        30_000
    }
}

/// Within the valid score range a better score never yields a larger multiplier.
pub proof fn lemma_multiplier_nonincreasing(a: u16, b: u16)
    requires
        a <= b <= 1000,
    ensures
        spec_multiplier_bps(b) <= spec_multiplier_bps(a),
{
}

/// Sum of a sequence of volumes.
pub open spec fn seq_sum(s: Seq<u64>) -> nat
    decreases s.len(),
{
    if s.len() == 0 {
        0
    } else {
        seq_sum(s.drop_last()) + s.last() as nat
    }
}

/// Sum of the squares of a sequence of volumes.
pub open spec fn seq_sum_sq(s: Seq<u64>) -> nat
    decreases s.len(),
{
    if s.len() == 0 {
        0
    } else {
        seq_sum_sq(s.drop_last()) + (s.last() as nat) * (s.last() as nat)
    }
}

/// The sum of squares is at most the square of the sum; so a window whose
/// sum fits 64 bits has a sum of squares that fits 128 bits.
pub proof fn lemma_sum_sq_bounded(s: Seq<u64>)
    ensures
        seq_sum_sq(s) <= seq_sum(s) * seq_sum(s),
    decreases s.len(),
{
    if s.len() > 0 {
        lemma_sum_sq_bounded(s.drop_last());
        let a = seq_sum(s.drop_last());
        let q = seq_sum_sq(s.drop_last());
        let x = s.last() as nat;
        assert(q + x * x <= (a + x) * (a + x)) by (nonlinear_arith)
            requires
                q <= a * a,
                a >= 0,
                x >= 0,
        ;
    }
}

/// Rolling velocity statistics used for Undertow detection.
#[derive(Debug, Clone, PartialEq, Eq)]
pub struct VelocityBaseline {
    /// Outbound transaction volumes per epoch (last 90 epochs maximum).
    pub epoch_volumes: Vec<u64>,
    /// Running sum of all epoch volumes.
    pub sum: u64,
    /// Running sum of squared volumes.
    pub sum_squares: u128,
}

impl VelocityBaseline {
    /// The baseline's invariants: a bounded window whose running sums are exact.
    pub open spec fn wf(&self) -> bool {
        &&& self.epoch_volumes@.len() <= VELOCITY_BASELINE_MAX_EPOCHS
        &&& self.sum == seq_sum(self.epoch_volumes@)
        &&& self.sum_squares == seq_sum_sq(self.epoch_volumes@)
    }

    /// Create an empty baseline with no history.
    pub fn new() -> (r: Self)
        ensures
            r.epoch_volumes@.len() == 0,
            r.sum == 0,
            r.sum_squares == 0,
            r.wf(),
    {
        VelocityBaseline { epoch_volumes: Vec::new(), sum: 0, sum_squares: 0 }
    }

    /// Record a new epoch volume, evicting the oldest entry (and its
    /// contribution to the running sums) when the window already holds 90.
    pub fn push_epoch(&mut self, volume: u64)
        ensures
            ({
                let full = old(self).epoch_volumes@.len() == VELOCITY_BASELINE_MAX_EPOCHS;
                let kept = if full {
                    old(self).epoch_volumes@.drop_first()
                } else {
                    old(self).epoch_volumes@
                };
                let sum0 = if full {
                    sat_sub(old(self).sum as int, old(self).epoch_volumes@[0] as int)
                } else {
                    old(self).sum as int
                };
                let sq0 = if full {
                    sat_sub(
                        old(self).sum_squares as int,
                        (old(self).epoch_volumes@[0] as int) * (old(self).epoch_volumes@[0] as int),
                    )
                } else {
                    old(self).sum_squares as int
                };
                &&& final(self).epoch_volumes@ == kept.push(volume)
                &&& final(self).sum == sat_add(sum0, volume as int, u64::MAX as int)
                &&& final(self).sum_squares == sat_add(
                    sq0,
                    (volume as int) * (volume as int),
                    u128::MAX as int,
                )
            }),
            old(self).wf() && seq_sum(final(self).epoch_volumes@) <= u64::MAX ==> final(self).wf(),
    {
        let ghost old_v = self.epoch_volumes@;
        if self.epoch_volumes.len() == VELOCITY_BASELINE_MAX_EPOCHS {
            let oldest = self.epoch_volumes.remove(0);
            self.sum = self.sum.saturating_sub(oldest);
            let oldest_sq = sat_mul_u128(oldest as u128, oldest as u128);
            proof {
                assert((oldest as int) * (oldest as int) <= u128::MAX) by (nonlinear_arith)
                    requires
                        oldest <= u64::MAX,
                ;
            }
            self.sum_squares = self.sum_squares.saturating_sub(oldest_sq);
            proof {
                if old(self).wf() {
                    lemma_sum_drop_first(old_v);
                }
            }
        }
        let ghost mid = self.epoch_volumes@;
        self.epoch_volumes.push(volume);
        self.sum = self.sum.saturating_add(volume);
        proof {
            assert((volume as int) * (volume as int) <= u128::MAX) by (nonlinear_arith)
                requires
                    volume <= u64::MAX,
            ;
            assert(self.epoch_volumes@.drop_last() =~= mid);
        }
        let vsq = sat_mul_u128(volume as u128, volume as u128);
        self.sum_squares = self.sum_squares.saturating_add(vsq);
        proof {
            lemma_sum_sq_bounded(self.epoch_volumes@);
            let t = seq_sum(self.epoch_volumes@);
            if t <= u64::MAX {
                assert(t * t <= (u64::MAX as int) * (u64::MAX as int)) by (nonlinear_arith)
                    requires
                        0 <= t <= u64::MAX,
                ;
            }
        }
    }

    /// Number of epochs currently tracked in the rolling window.
    pub fn epoch_count(&self) -> (r: usize)
        ensures
            r == self.epoch_volumes@.len(),
    {
        self.epoch_volumes.len()
    }

    /// Arithmetic mean of the epoch volumes (0 when empty).
    pub fn mean(&self) -> (r: u64)
        ensures
            r == spec_mean(self),
    {
        let count = self.epoch_volumes.len() as u64;
        if count == 0 {
            return 0;
        }
        self.sum / count
    }

    /// Population variance of the epoch volumes: `sum_squares / count - mean^2`,
    /// floored at 0 and capped at `u64::MAX` (0 when empty).
    pub fn variance(&self) -> (r: u64)
        ensures
            r == spec_variance(self),
    {
        let count = self.epoch_volumes.len() as u128;
        if count == 0 {
            return 0;
        }
        let mean_u128 = self.sum as u128 / count;
        let mean_sq = sat_mul_u128(mean_u128, mean_u128);
        proof {
            assert((mean_u128 as int) * (mean_u128 as int) <= u128::MAX) by (nonlinear_arith)
                requires
                    mean_u128 <= u64::MAX,
            ;
        }
        let sq_mean = self.sum_squares / count;
        let variance_u128 = sq_mean.saturating_sub(mean_sq);
        if variance_u128 <= u64::MAX as u128 {
            variance_u128 as u64
        } else {
            u64::MAX
        }
    }

    /// Integer square root of the variance: `r*r <= variance < (r+1)*(r+1)`.
    pub fn stddev_approx(&self) -> (r: u64)
        ensures
            is_floor_sqrt(spec_variance(self) as int, r as int),
    {
        isqrt(self.variance())
    }

    /// Whether `current_volume` exceeds `mean + 3 * stddev` with at least ten
    /// epochs of history.
    pub fn is_anomalous(&self, current_volume: u64) -> (r: bool)
        ensures
            r == (self.epoch_volumes@.len() >= VELOCITY_BASELINE_MIN_EPOCHS && exists|sd: int|
                is_floor_sqrt(spec_variance(self) as int, sd) && current_volume > sat_add(
                    spec_mean(self) as int,
                    sat_mul(ANOMALY_STDDEV_THRESHOLD as int, sd, u64::MAX as int),
                    u64::MAX as int,
                )),
    {
        if self.epoch_count() < VELOCITY_BASELINE_MIN_EPOCHS {
            proof {
                assert(!(self.epoch_volumes@.len() >= VELOCITY_BASELINE_MIN_EPOCHS));
            }
            return false;
        }
        let mean = self.mean();
        let stddev = self.stddev_approx();
        let threshold = mean.saturating_add(crate::arith::sat_mul_u64(ANOMALY_STDDEV_THRESHOLD, stddev));
        proof {
            lemma_floor_sqrt_unique(spec_variance(self) as int, stddev as int);
        }
        current_volume > threshold
    }
}

impl Default for VelocityBaseline {
    fn default() -> (r: Self)
        ensures
            r.epoch_volumes@.len() == 0,
            r.sum == 0,
            r.sum_squares == 0,
    {
        Self::new()
    }
}

/// `a - b` floored at 0.
pub open spec fn sat_sub(a: int, b: int) -> int {
    if a >= b {
        a - b
    } else {
        0
    }
}

/// `a + b` capped at `max`.
pub open spec fn sat_add(a: int, b: int, max: int) -> int {
    if a + b <= max {
        a + b
    } else {
        max
    }
}

/// `a * b` capped at `max`.
pub open spec fn sat_mul(a: int, b: int, max: int) -> int {
    if a * b <= max {
        a * b
    } else {
        max
    }
}

/// The mean computed from the running sum.
pub open spec fn spec_mean(b: &VelocityBaseline) -> u64 {
    if b.epoch_volumes@.len() == 0 {
        0
    } else {
        (b.sum as int / b.epoch_volumes@.len() as int) as u64
    }
}

/// The variance computed from the running sums.
pub open spec fn spec_variance(b: &VelocityBaseline) -> u64 {
    let count = b.epoch_volumes@.len() as int;
    if count == 0 {
        0
    } else {
        let m = b.sum as int / count;
        let v = sat_sub(b.sum_squares as int / count, m * m);
        if v <= u64::MAX {
            v as u64
        } else {
            u64::MAX
        }
    }
}

/// `r` is the integer square root of `n`.
pub open spec fn is_floor_sqrt(n: int, r: int) -> bool {
    0 <= r && r * r <= n < (r + 1) * (r + 1)
}

/// The integer square root is unique.
pub proof fn lemma_floor_sqrt_unique(n: int, r: int)
    requires
        is_floor_sqrt(n, r),
    ensures
        forall|s: int| is_floor_sqrt(n, s) ==> s == r,
{
    assert forall|s: int| is_floor_sqrt(n, s) implies s == r by {
        if s < r {
            assert((s + 1) * (s + 1) <= r * r) by (nonlinear_arith)
                requires
                    0 <= s < r,
            ;
        } else if s > r {
            assert((r + 1) * (r + 1) <= s * s) by (nonlinear_arith)
                requires
                    0 <= r < s,
            ;
        }
    }
}

proof fn lemma_sum_drop_first(s: Seq<u64>)
    requires
        s.len() > 0,
    ensures
        seq_sum(s) == s[0] + seq_sum(s.drop_first()),
        seq_sum_sq(s) == (s[0] as nat) * (s[0] as nat) + seq_sum_sq(s.drop_first()),
    decreases s.len(),
{
    if s.len() > 1 {
        lemma_sum_drop_first(s.drop_last());
        assert(s.drop_last().drop_first() =~= s.drop_first().drop_last());
        assert(s.drop_first().last() == s.last());
        assert(s.drop_last()[0] == s[0]);
        assert(seq_sum(s) == seq_sum(s.drop_last()) + s.last() as nat);
        assert(seq_sum(s.drop_first()) == seq_sum(s.drop_first().drop_last()) + s.last() as nat);
        assert(seq_sum_sq(s.drop_first()) == seq_sum_sq(s.drop_first().drop_last()) + (
        s.last() as nat) * (s.last() as nat));
    } else {
        assert(s.drop_last().len() == 0);
        assert(s.drop_first().len() == 0);
        assert(seq_sum(s.drop_last()) == 0);
        assert(seq_sum(s.drop_first()) == 0);
        assert(seq_sum_sq(s.drop_last()) == 0);
        assert(seq_sum_sq(s.drop_first()) == 0);
        assert(s.last() == s[0]);
    }
}

/// Wallet age score: `min(1000, ilog2(age_in_epochs + 1) * 150)`, where
/// `ilog2` is the position of the highest set bit.
pub open spec fn spec_wallet_age_score(age_in_epochs: u64) -> u16 {
    let arg = if age_in_epochs < u64::MAX {
        age_in_epochs + 1
    } else {
        u64::MAX as int
    };
    let log2 = 63 - u64_leading_zeros(arg as u64);
    if log2 * 150 <= 1000 {
        (log2 * 150) as u16
    } else {
        1000
    }
}

/// Wallet age score: logarithmic credit for wallet longevity.
pub fn wallet_age_score(age_in_epochs: u64) -> (r: u16)
    ensures
        r == spec_wallet_age_score(age_in_epochs),
        r <= 1000,
{
    let arg = age_in_epochs.saturating_add(1);
    let lz = arg.leading_zeros();
    proof {
        vstd::std_specs::bits::axiom_u64_leading_zeros(arg);
    }
    let log2 = u64::BITS - lz - 1;
    let raw = crate::arith::sat_mul_u64(log2 as u64, 150);
    if raw <= 1000 {
        raw as u16
    } else {
        1000
    }
}

proof fn lemma_leading_zeros_antitone(a: u64, b: u64)
    requires
        a <= b,
    ensures
        u64_leading_zeros(b) <= u64_leading_zeros(a),
    decreases b,
{
    reveal(u64_leading_zeros);
    if a == 0 {
        vstd::std_specs::bits::axiom_u64_leading_zeros(b);
    } else {
        lemma_leading_zeros_antitone(a / 2, b / 2);
    }
}

/// The wallet age score never decreases as the wallet ages.
pub proof fn lemma_wallet_age_score_monotone(a: u64, b: u64)
    requires
        a <= b,
    ensures
        spec_wallet_age_score(a) <= spec_wallet_age_score(b),
{
    let xa: u64 = if a < u64::MAX { (a + 1) as u64 } else { u64::MAX };
    let xb: u64 = if b < u64::MAX { (b + 1) as u64 } else { u64::MAX };
    lemma_leading_zeros_antitone(xa, xb);
    vstd::std_specs::bits::axiom_u64_leading_zeros(xa);
    vstd::std_specs::bits::axiom_u64_leading_zeros(xb);
    let la = 63 - u64_leading_zeros(xa);
    let lb = 63 - u64_leading_zeros(xb);
    assert(la * 150 <= lb * 150) by (nonlinear_arith)
        requires
            la <= lb,
    ;
}

/// Contract fulfilment rate score: 500 with no contracts, otherwise
/// `min(1000, fulfilled * 1000 / total)` (the product saturating).
pub fn contract_fulfilment_score(fulfilled: u64, total: u64) -> (r: u16)
    ensures
        total == 0 ==> r == 500,
        total != 0 ==> r == spec_min(sat_mul(fulfilled as int, 1000, u64::MAX as int) / total as int, 1000),
        r <= 1000,
{
    if total == 0 {
        return 500;
    }
    let score = crate::arith::sat_mul_u64(fulfilled, 1000) / total;
    if score <= 1000 {
        score as u16
    } else {
        1000
    }
}

/// `min(a, b)`.
pub open spec fn spec_min(a: int, b: int) -> int {
    if a <= b {
        a
    } else {
        b
    }
}

/// Dispute rate score: 500 with no contracts, otherwise `1000` minus the
/// dispute ratio in thousandths, floored at 0 (more disputes than contracts
/// give 0).
pub fn dispute_rate_score(disputed: u64, total: u64) -> (r: u16)
    ensures
        total == 0 ==> r == 500,
        total != 0 ==> r == sat_sub(1000, sat_mul(disputed as int, 1000, u64::MAX as int) / total as int),
        r <= 1000,
{
    if total == 0 {
        return 500;
    }
    let dispute_ratio = crate::arith::sat_mul_u64(disputed, 1000) / total;
    if dispute_ratio >= 1000 {
        0
    } else {
        1000u16 - dispute_ratio as u16
    }
}

/// Peer review score: 500 with no reviews, otherwise the average review on
/// the 1–10 scale mapped linearly onto 0–1000 (in integer steps).
pub fn peer_review_score(review_sum: u64, review_count: u64) -> (r: u16)
    ensures
        review_count == 0 ==> r == 500,
        review_count != 0 ==> r == spec_min(
            sat_mul(
                sat_sub(sat_mul(review_sum as int, 100, u64::MAX as int) / review_count as int, 100),
                1000,
                u64::MAX as int,
            ) / 900,
            1000,
        ),
        r <= 1000,
{
    if review_count == 0 {
        return 500;
    }
    let avg_x100 = crate::arith::sat_mul_u64(review_sum, 100) / review_count;
    let score = crate::arith::sat_mul_u64(avg_x100.saturating_sub(100), 1000) / 900;
    if score <= 1000 {
        score as u16
    } else {
        1000
    }
}

/// Velocity anomaly score: 500 with fewer than ten epochs of history, 0 for
/// an anomalous volume, otherwise `max(1, min(1000, 1000 * (upper - volume) / upper))`
/// where `upper = mean + 3 * stddev` (1000 when `upper` is 0).
pub fn velocity_anomaly_score(baseline: &VelocityBaseline, current_volume: u64) -> (r: u16)
    ensures
        baseline.epoch_volumes@.len() < VELOCITY_BASELINE_MIN_EPOCHS ==> r == 500,
        baseline.epoch_volumes@.len() >= VELOCITY_BASELINE_MIN_EPOCHS ==> exists|sd: int|
            is_floor_sqrt(spec_variance(baseline) as int, sd) && r == spec_velocity_score(
                sat_add(
                    spec_mean(baseline) as int,
                    sat_mul(ANOMALY_STDDEV_THRESHOLD as int, sd, u64::MAX as int),
                    u64::MAX as int,
                ),
                current_volume as int,
            ),
        r <= 1000,
{
    if baseline.epoch_count() < VELOCITY_BASELINE_MIN_EPOCHS {
        return 500;
    }
    let mean = baseline.mean();
    let stddev = baseline.stddev_approx();
    let upper = mean.saturating_add(crate::arith::sat_mul_u64(ANOMALY_STDDEV_THRESHOLD, stddev));
    if current_volume > upper {
        return 0;
    }
    if upper == 0 {
        return 1000;
    }
    let numerator = (upper - current_volume) as u128 * 1000;
    let q = numerator / upper as u128;
    let score: u16 = if q <= 1000 {
        q as u16
    } else {
        1000
    };
    if score >= 1 {
        score
    } else {
        1
    }
}

/// The velocity score for an anomaly threshold `upper` and a volume.
pub open spec fn spec_velocity_score(upper: int, volume: int) -> u16 {
    if volume > upper {
        0
    } else if upper == 0 {
        1000
    } else {
        let s = spec_min((upper - volume) * 1000 / upper, 1000);
        if s >= 1 {
            s as u16
        } else {
            1
        }
    }
}

/// The velocity score falls in proportion to the volume: an anomalous
/// volume (above `upper`) scores 0; otherwise, for `upper > 0`, the score `s`
/// lies in `[1, 1000]` and is `1000 * (upper - volume) / upper` rounded down
/// (`s * upper <= 1000 * (upper - volume) < (s + 1) * upper`), raised to 1
/// where that quotient is 0. So a zero volume scores 1000, half of `upper`
/// scores 500, and a larger volume never scores more.
pub proof fn lemma_velocity_score_proportional(upper: int, volume: int, other: int)
    requires
        0 <= volume,
    ensures
        volume > upper ==> spec_velocity_score(upper, volume) == 0,
        0 < upper && volume <= upper ==> {
            let s = spec_velocity_score(upper, volume) as int;
            &&& 1 <= s <= 1000
            &&& 1000 * (upper - volume) < (s + 1) * upper
            &&& (s * upper <= 1000 * (upper - volume) || (s == 1 && 1000 * (upper - volume) < upper))
        },
        0 < upper && volume <= other ==> spec_velocity_score(upper, other) <= spec_velocity_score(
            upper,
            volume,
        ),
{
    if 0 < upper && volume <= upper {
        let x = (upper - volume) * 1000;
        let q = x / upper;
        assert(q * upper <= x < (q + 1) * upper && q <= 1000) by (nonlinear_arith)
            requires
                0 < upper,
                0 <= x <= 1000 * upper,
                q == x / upper,
        ;
    }
    if 0 < upper && volume <= other && other <= upper {
        let x1 = (upper - volume) * 1000;
        let x2 = (upper - other) * 1000;
        assert(x2 / upper <= x1 / upper) by (nonlinear_arith)
            requires
                0 < upper,
                0 <= x2 <= x1,
        ;
    }
}

/// The weighted raw conduct score: 30% fulfilment, 25% dispute rate,
/// 20% velocity, 15% peer review, 10% wallet age, capped at 1000.
pub open spec fn spec_raw_score(c: u16, d: u16, v: u16, p: u16, w: u16) -> u16 {
    spec_min((c * 30 + d * 25 + v * 20 + p * 15 + w * 10) / 100, 1000) as u16
}

/// Compute the raw conduct score from individual signal scores.
pub fn compute_raw_score(
    contract_fulfilment: u16,
    dispute_rate: u16,
    velocity_anomaly: u16,
    peer_review: u16,
    wallet_age: u16,
) -> (r: u16)
    ensures
        r == spec_raw_score(contract_fulfilment, dispute_rate, velocity_anomaly, peer_review, wallet_age),
        r <= 1000,
{
    let weighted_sum: u64 = (contract_fulfilment as u64) * 30 + (dispute_rate as u64) * 25
        + (velocity_anomaly as u64) * 20 + (peer_review as u64) * 15 + (wallet_age as u64) * 10;
    let score = weighted_sum / 100;
    if score <= 1000 {
        score as u16
    } else {
        1000
    }
}

/// Exponential smoothing: `min(1000, (old * 85 + raw * 15) / 100)`.
pub fn smooth_score(old_score: u16, raw_score: u16) -> (r: u16)
    ensures
        r == spec_min((old_score * 85 + raw_score * 15) / 100, 1000),
        old_score <= 1000 && raw_score <= 1000 ==> spec_min(old_score as int, raw_score as int) <= r
            <= if old_score <= raw_score { raw_score } else { old_score },
{
    assert(SMOOTH_OLD_WEIGHT as u32 == 85 && SMOOTH_NEW_WEIGHT as u32 == 15);
    let blended = (old_score as u32) * (SMOOTH_OLD_WEIGHT as u32) + (raw_score as u32) * (
    SMOOTH_NEW_WEIGHT as u32);
    let result = blended / 100;
    if result <= 1000 {
        result as u16
    } else {
        1000
    }
}

/// Compute `floor(sqrt(n))` using Newton's method from an overestimate.
pub fn isqrt(n: u64) -> (r: u64)
    ensures
        is_floor_sqrt(n as int, r as int),
{
    if n == 0 {
        return 0;
    }
    if n == 1 {
        return 1;
    }
    let bits = 64 - n.leading_zeros();
    let half = (bits + 1) / 2;
    proof {
        lemma_initial_estimate(n);
    }
    let mut x: u64 = 1u64 << half;
    loop
        invariant
            n >= 2,
            1 <= x <= 0x1_0000_0000,
            (n as int) < (x as int + 1) * (x as int + 1),
        decreases x,
    {
        proof {
            lemma_quotient_bound(n as int, x as int);
        }
        let x_next = (x + n / x) / 2;
        proof {
            lemma_newton_step(n as int, x as int, (n / x) as int, x_next as int);
        }
        if x_next >= x {
            return x;
        }
        x = x_next;
    }
}

/// The starting estimate `2^ceil(bits/2)` is at most `2^32` and above `sqrt(n)`.
proof fn lemma_initial_estimate(n: u64)
    requires
        n >= 2,
    ensures
        ({
            let bits = 64 - u64_leading_zeros(n);
            let half = (bits + 1) / 2;
            &&& 1 <= half <= 32
            &&& (1u64 << (half as u64)) <= 0x1_0000_0000
            &&& 1 <= (1u64 << (half as u64))
            &&& (n as int) < ((1u64 << (half as u64)) as int + 1) * ((1u64 << (half as u64)) as int + 1)
        }),
{
    vstd::std_specs::bits::axiom_u64_leading_zeros(n);
    let lz = u64_leading_zeros(n);
    let bits = 64 - lz;
    let half = (bits + 1) / 2;
    assert(1 <= bits <= 64);
    let h = half as u64;
    let b = bits as u64;
    assert(n >> ((64 - lz) as u64) == 0);
    assert(b >= 2 || n < 2) by {
        if b <= 1 {
            assert(n >> b == 0 && b <= 1 ==> n < 2) by (bit_vector);
        }
    }
    assert(1 <= h <= 32);
    assert(h == (b + 1) / 2);
    assert(n >> b == 0 && 1 <= b <= 64 && h == (b + 1) / 2 ==> (n as u128) < ((1u64 << h) as u128
        + 1) * ((1u64 << h) as u128 + 1)) by (bit_vector);
    assert(1 <= h <= 32 ==> (1u64 << h) <= 0x1_0000_0000u64 && 1u64 <= (1u64 << h)) by (bit_vector);
}

/// With `n < (x+1)^2` the quotient `n / x` is at most `x + 2`, so the Newton
/// step does not overflow.
proof fn lemma_quotient_bound(n: int, x: int)
    requires
        1 <= x <= 0x1_0000_0000,
        0 <= n < (x + 1) * (x + 1),
    ensures
        n / x <= x + 2,
        x + n / x <= u64::MAX,
{
    vstd::arithmetic::div_mod::lemma_fundamental_div_mod(n, x);
    vstd::arithmetic::div_mod::lemma_mod_bound(n, x);
    let q = n / x;
    assert(q <= x + 2) by (nonlinear_arith)
        requires
            n == x * q + n % x,
            0 <= n % x < x,
            n < (x + 1) * (x + 1),
            x >= 1,
    ;
}

/// One Newton step keeps the estimate above the root, and it only stops
/// (`x_next >= x`) at the root itself.
proof fn lemma_newton_step(n: int, x: int, q: int, x_next: int)
    requires
        1 <= x,
        n >= 2,
        q == n / x,
        x_next == (x + q) / 2,
        n < (x + 1) * (x + 1),
    ensures
        n < (x_next + 1) * (x_next + 1),
        x_next >= 1,
        x_next >= x ==> x * x <= n,
        x_next < x || x_next >= x,
{
    vstd::arithmetic::div_mod::lemma_fundamental_div_mod(n, x);
    vstd::arithmetic::div_mod::lemma_mod_bound(n, x);
    let r = n % x;
    assert(n == x * q + r);
    let t = x_next + 1;
    // x + q <= 2t - 1, hence n < x*(q+1) <= x*(2t - x) <= t*t
    assert(x + q <= 2 * t - 1);
    assert(n < x * (q + 1)) by (nonlinear_arith)
        requires
            n == x * q + r,
            0 <= r < x,
    ;
    assert(x * (q + 1) <= x * (2 * t - x)) by (nonlinear_arith)
        requires
            q + 1 <= 2 * t - x,
            x >= 1,
    ;
    assert(x * (2 * t - x) <= t * t) by (nonlinear_arith);
    if x_next >= x {
        if x * x > n {
            assert(q < x) by (nonlinear_arith)
                requires
                    n == x * q + r,
                    0 <= r,
                    x * x > n,
                    x >= 1,
            ;
        }
    }
    if x_next < 1 {
        // x + q <= 1 means x == 1 and q == 0, but then n < 1
        assert(x == 1 && q == 0);
        assert(n == r);
    }
}

} // verus!
