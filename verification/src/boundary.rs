//! The boundary check: from a model, the history of a measure and a new
//! value, the limits that the model puts around the history and the
//! verdict on the value. Every magnitude is a fixed-point number with
//! three fractional digits, held as the integer that is the magnitude times
//! one thousand, and every decision is exact in integer arithmetic.

use vstd::prelude::*;
use crate::arith::{
    ceil_div, div_ceil, div_floor, floor_div, isqrt, lemma_div_order, lemma_isqrt,
    lemma_isqrt_exists, sqrt_floor,
};
use crate::model::{Boundary, Model, ModelTest};
use crate::results::JsonMetric;

verus! {

/// Most samples that a window can hold for a test that looks at their
/// spread.
pub const MAX_SAMPLES: usize = 1024;

/// Farthest that a sample of such a window can lie from the oldest one.
pub const MAX_SPREAD: i64 = 17179869184;

/// Largest number of standard deviations, in thousandths, that a model
/// can ask for.
pub const MAX_FACTOR: i64 = 16384;

/// Largest fraction of the baseline, in thousandths, that a model can ask
/// for.
pub const MAX_PERCENTAGE: i64 = 1000000000;

/// The critical values of Student's distribution that the t-test of a
/// model needs: for each side that the model guards, the value that
/// belongs to the confidence level of that side and to one degree of
/// freedom less than the window has samples, in thousandths.
#[derive(Clone, Copy, Debug, PartialEq, Eq, Structural)]
pub struct Critical {
    pub lower: Option<Boundary>,
    pub upper: Option<Boundary>,
}

/// Largest confidence level, in thousandths, that a model can ask for.
pub const MAX_CONFIDENCE: i64 = 1000;

/// Why a model cannot be evaluated.
#[derive(Clone, Copy, Debug, PartialEq, Eq, Structural)]
pub enum ConfigurationFailure {
    /// The t-test of the model guards a side for which no critical value
    /// was given.
    MissingParameter,
    /// A boundary of the model, or a critical value, is negative or too
    /// large for its test.
    InvalidBoundary,
    /// The window has more samples, or samples farther apart, than its
    /// test is computed on, or a limit is too large to be held.
    OutOfRange,
}

/// How a value stands to the limits.
#[derive(Clone, Copy, Debug, PartialEq, Eq, Structural)]
pub enum BoundaryOutcome {
    /// The window holds too few samples for a decision.
    InsufficientData,
    /// The value is within the limits.
    InBounds,
    /// The value is below the lower limit.
    Lower,
    /// The value is above the upper limit.
    Upper,
    /// The value is below the lower limit and above the upper one.
    Both,
}

/// What a check answers: how the value stands, and the limits it was held against.
#[derive(Clone, Copy, Debug, PartialEq, Eq, Structural)]
pub struct BoundaryVerdict {
    pub outcome: BoundaryOutcome,
    pub lower_limit: Option<i64>,
    pub upper_limit: Option<i64>,
}

impl BoundaryVerdict {
    /// Whether the verdict raises an alert.
    pub fn is_alert(&self) -> (b: bool)
        ensures
            b == (self.outcome is Lower || self.outcome is Upper || self.outcome is Both),
    {
        match self.outcome {
            BoundaryOutcome::Lower | BoundaryOutcome::Upper | BoundaryOutcome::Both => true,
            _ => false,
        }
    }

    /// The metric as it is kept after the check: the value as it was
    /// measured, with the limits of this verdict.
    pub fn stamp(&self, metric: JsonMetric) -> (r: JsonMetric)
        ensures
            r == (JsonMetric {
                value: metric.value,
                lower_value: self.lower_limit,
                upper_value: self.upper_limit,
            }),
    {
        JsonMetric {
            value: metric.value,
            lower_value: self.lower_limit,
            upper_value: self.upper_limit,
        }
    }
}

/// The verdict on `candidate` against the given limits: a side is
/// violated when it has a limit and the value lies strictly beyond it.
pub open spec fn classify(candidate: i64, lower: Option<i64>, upper: Option<i64>) -> BoundaryVerdict {
    let below = lower matches Some(limit) && candidate < limit;
    let above = upper matches Some(limit) && candidate > limit;
    BoundaryVerdict {
        outcome: if below && above {
            BoundaryOutcome::Both
        } else if below {
            BoundaryOutcome::Lower
        } else if above {
            BoundaryOutcome::Upper
        } else {
            BoundaryOutcome::InBounds
        },
        lower_limit: lower,
        upper_limit: upper,
    }
}

/// The verdict that too few samples allow: no decision and no limits.
pub open spec fn undecided() -> BoundaryVerdict {
    BoundaryVerdict {
        outcome: BoundaryOutcome::InsufficientData,
        lower_limit: None,
        upper_limit: None,
    }
}

/// How many of `len` samples the model looks at: all of them, or as many
/// as its window and its largest sample size allow, whichever is less.
pub open spec fn window_len(model: Model, len: nat) -> nat {
    let by_window = match model.window {
        Some(w) => if (w as nat) < len {
            w as nat
        } else {
            len
        },
        None => len,
    };
    match model.max_sample_size {
        Some(m) => if (m as nat) < by_window {
            m as nat
        } else {
            by_window
        },
        None => by_window,
    }
}

/// The samples that the model looks at: the newest of the history, which
/// runs from the oldest sample to the newest.
pub open spec fn window_of(model: Model, history: Seq<i64>) -> Seq<i64> {
    history.subrange(history.len() - window_len(model, history.len()), history.len() as int)
}

/// The fewest samples that the statistic of a test is defined on.
pub open spec fn inherent_minimum(test: ModelTest) -> nat {
    match test {
        ModelTest::Percentage => 1,
        ModelTest::ZScore => 2,
        ModelTest::TTest => 2,
        ModelTest::Iqr => 1,
        ModelTest::Static => 0,
    }
}

/// The fewest samples with which the model decides: its smallest sample
/// size, and at least as many as its statistic is defined on.
pub open spec fn required_samples(model: Model) -> nat {
    let configured: nat = match model.min_sample_size {
        Some(m) => m as nat,
        None => 0,
    };
    if configured < inherent_minimum(model.test) {
        inherent_minimum(model.test)
    } else {
        configured
    }
}

/// Whether a boundary, where there is one, lies between nothing and
/// `most`.
pub open spec fn boundary_within(boundary: Option<Boundary>, most: i64) -> bool {
    boundary matches Some(b) ==> 0 <= b.0 <= most
}

/// Whether `limit`, where there is one, can be held as a magnitude.
pub open spec fn limit_fits(limit: Option<int>) -> bool {
    limit matches Some(l) ==> i64::MIN <= l <= i64::MAX
}

/// The limit as it is held.
pub open spec fn held(limit: Option<int>) -> Option<i64> {
    match limit {
        Some(l) => Some(l as i64),
        None => None,
    }
}

/// The lower limit of the percentage test: the baseline less the fraction
/// `p` of it, rounded up to the next magnitude that can be held.
pub open spec fn percentage_lower(baseline: int, p: int) -> int {
    ceil_div(baseline * (1000 - p), 1000)
}

/// The upper limit of the percentage test: the baseline and the fraction
/// `p` of it, rounded down.
pub open spec fn percentage_upper(baseline: int, p: int) -> int {
    floor_div(baseline * (1000 + p), 1000)
}

/// The sum of the distances of the first `k` samples from the oldest one.
pub open spec fn sum_dev(w: Seq<i64>, k: int) -> int
    decreases k,
{
    if k <= 0 {
        0
    } else {
        sum_dev(w, k - 1) + (w[k - 1] - w[0])
    }
}

/// The sum of the squares of those distances.
pub open spec fn sum_sq(w: Seq<i64>, k: int) -> int
    decreases k,
{
    if k <= 0 {
        0
    } else {
        sum_sq(w, k - 1) + (w[k - 1] - w[0]) * (w[k - 1] - w[0])
    }
}

/// Whether no sample lies farther than `MAX_SPREAD` from the oldest one.
pub open spec fn spread_ok(w: Seq<i64>) -> bool {
    forall|i: int| 0 <= i < w.len() ==> -MAX_SPREAD <= #[trigger] w[i] - w[0] <= MAX_SPREAD
}

/// The scatter of the window: `n` times the sum of the squares of the
/// distances, less the square of their sum. It is `n * (n - 1)` times the
/// sample variance.
pub open spec fn scatter(w: Seq<i64>) -> int {
    w.len() * sum_sq(w, w.len() as int) - sum_dev(w, w.len() as int) * sum_dev(w, w.len() as int)
}

/// How far `n` times a value may lie from `n` times the mean when the
/// value is to lie within `z` thousandths of a deviation of the mean: the
/// integer square root of `z * z * scatter * share / (1000000 * (n - 1))`.
/// With the share `n` the deviation is the standard deviation of the
/// samples, with the share one that of their mean.
pub open spec fn reach(w: Seq<i64>, z: int, share: int) -> int {
    isqrt(((z * z * scatter(w) * share) / (1000000 * (w.len() - 1))) as nat) as int
}

/// The lower limit of the z-score test: the mean less `z` thousandths of
/// a standard deviation, rounded up.
pub open spec fn zscore_lower(w: Seq<i64>, z: int) -> int {
    w[0] + ceil_div(
        sum_dev(w, w.len() as int) - reach(w, z, w.len() as int),
        w.len() as int,
    )
}

/// The upper limit of the z-score test: the mean and `z` thousandths of a
/// standard deviation, rounded down.
pub open spec fn zscore_upper(w: Seq<i64>, z: int) -> int {
    w[0] + floor_div(
        sum_dev(w, w.len() as int) + reach(w, z, w.len() as int),
        w.len() as int,
    )
}

/// The lower limit of the t-test, the lower end of the confidence
/// interval of the mean: the mean less `t` thousandths of the standard
/// deviation of the mean, rounded up.
pub open spec fn t_lower(w: Seq<i64>, t: int) -> int {
    w[0] + ceil_div(sum_dev(w, w.len() as int) - reach(w, t, 1), w.len() as int)
}

/// The upper limit of the t-test, the upper end of the confidence
/// interval of the mean, rounded down.
pub open spec fn t_upper(w: Seq<i64>, t: int) -> int {
    w[0] + floor_div(sum_dev(w, w.len() as int) + reach(w, t, 1), w.len() as int)
}

/// Where `x` goes among the samples `s`, which are in order: behind the
/// last sample that is not above it.
pub open spec fn insert_position(s: Seq<i64>, x: i64) -> int
    decreases s.len(),
{
    if s.len() == 0 {
        0
    } else if s.last() <= x {
        s.len() as int
    } else {
        insert_position(s.drop_last(), x)
    }
}

/// The samples `w` in order, from the least to the greatest.
pub open spec fn in_order(w: Seq<i64>) -> Seq<i64>
    decreases w.len(),
{
    if w.len() == 0 {
        Seq::empty()
    } else {
        let before = in_order(w.drop_last());
        before.insert(insert_position(before, w.last()), w.last())
    }
}

/// Four times the quartile number `k` of the samples `s`, which are in
/// order: the sample at the position `k * (n - 1) / 4`, or, where that is
/// no whole number, the value on the line between the two samples about it.
pub open spec fn quartile_times_four(s: Seq<i64>, k: int) -> int {
    let position = k * (s.len() - 1);
    let at = position / 4;
    let after = if at + 1 < s.len() {
        at + 1
    } else {
        at
    };
    4 * s[at] + (position % 4) * (s[after] - s[at])
}

/// The lower limit of the interquartile test: the first quartile less
/// `k` thousandths of the range between the first and the third, rounded
/// up.
pub open spec fn iqr_lower(w: Seq<i64>, k: int) -> int {
    let first = quartile_times_four(in_order(w), 1);
    let third = quartile_times_four(in_order(w), 3);
    ceil_div(1000 * first - k * (third - first), 4000)
}

/// The upper limit of the interquartile test: the third quartile and `k`
/// thousandths of the range between the first and the third, rounded down.
pub open spec fn iqr_upper(w: Seq<i64>, k: int) -> int {
    let first = quartile_times_four(in_order(w), 1);
    let third = quartile_times_four(in_order(w), 3);
    floor_div(1000 * third + k * (third - first), 4000)
}

/// The limits of a test, where they can be held, and the verdict on
/// `candidate` against them.
pub open spec fn decide(candidate: i64, lower: Option<int>, upper: Option<int>) -> Result<
    BoundaryVerdict,
    ConfigurationFailure,
> {
    if limit_fits(lower) && limit_fits(upper) {
        Ok(classify(candidate, held(lower), held(upper)))
    } else {
        Err(ConfigurationFailure::OutOfRange)
    }
}

/// What the check answers for a model, the history of a measure from the
/// oldest sample to the newest, and a new value, without critical values.
pub open spec fn verdict(model: Model, history: Seq<i64>, candidate: i64) -> Result<
    BoundaryVerdict,
    ConfigurationFailure,
> {
    verdict_with(model, history, candidate, Critical { lower: None, upper: None })
}

/// Whether a critical value is given for every side that the model
/// guards.
pub open spec fn critical_given(model: Model, critical: Critical) -> bool {
    &&& model.lower_boundary is Some ==> critical.lower is Some
    &&& model.upper_boundary is Some ==> critical.upper is Some
}

/// What the check answers for a model, the history of a measure from the
/// oldest sample to the newest, a new value, and the critical values for
/// the t-test.
///
/// A boundary that is negative or too large for its test is invalid, and
/// so is such a critical value; a t-test that guards a side without a
/// critical value misses a parameter. With fewer
/// samples in the window than the model decides on, the verdict is
/// undecided. Otherwise the limits are those of the test: the boundaries
/// themselves for the static test; the newest sample less and plus the
/// boundary's fraction of it for the percentage test; the mean less and
/// plus the boundary's number of standard deviations for the z-score test;
/// the first quartile less, and the third quartile plus, the boundary's
/// multiple of the range between them for the interquartile test; the ends
/// of the confidence interval of the mean, which lie the critical value's
/// number of standard deviations of the mean from it, for the t-test.
pub open spec fn verdict_with(
    model: Model,
    history: Seq<i64>,
    candidate: i64,
    critical: Critical,
) -> Result<BoundaryVerdict, ConfigurationFailure> {
    let w = window_of(model, history);
    match model.test {
        ModelTest::TTest => if !boundary_within(model.lower_boundary, MAX_CONFIDENCE)
            || !boundary_within(model.upper_boundary, MAX_CONFIDENCE) || !boundary_within(
            critical.lower,
            MAX_FACTOR,
        ) || !boundary_within(critical.upper, MAX_FACTOR) {
            Err(ConfigurationFailure::InvalidBoundary)
        } else if !critical_given(model, critical) {
            Err(ConfigurationFailure::MissingParameter)
        } else if w.len() < required_samples(model) {
            Ok(undecided())
        } else if w.len() > MAX_SAMPLES || !spread_ok(w) {
            Err(ConfigurationFailure::OutOfRange)
        } else {
            decide(
                candidate,
                match (model.lower_boundary, critical.lower) {
                    (Some(_), Some(t)) => Some(t_lower(w, t.0 as int)),
                    _ => None,
                },
                match (model.upper_boundary, critical.upper) {
                    (Some(_), Some(t)) => Some(t_upper(w, t.0 as int)),
                    _ => None,
                },
            )
        },
        ModelTest::Iqr => if !boundary_within(model.lower_boundary, MAX_FACTOR)
            || !boundary_within(model.upper_boundary, MAX_FACTOR) {
            Err(ConfigurationFailure::InvalidBoundary)
        } else if w.len() < required_samples(model) {
            Ok(undecided())
        } else if w.len() > MAX_SAMPLES {
            Err(ConfigurationFailure::OutOfRange)
        } else {
            decide(
                candidate,
                match model.lower_boundary {
                    Some(b) => Some(iqr_lower(w, b.0 as int)),
                    None => None,
                },
                match model.upper_boundary {
                    Some(b) => Some(iqr_upper(w, b.0 as int)),
                    None => None,
                },
            )
        },
        ModelTest::Static => if w.len() < required_samples(model) {
            Ok(undecided())
        } else {
            Ok(
                classify(
                    candidate,
                    match model.lower_boundary {
                        Some(b) => Some(b.0),
                        None => None,
                    },
                    match model.upper_boundary {
                        Some(b) => Some(b.0),
                        None => None,
                    },
                ),
            )
        },
        ModelTest::Percentage => if !boundary_within(model.lower_boundary, MAX_PERCENTAGE)
            || !boundary_within(model.upper_boundary, MAX_PERCENTAGE) {
            Err(ConfigurationFailure::InvalidBoundary)
        } else if w.len() < required_samples(model) {
            Ok(undecided())
        } else {
            decide(
                candidate,
                match model.lower_boundary {
                    Some(b) => Some(percentage_lower(w.last() as int, b.0 as int)),
                    None => None,
                },
                match model.upper_boundary {
                    Some(b) => Some(percentage_upper(w.last() as int, b.0 as int)),
                    None => None,
                },
            )
        },
        ModelTest::ZScore => if !boundary_within(model.lower_boundary, MAX_FACTOR)
            || !boundary_within(model.upper_boundary, MAX_FACTOR) {
            Err(ConfigurationFailure::InvalidBoundary)
        } else if w.len() < required_samples(model) {
            Ok(undecided())
        } else if w.len() > MAX_SAMPLES || !spread_ok(w) {
            Err(ConfigurationFailure::OutOfRange)
        } else {
            decide(
                candidate,
                match model.lower_boundary {
                    Some(b) => Some(zscore_lower(w, b.0 as int)),
                    None => None,
                },
                match model.upper_boundary {
                    Some(b) => Some(zscore_upper(w, b.0 as int)),
                    None => None,
                },
            )
        },
    }
}

/// Holds `candidate` against the given limits.
pub fn check_limits(candidate: i64, lower: Option<i64>, upper: Option<i64>) -> (r: BoundaryVerdict)
    ensures
        r == classify(candidate, lower, upper),
{
    let below = match lower {
        Some(limit) => candidate < limit,
        None => false,
    };
    let above = match upper {
        Some(limit) => candidate > limit,
        None => false,
    };
    let outcome = if below && above {
        BoundaryOutcome::Both
    } else if below {
        BoundaryOutcome::Lower
    } else if above {
        BoundaryOutcome::Upper
    } else {
        BoundaryOutcome::InBounds
    };
    BoundaryVerdict { outcome, lower_limit: lower, upper_limit: upper }
}

/// Holds `candidate` against limits that may be too large to be held.
fn check_wide(candidate: i64, lower: Option<i128>, upper: Option<i128>) -> (r: Result<
    BoundaryVerdict,
    ConfigurationFailure,
>)
    ensures
        r == decide(
            candidate,
            match lower {
                Some(l) => Some(l as int),
                None => None,
            },
            match upper {
                Some(u) => Some(u as int),
                None => None,
            },
        ),
{
    let lower = match lower {
        Some(l) => {
            if l < i64::MIN as i128 || l > i64::MAX as i128 {
                return Err(ConfigurationFailure::OutOfRange);
            }
            Some(l as i64)
        },
        None => None,
    };
    let upper = match upper {
        Some(u) => {
            if u < i64::MIN as i128 || u > i64::MAX as i128 {
                return Err(ConfigurationFailure::OutOfRange);
            }
            Some(u as i64)
        },
        None => None,
    };
    Ok(check_limits(candidate, lower, upper))
}

/// How many of `len` samples the model looks at.
pub fn samples_in_window(model: &Model, len: usize) -> (k: usize)
    ensures
        k == window_len(*model, len as nat),
        k <= len,
{
    let by_window = match model.window {
        Some(w) => if (w as u64) < (len as u64) {
            w as usize
        } else {
            len
        },
        None => len,
    };
    match model.max_sample_size {
        Some(m) => if (m as u64) < (by_window as u64) {
            m as usize
        } else {
            by_window
        },
        None => by_window,
    }
}

/// Whether `k` samples are enough for the model to decide.
pub fn enough_samples(model: &Model, k: usize) -> (b: bool)
    ensures
        b == (k >= required_samples(*model)),
{
    let configured: u64 = match model.min_sample_size {
        Some(m) => m as u64,
        None => 0,
    };
    let inherent: u64 = match model.test {
        ModelTest::Percentage => 1,
        ModelTest::ZScore => 2,
        ModelTest::TTest => 2,
        ModelTest::Iqr => 1,
        ModelTest::Static => 0,
    };
    let required = if configured < inherent {
        inherent
    } else {
        configured
    };
    k as u64 >= required
}

fn within(boundary: Option<Boundary>, most: i64) -> (b: bool)
    ensures
        b == boundary_within(boundary, most),
{
    match boundary {
        Some(b) => 0 <= b.0 && b.0 <= most,
        None => true,
    }
}

/// The limits of the percentage test around `baseline`.
fn percentage_limits(baseline: i64, lower: Option<Boundary>, upper: Option<Boundary>) -> (r: (
    Option<i128>,
    Option<i128>,
))
    requires
        boundary_within(lower, MAX_PERCENTAGE),
        boundary_within(upper, MAX_PERCENTAGE),
    ensures
        match lower {
            Some(b) => r.0 matches Some(l) && l == percentage_lower(baseline as int, b.0 as int),
            None => r.0 is None,
        },
        match upper {
            Some(b) => r.1 matches Some(u) && u == percentage_upper(baseline as int, b.0 as int),
            None => r.1 is None,
        },
{
    let base = baseline as i128;
    let lo = match lower {
        Some(b) => {
            let factor = 1000 - b.0 as i128;
            assert(-0x4000_0000_0000_0000_0000_0000int <= base * factor
                <= 0x4000_0000_0000_0000_0000_0000int) by (nonlinear_arith)
                requires
                    -0x8000_0000_0000_0000 <= base <= 0x8000_0000_0000_0000,
                    -1000000000 <= factor <= 1000,
            ;
            Some(div_ceil(base * factor, 1000))
        },
        None => None,
    };
    let hi = match upper {
        Some(b) => {
            let factor = 1000 + b.0 as i128;
            assert(-0x4000_0000_0000_0000_0000_0000int <= base * factor
                <= 0x4000_0000_0000_0000_0000_0000int) by (nonlinear_arith)
                requires
                    -0x8000_0000_0000_0000 <= base <= 0x8000_0000_0000_0000,
                    1000 <= factor <= 1000001000,
            ;
            Some(div_floor(base * factor, 1000))
        },
        None => None,
    };
    (lo, hi)
}

/// The square of `MAX_SPREAD`.
pub const MAX_SPREAD_SQUARED: i128 = 295147905179352825856;

proof fn lemma_moment_bounds(w: Seq<i64>, k: int)
    requires
        0 <= k <= w.len(),
        spread_ok(w),
    ensures
        -(k * MAX_SPREAD) <= sum_dev(w, k) <= k * MAX_SPREAD,
        0 <= sum_sq(w, k) <= k * MAX_SPREAD_SQUARED,
    decreases k,
{
    if k > 0 {
        lemma_moment_bounds(w, k - 1);
        let y = w[k - 1] - w[0];
        assert(0 <= y * y <= MAX_SPREAD_SQUARED) by (nonlinear_arith)
            requires
                -17179869184 <= y <= 17179869184,
                MAX_SPREAD_SQUARED == 295147905179352825856,
        ;
    }
}

/// The sum of the squares of the distances of the first `k` samples from
/// any `y` is not negative.
proof fn lemma_distances(w: Seq<i64>, k: int, y: int)
    requires
        0 <= k <= w.len(),
    ensures
        sum_sq(w, k) + k * (y * y) - 2 * (sum_dev(w, k) * y) >= 0,
    decreases k,
{
    if k > 0 {
        lemma_distances(w, k - 1, y);
        let d = w[k - 1] - w[0];
        let q = sum_sq(w, k - 1);
        let s = sum_dev(w, k - 1);
        assert(sum_dev(w, k) == s + d);
        assert(sum_sq(w, k) == q + d * d);
        assert((q + d * d) + k * (y * y) - 2 * ((s + d) * y) == (q + (k - 1) * (y * y) - 2 * (s
            * y)) + (d - y) * (d - y)) by (nonlinear_arith);
        assert((d - y) * (d - y) >= 0) by (nonlinear_arith);
    } else {
        assert(k * (y * y) == 0) by (nonlinear_arith)
            requires
                k == 0,
        ;
        assert(sum_dev(w, k) * y == 0) by (nonlinear_arith)
            requires
                sum_dev(w, k) == 0,
        ;
    }
}

/// The scatter of the first `k` samples is not negative.
proof fn lemma_scatter(w: Seq<i64>, k: int)
    requires
        0 <= k <= w.len(),
    ensures
        k * sum_sq(w, k) - sum_dev(w, k) * sum_dev(w, k) >= 0,
    decreases k,
{
    if k > 0 {
        lemma_scatter(w, k - 1);
        let d = w[k - 1] - w[0];
        let q = sum_sq(w, k - 1);
        let s = sum_dev(w, k - 1);
        lemma_distances(w, k - 1, d);
        assert(sum_dev(w, k) == s + d);
        assert(sum_sq(w, k) == q + d * d);
        assert(k * (q + d * d) - (s + d) * (s + d) == ((k - 1) * q - s * s) + (q + (k - 1) * (d
            * d) - 2 * (s * d))) by (nonlinear_arith);
    } else {
        assert(k * sum_sq(w, k) == 0) by (nonlinear_arith)
            requires
                k == 0,
        ;
        assert(sum_dev(w, k) * sum_dev(w, k) == 0) by (nonlinear_arith)
            requires
                sum_dev(w, k) == 0,
        ;
    }
}

/// What the limits of the percentage test mean: a magnitude is at most
/// the upper limit exactly when it is at most the baseline and the fraction
/// `p` of it, and at least the lower limit exactly when it is at least the
/// baseline less that fraction. Both sides are taken a thousandfold, which
/// keeps them whole.
pub proof fn law_percentage_limits(baseline: int, p: int, u: int)
    ensures
        u <= percentage_upper(baseline, p) <==> 1000 * u <= baseline * (1000 + p),
        u >= percentage_lower(baseline, p) <==> 1000 * u >= baseline * (1000 - p),
{
    lemma_div_order(baseline * (1000 + p), 1000, u);
    lemma_div_order(baseline * (1000 - p), 1000, u);
}

/// What the limits of the interquartile test mean: a magnitude is at
/// most the upper limit exactly when it is at most the third quartile and
/// `k` thousandths of the range between the quartiles, and at least the
/// lower limit exactly when it is at least the first quartile less as much.
/// Both sides are taken four thousandfold, which keeps them whole.
pub proof fn law_iqr_limits(w: Seq<i64>, k: int, u: int)
    ensures
        ({
            let first = quartile_times_four(in_order(w), 1);
            let third = quartile_times_four(in_order(w), 3);
            &&& u <= iqr_upper(w, k) <==> 4000 * u <= 1000 * third + k * (third - first)
            &&& u >= iqr_lower(w, k) <==> 4000 * u >= 1000 * first - k * (third - first)
        }),
{
    let first = quartile_times_four(in_order(w), 1);
    let third = quartile_times_four(in_order(w), 3);
    lemma_div_order(1000 * third + k * (third - first), 4000, u);
    lemma_div_order(1000 * first - k * (third - first), 4000, u);
}

/// What the limits of the z-score test mean. With `n` samples of mean
/// `m` and standard deviation `s`, a magnitude `u` lies at most `z`
/// thousandths of `s` above `m` exactly when `t = n * (u - m)` is not
/// positive or `1000000 * (n - 1) * t * t <= z * z * scatter * n`, the
/// scatter being `n * (n - 1) * s * s`; and `u` is at most the upper limit
/// exactly then. The lower limit is the same with the sign of `t` turned.
pub proof fn law_zscore_limits(w: Seq<i64>, z: int, u: int)
    requires
        w.len() >= 2,
        z >= 0,
    ensures
        scatter(w) >= 0,
        ({
            let t = w.len() * (u - w[0]) - sum_dev(w, w.len() as int);
            &&& u <= zscore_upper(w, z) <==> (t <= 0 || 1000000 * (w.len() - 1) * (t * t) <= z * z
                * scatter(w) * w.len())
            &&& u >= zscore_lower(w, z) <==> (t >= 0 || 1000000 * (w.len() - 1) * (t * t) <= z * z
                * scatter(w) * w.len())
        }),
{
    lemma_reach_limits(w, z, w.len() as int, u);
}

/// What the limits of the t-test mean. With `n` samples of mean `m` and
/// standard deviation `s`, the mean has the standard deviation `s / sqrt(n)`,
/// and a magnitude `u` lies at most `c` thousandths of it above `m` exactly
/// when `t = n * (u - m)` is not positive or `1000000 * (n - 1) * t * t <= c
/// * c * scatter`; and `u` is at most the upper limit exactly then. The
/// lower limit is the same with the sign of `t` turned.
pub proof fn law_t_limits(w: Seq<i64>, c: int, u: int)
    requires
        w.len() >= 2,
        c >= 0,
    ensures
        ({
            let t = w.len() * (u - w[0]) - sum_dev(w, w.len() as int);
            &&& u <= t_upper(w, c) <==> (t <= 0 || 1000000 * (w.len() - 1) * (t * t) <= c * c
                * scatter(w) * 1)
            &&& u >= t_lower(w, c) <==> (t >= 0 || 1000000 * (w.len() - 1) * (t * t) <= c * c
                * scatter(w) * 1)
        }),
{
    lemma_reach_limits(w, c, 1, u);
}

proof fn lemma_reach_limits(w: Seq<i64>, z: int, share: int, u: int)
    requires
        w.len() >= 2,
        z >= 0,
        share >= 1,
    ensures
        scatter(w) >= 0,
        ({
            let t = w.len() * (u - w[0]) - sum_dev(w, w.len() as int);
            &&& u <= w[0] + floor_div(
                sum_dev(w, w.len() as int) + reach(w, z, share),
                w.len() as int,
            ) <==> (t <= 0 || 1000000 * (w.len() - 1) * (t * t) <= z * z * scatter(w) * share)
            &&& u >= w[0] + ceil_div(
                sum_dev(w, w.len() as int) - reach(w, z, share),
                w.len() as int,
            ) <==> (t >= 0 || 1000000 * (w.len() - 1) * (t * t) <= z * z * scatter(w) * share)
        }),
{
    let n = w.len() as int;
    let s = sum_dev(w, n);
    let t = n * (u - w[0]) - s;
    let d = scatter(w);
    lemma_scatter(w, n);
    let zz = z * z;
    assert(zz >= 0) by (nonlinear_arith)
        requires
            zz == z * z,
    ;
    assert(zz * d >= 0) by (nonlinear_arith)
        requires
            zz >= 0,
            d >= 0,
    ;
    let product = zz * d * share;
    assert(product >= 0) by (nonlinear_arith)
        requires
            zz * d >= 0,
            share >= 1,
            product == zz * d * share,
    ;
    let divisor = 1000000 * (n - 1);
    let m = product / divisor;
    lemma_div_order(product, divisor, 0);
    assert(m >= 0);
    lemma_isqrt_exists(m as nat);
    let r = isqrt(m as nat) as int;
    lemma_isqrt(m as nat, r as nat);
    assert(r == reach(w, z, share));
    lemma_div_order(s + r, n, u - w[0]);
    lemma_div_order(s - r, n, u - w[0]);
    assert((u - w[0]) * n == n * (u - w[0])) by (nonlinear_arith);
    assert(t * t == (-t) * (-t)) by (nonlinear_arith);
    lemma_div_order(product, divisor, t * t);
    assert((t * t) * divisor == 1000000 * (n - 1) * (t * t)) by (nonlinear_arith)
        requires
            divisor == 1000000 * (n - 1),
    ;
    assert(t * t >= 0) by (nonlinear_arith);
    if t > 0 {
        assert(t * t <= m <==> t <= r);
    }
    if t < 0 {
        assert((-t) * (-t) <= m <==> -t <= r);
    }
}

/// The sum of the distances from the oldest sample, and the sum of their
/// squares, of the window that begins at `from`; nothing when a sample
/// lies too far from the oldest.
fn moments(history: &Vec<i64>, from: usize) -> (r: Option<(i128, i128)>)
    requires
        from < history.len(),
        history.len() - from <= MAX_SAMPLES,
    ensures
        match r {
            Some((s, q)) => {
                let w = history@.subrange(from as int, history.len() as int);
                spread_ok(w) && s == sum_dev(w, w.len() as int) && q == sum_sq(w, w.len() as int)
            },
            None => !spread_ok(history@.subrange(from as int, history.len() as int)),
        },
{
    let ghost w = history@.subrange(from as int, history.len() as int);
    let n = history.len() - from;
    let oldest = history[from] as i128;
    let mut s: i128 = 0;
    let mut q: i128 = 0;
    let mut i: usize = 0;
    while i < n
        invariant
            i <= n,
            n == w.len(),
            n <= MAX_SAMPLES,
            from + n == history.len(),
            w == history@.subrange(from as int, history.len() as int),
            oldest == w[0],
            s == sum_dev(w, i as int),
            q == sum_sq(w, i as int),
            -(i * MAX_SPREAD) <= s <= i * MAX_SPREAD,
            0 <= q <= i * MAX_SPREAD_SQUARED,
            forall|j: int| 0 <= j < i ==> -MAX_SPREAD <= #[trigger] w[j] - w[0] <= MAX_SPREAD,
        decreases n - i,
    {
        let y = history[from + i] as i128 - oldest;
        assert(y == w[i as int] - w[0]);
        if y < -(MAX_SPREAD as i128) || y > MAX_SPREAD as i128 {
            return None;
        }
        assert(0 <= y * y <= MAX_SPREAD_SQUARED) by (nonlinear_arith)
            requires
                -17179869184 <= y <= 17179869184,
                MAX_SPREAD_SQUARED == 295147905179352825856,
        ;
        s = s + y;
        q = q + y * y;
        i += 1;
    }
    Some((s, q))
}

/// How far `n` times a value may lie from `n` times the mean.
fn reach_of(n: usize, s: i128, q: i128, z: i64, share: usize, Ghost(w): Ghost<Seq<i64>>) -> (r:
    i128)
    requires
        2 <= n <= MAX_SAMPLES,
        n == w.len(),
        spread_ok(w),
        s == sum_dev(w, n as int),
        q == sum_sq(w, n as int),
        0 <= z <= MAX_FACTOR,
        1 <= share <= n,
    ensures
        r == reach(w, z as int, share as int),
        0 <= r < 0x1_0000_0000_0000_0000,
{
    proof {
        lemma_moment_bounds(w, n as int);
        lemma_scatter(w, n as int);
    }
    let count = n as i128;
    assert(0 <= count * q <= 1024 * (1024 * MAX_SPREAD_SQUARED)) by (nonlinear_arith)
        requires
            2 <= count <= 1024,
            0 <= q <= count * MAX_SPREAD_SQUARED,
            MAX_SPREAD_SQUARED == 295147905179352825856,
    ;
    assert(0 <= s * s <= (1024 * 17179869184) * (1024 * 17179869184)) by (nonlinear_arith)
        requires
            2 <= count <= 1024,
            -(count * 17179869184) <= s <= count * 17179869184,
    ;
    let d = count * q - s * s;
    assert(d == scatter(w));
    let factor = z as i128;
    assert(0 <= factor * factor <= 16384 * 16384) by (nonlinear_arith)
        requires
            0 <= factor <= 16384,
    ;
    let zz = factor * factor;
    assert(0 <= zz * d <= (16384 * 16384) * (1024 * (1024 * 295147905179352825856)))
        by (nonlinear_arith)
        requires
            0 <= zz <= 16384 * 16384,
            0 <= d <= 1024 * (1024 * 295147905179352825856),
    ;
    let zzd = zz * d;
    let part = share as i128;
    assert(0 <= zzd * part <= ((16384 * 16384) * (1024 * (1024 * 295147905179352825856)))
        * 1024) by (nonlinear_arith)
        requires
            0 <= zzd <= (16384 * 16384) * (1024 * (1024 * 295147905179352825856)),
            1 <= part <= 1024,
    ;
    let product = zzd * part;
    let divisor = 1000000 * (count - 1);
    let quotient = (product as u128) / (divisor as u128);
    assert(quotient == (z * z * scatter(w) * share) / (1000000 * (w.len() - 1)));
    let r = sqrt_floor(quotient);
    r as i128
}

/// The limits that lie the given numbers of deviations from the mean of
/// the window that begins at `from`, the deviation being that of the
/// samples or, where `of_mean` holds, that of their mean; nothing when a
/// sample lies too far from the oldest.
fn spread_limits(
    history: &Vec<i64>,
    from: usize,
    lower: Option<Boundary>,
    upper: Option<Boundary>,
    of_mean: bool,
) -> (r: Option<(Option<i128>, Option<i128>)>)
    requires
        from + 2 <= history.len(),
        history.len() - from <= MAX_SAMPLES,
        boundary_within(lower, MAX_FACTOR),
        boundary_within(upper, MAX_FACTOR),
    ensures
        match r {
            Some((lo, hi)) => {
                let w = history@.subrange(from as int, history.len() as int);
                &&& spread_ok(w)
                &&& match lower {
                    Some(b) => lo matches Some(l) && l == (if of_mean {
                        t_lower(w, b.0 as int)
                    } else {
                        zscore_lower(w, b.0 as int)
                    }),
                    None => lo is None,
                }
                &&& match upper {
                    Some(b) => hi matches Some(u) && u == (if of_mean {
                        t_upper(w, b.0 as int)
                    } else {
                        zscore_upper(w, b.0 as int)
                    }),
                    None => hi is None,
                }
            },
            None => !spread_ok(history@.subrange(from as int, history.len() as int)),
        },
{
    let ghost w = history@.subrange(from as int, history.len() as int);
    let n = history.len() - from;
    let (s, q) = match moments(history, from) {
        Some(found) => found,
        None => { return None; },
    };
    proof {
        lemma_moment_bounds(w, n as int);
    }
    let oldest = history[from] as i128;
    let count = n as i128;
    let share = if of_mean {
        1
    } else {
        n
    };
    let lo = match lower {
        Some(b) => {
            let r = reach_of(n, s, q, b.0, share, Ghost(w));
            Some(oldest + div_ceil(s - r, count))
        },
        None => None,
    };
    let hi = match upper {
        Some(b) => {
            let r = reach_of(n, s, q, b.0, share, Ghost(w));
            Some(oldest + div_floor(s + r, count))
        },
        None => None,
    };
    Some((lo, hi))
}

/// The samples in order are in order, and they are the samples: each as
/// often as it was there.
pub proof fn law_in_order(w: Seq<i64>)
    ensures
        in_order(w).len() == w.len(),
        forall|i: int, j: int| 0 <= i <= j < w.len() ==> in_order(w)[i] <= in_order(w)[j],
        in_order(w).to_multiset() == w.to_multiset(),
    decreases w.len(),
{
    broadcast use vstd::seq_lib::group_to_multiset_ensures;

    if w.len() == 0 {
        assert(in_order(w) =~= w);
    } else {
        let before = in_order(w.drop_last());
        let x = w.last();
        law_in_order(w.drop_last());
        lemma_insert_position(before, x);
        let at = insert_position(before, x);
        let after = before.insert(at, x);
        assert forall|i: int, j: int| 0 <= i <= j < w.len() implies after[i] <= after[j] by {
            if i < at && j > at {
                assert(before[i] <= before[j - 1]);
            } else if i < at && j < at {
                assert(before[i] <= before[j]);
            } else if i > at {
                assert(before[i - 1] <= before[j - 1]);
            }
        }
        assert(w.drop_last().push(x) =~= w);
    }
}

/// Where a sample goes among samples in order, the samples before it are
/// not above it and the samples behind it are.
pub proof fn lemma_insert_position(s: Seq<i64>, x: i64)
    requires
        forall|i: int, j: int| 0 <= i <= j < s.len() ==> s[i] <= s[j],
    ensures
        0 <= insert_position(s, x) <= s.len(),
        forall|i: int| 0 <= i < insert_position(s, x) ==> s[i] <= x,
        forall|i: int| insert_position(s, x) <= i < s.len() ==> s[i] > x,
    decreases s.len(),
{
    if s.len() > 0 {
        if s.last() <= x {
            assert forall|i: int| 0 <= i < s.len() implies s[i] <= x by {
                assert(s[i] <= s[s.len() - 1]);
            }
        } else {
            let rest = s.drop_last();
            assert forall|i: int, j: int| 0 <= i <= j < rest.len() implies rest[i] <= rest[j] by {
                assert(s[i] <= s[j]);
            }
            lemma_insert_position(rest, x);
            let at = insert_position(rest, x);
            assert(insert_position(s, x) == at);
            assert forall|i: int| 0 <= i < at implies s[i] <= x by {
                assert(rest[i] == s[i]);
            }
            assert forall|i: int| at <= i < s.len() implies s[i] > x by {
                if i < rest.len() {
                    assert(rest[i] == s[i]);
                }
            }
        }
    }
}

/// Puts the samples of the window that begins at `from` in order.
fn sort_window(history: &Vec<i64>, from: usize) -> (sorted: Vec<i64>)
    requires
        from <= history.len(),
    ensures
        sorted@ == in_order(history@.subrange(from as int, history.len() as int)),
        sorted.len() == history.len() - from,
{
    let ghost w = history@.subrange(from as int, history.len() as int);
    let mut sorted: Vec<i64> = Vec::new();
    let mut i = from;
    assert(w.take(0) =~= Seq::<i64>::empty());
    while i < history.len()
        invariant
            from <= i <= history.len(),
            w == history@.subrange(from as int, history.len() as int),
            sorted@ == in_order(w.take(i - from)),
            sorted.len() == i - from,
        decreases history.len() - i,
    {
        let x = history[i];
        let mut j = sorted.len();
        assert(sorted@.take(j as int) =~= sorted@);
        while j > 0 && sorted[j - 1] > x
            invariant
                j <= sorted.len(),
                insert_position(sorted@.take(j as int), x) == insert_position(sorted@, x),
            decreases j,
        {
            assert(sorted@.take(j as int).drop_last() =~= sorted@.take(j - 1));
            j -= 1;
        }
        proof {
            assert(sorted@.take(sorted.len() as int) =~= sorted@);
            assert(insert_position(sorted@.take(j as int), x) == j);
            assert(w.take(i - from + 1).drop_last() =~= w.take(i - from));
            assert(w.take(i - from + 1).last() == x);
        }
        sorted.insert(j, x);
        i += 1;
    }
    assert(w.take(w.len() as int) =~= w);
    sorted
}

/// Four times the quartile number `k` of samples in order.
fn quartile(sorted: &Vec<i64>, k: usize) -> (q: i128)
    requires
        1 <= sorted.len() <= MAX_SAMPLES,
        k == 1 || k == 3,
    ensures
        q == quartile_times_four(sorted@, k as int),
        -0x4_0000_0000_0000_0000 <= q <= 0x4_0000_0000_0000_0000,
{
    let position = k * (sorted.len() - 1);
    let at = position / 4;
    let after = if at + 1 < sorted.len() {
        at + 1
    } else {
        at
    };
    let rest = (position % 4) as i128;
    let low = sorted[at] as i128;
    let high = sorted[after] as i128;
    assert(-0x3_0000_0000_0000_0000 <= rest * (high - low) <= 0x3_0000_0000_0000_0000)
        by (nonlinear_arith)
        requires
            0 <= rest <= 3,
            -0x1_0000_0000_0000_0000 <= high - low <= 0x1_0000_0000_0000_0000,
    ;
    let q = 4 * low + rest * (high - low);
    proof {
        // the value lies between the two samples, so four times it is in the range of four samples
        assert(4 * low + rest * (high - low) == (4 - rest) * low + rest * high)
            by (nonlinear_arith);
        assert(-0x4_0000_0000_0000_0000 <= (4 - rest) * low + rest * high
            <= 0x4_0000_0000_0000_0000) by (nonlinear_arith)
            requires
                0 <= rest <= 3,
                -0x8000_0000_0000_0000 <= low <= 0x7fff_ffff_ffff_ffff,
                -0x8000_0000_0000_0000 <= high <= 0x7fff_ffff_ffff_ffff,
        ;
    }
    q
}

/// The limits of the interquartile test on the window that begins at
/// `from`.
fn iqr_limits(history: &Vec<i64>, from: usize, lower: Option<Boundary>, upper: Option<Boundary>) -> (r: (
    Option<i128>,
    Option<i128>,
))
    requires
        from < history.len(),
        history.len() - from <= MAX_SAMPLES,
        boundary_within(lower, MAX_FACTOR),
        boundary_within(upper, MAX_FACTOR),
    ensures
        match lower {
            Some(b) => r.0 matches Some(l) && l == iqr_lower(
                history@.subrange(from as int, history.len() as int),
                b.0 as int,
            ),
            None => r.0 is None,
        },
        match upper {
            Some(b) => r.1 matches Some(u) && u == iqr_upper(
                history@.subrange(from as int, history.len() as int),
                b.0 as int,
            ),
            None => r.1 is None,
        },
{
    let sorted = sort_window(history, from);
    let first = quartile(&sorted, 1);
    let third = quartile(&sorted, 3);
    let range = third - first;
    let lo = match lower {
        Some(b) => {
            let k = b.0 as i128;
            assert(-0x8_0000_0000_0000_0000 * 16384 <= k * range <= 0x8_0000_0000_0000_0000
                * 16384) by (nonlinear_arith)
                requires
                    0 <= k <= 16384,
                    -0x8_0000_0000_0000_0000 <= range <= 0x8_0000_0000_0000_0000,
            ;
            Some(div_ceil(1000 * first - k * range, 4000))
        },
        None => None,
    };
    let hi = match upper {
        Some(b) => {
            let k = b.0 as i128;
            assert(-0x8_0000_0000_0000_0000 * 16384 <= k * range <= 0x8_0000_0000_0000_0000
                * 16384) by (nonlinear_arith)
                requires
                    0 <= k <= 16384,
                    -0x8_0000_0000_0000_0000 <= range <= 0x8_0000_0000_0000_0000,
            ;
            Some(div_floor(1000 * third + k * range, 4000))
        },
        None => None,
    };
    (lo, hi)
}

/// Evaluates a model on the history of a measure, from the oldest sample
/// to the newest, and a new value: the limits that the model puts around
/// the history, and how the value stands to them. A t-test that guards a
/// side misses its critical value here: it is evaluated with
/// `evaluate_with`.
pub fn evaluate(model: &Model, history: &Vec<i64>, candidate: &JsonMetric) -> (r: Result<
    BoundaryVerdict,
    ConfigurationFailure,
>)
    ensures
        r == verdict(*model, history@, candidate.value),
{
    evaluate_with(model, history, candidate, &Critical { lower: None, upper: None })
}

/// Evaluates a model on the history of a measure, from the oldest sample
/// to the newest, and a new value, with the critical values that its
/// t-test needs: the limits that the model puts around the history, and
/// how the value stands to them.
pub fn evaluate_with(
    model: &Model,
    history: &Vec<i64>,
    candidate: &JsonMetric,
    critical: &Critical,
) -> (r: Result<BoundaryVerdict, ConfigurationFailure>)
    ensures
        r == verdict_with(*model, history@, candidate.value, *critical),
{
    let k = samples_in_window(model, history.len());
    let from = history.len() - k;
    let ghost w = window_of(*model, history@);
    match model.test {
        ModelTest::TTest => {
            if !within(model.lower_boundary, MAX_CONFIDENCE) || !within(
                model.upper_boundary,
                MAX_CONFIDENCE,
            ) || !within(critical.lower, MAX_FACTOR) || !within(critical.upper, MAX_FACTOR) {
                return Err(ConfigurationFailure::InvalidBoundary);
            }
            if (model.lower_boundary.is_some() && critical.lower.is_none()) || (
            model.upper_boundary.is_some() && critical.upper.is_none()) {
                return Err(ConfigurationFailure::MissingParameter);
            }
            if !enough_samples(model, k) {
                return Ok(
                    BoundaryVerdict {
                        outcome: BoundaryOutcome::InsufficientData,
                        lower_limit: None,
                        upper_limit: None,
                    },
                );
            }
            if k > MAX_SAMPLES {
                return Err(ConfigurationFailure::OutOfRange);
            }
            let lower = match model.lower_boundary {
                Some(_) => critical.lower,
                None => None,
            };
            let upper = match model.upper_boundary {
                Some(_) => critical.upper,
                None => None,
            };
            match spread_limits(history, from, lower, upper, true) {
                Some((lower, upper)) => check_wide(candidate.value, lower, upper),
                None => Err(ConfigurationFailure::OutOfRange),
            }
        },
        ModelTest::Iqr => {
            if !within(model.lower_boundary, MAX_FACTOR) || !within(
                model.upper_boundary,
                MAX_FACTOR,
            ) {
                return Err(ConfigurationFailure::InvalidBoundary);
            }
            if !enough_samples(model, k) {
                return Ok(
                    BoundaryVerdict {
                        outcome: BoundaryOutcome::InsufficientData,
                        lower_limit: None,
                        upper_limit: None,
                    },
                );
            }
            if k > MAX_SAMPLES {
                return Err(ConfigurationFailure::OutOfRange);
            }
            let (lower, upper) = iqr_limits(
                history,
                from,
                model.lower_boundary,
                model.upper_boundary,
            );
            check_wide(candidate.value, lower, upper)
        },
        ModelTest::Static => {
            if !enough_samples(model, k) {
                return Ok(
                    BoundaryVerdict {
                        outcome: BoundaryOutcome::InsufficientData,
                        lower_limit: None,
                        upper_limit: None,
                    },
                );
            }
            let lower = match model.lower_boundary {
                Some(b) => Some(b.0),
                None => None,
            };
            let upper = match model.upper_boundary {
                Some(b) => Some(b.0),
                None => None,
            };
            Ok(check_limits(candidate.value, lower, upper))
        },
        ModelTest::Percentage => {
            if !within(model.lower_boundary, MAX_PERCENTAGE) || !within(
                model.upper_boundary,
                MAX_PERCENTAGE,
            ) {
                return Err(ConfigurationFailure::InvalidBoundary);
            }
            if !enough_samples(model, k) {
                return Ok(
                    BoundaryVerdict {
                        outcome: BoundaryOutcome::InsufficientData,
                        lower_limit: None,
                        upper_limit: None,
                    },
                );
            }
            let baseline = history[history.len() - 1];
            assert(baseline == w.last());
            let (lower, upper) = percentage_limits(
                baseline,
                model.lower_boundary,
                model.upper_boundary,
            );
            check_wide(candidate.value, lower, upper)
        },
        ModelTest::ZScore => {
            if !within(model.lower_boundary, MAX_FACTOR) || !within(
                model.upper_boundary,
                MAX_FACTOR,
            ) {
                return Err(ConfigurationFailure::InvalidBoundary);
            }
            if !enough_samples(model, k) {
                return Ok(
                    BoundaryVerdict {
                        outcome: BoundaryOutcome::InsufficientData,
                        lower_limit: None,
                        upper_limit: None,
                    },
                );
            }
            if k > MAX_SAMPLES {
                return Err(ConfigurationFailure::OutOfRange);
            }
            match spread_limits(
                history,
                from,
                model.lower_boundary,
                model.upper_boundary,
                false,
            ) {
                Some((lower, upper)) => check_wide(candidate.value, lower, upper),
                None => Err(ConfigurationFailure::OutOfRange),
            }
        },
    }
}

} // verus!
