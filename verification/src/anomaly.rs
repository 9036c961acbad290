//! Anomaly detection.
//!
//! [`ewma::EwmaDetector`] holds rates against the baseline, [`emergency::EmergencyDetector`]
//! against absolute thresholds; [`synflood`] and [`port_scan_detector`] look at single source
//! addresses.
use vstd::prelude::*;

use crate::binary64::bounds::{
    law_difference_against, law_difference_is_monotonic, law_quotient_against,
};
use crate::binary64::order::law_order_is_numeric;
use crate::binary64::laws::{
    law_quotient_is_a_number, law_quotient_of_positive_numbers, law_sum_is_a_number, lemma_nearest_at_least, lemma_nearest_at_most,
    lemma_nearest_exists, lemma_units_of_small_numbers,
};
use crate::binary64::rounding::lemma_units_order;
use crate::binary64::{excess, nearest, units, Binary64, Exact};
use vstd::arithmetic::power2::{lemma_pow2_pos, pow2};

pub mod classifier;
pub mod detector;
pub mod emergency;
pub mod ewma;
pub mod model;
pub mod port_scan_detector;
pub mod synflood;
pub mod zscore;

verus! {

/// `observed / threshold - 1`, moved into `[0, 1]`.
pub open spec fn ratio_confidence_spec(observed: Binary64, threshold: Binary64) -> Binary64 {
    observed.over_spec(threshold).minus_spec(Binary64::one()).clamp_spec(
        Binary64::zero(),
        Binary64::one(),
    )
}

/// How far `observed` is above `threshold`, from 0 at the threshold to 1 at twice the
/// threshold.
pub fn ratio_confidence(observed: Binary64, threshold: Binary64) -> (r: Binary64)
    ensures
        r == ratio_confidence_spec(observed, threshold),
{
    observed.over(threshold).minus(Binary64::one()).clamp(Binary64::zero(), Binary64::one())
}

/// Whether `x` is a number from 0 to 1.
pub open spec fn in_unit_interval(x: Binary64) -> bool {
    Binary64::zero().le_spec(x) && x.le_spec(Binary64::one())
}

/// The confidence is a number from 0 to 1.
pub proof fn law_ratio_confidence_in_unit_interval(observed: Binary64, threshold: Binary64)
    requires
        !observed.nan(),
        threshold.finite(),
        threshold.rank() > 0,
    ensures
        in_unit_interval(ratio_confidence_spec(observed, threshold)),
{
    law_quotient_is_a_number(observed, threshold);
    law_sum_is_a_number(observed.over_spec(threshold), Binary64::one());
}

/// The confidence is 0 up to the threshold, and 1 from twice the threshold on.
pub proof fn law_ratio_confidence_ends(observed: Binary64, threshold: Binary64)
    requires
        observed.finite(),
        !observed.negative(),
        threshold.finite(),
        threshold.rank() > 0,
    ensures
        observed.le_spec(threshold) ==> ratio_confidence_spec(observed, threshold)
            == Binary64::zero(),
        observed.value() >= 2 * threshold.value() ==> ratio_confidence_spec(observed, threshold)
            == Binary64::one(),
{
    let a = units(observed.mag());
    let b = units(threshold.mag());
    let c = pow2(1074) as int;
    let x = Exact::Ratio { n: a * c, d: b };
    let ratio = observed.over_spec(threshold);
    let one = Binary64::one();
    lemma_units_of_small_numbers();
    lemma_pow2_pos(1074);
    lemma_units_order(0, threshold.mag());
    lemma_units_order(0, observed.mag());
    lemma_units_order(observed.mag(), threshold.mag());
    assert(a * c >= 0) by (nonlinear_arith)
        requires
            a >= 0,
            c > 0,
    ;
    reveal(Binary64::over_spec);
    lemma_nearest_exists(x);
    assert(ratio.mag() == nearest(x) && !ratio.negative());
    if observed.le_spec(threshold) {
        assert(a <= b);
        assert(2 * (a * c) <= 2 * (units(one.mag())) * b) by (nonlinear_arith)
            requires
                a <= b,
                c > 0,
                units(one.mag()) == c,
        ;
        lemma_nearest_at_most(x, one.mag());
        lemma_less_one(ratio);
    }
    if observed.value() >= 2 * threshold.value() {
        let two = Binary64::two();
        assert(2 * (a * c) >= 2 * (units(two.mag())) * b) by (nonlinear_arith)
            requires
                a >= 2 * b,
                c > 0,
                units(two.mag()) == 2 * c,
        ;
        lemma_nearest_at_least(x, two.mag());
        lemma_less_one(ratio);
    }
}

/// A number up to 1 is at most zero once 1 is taken from it; one from 2 on is at least 1.
proof fn lemma_less_one(ratio: Binary64)
    requires
        !ratio.nan(),
        !ratio.negative(),
    ensures
        ratio.mag() <= Binary64::one().mag() ==> {
            let less = ratio.minus_spec(Binary64::one());
            less == Binary64::zero() || less.lt_spec(Binary64::zero())
        },
        ratio.mag() >= Binary64::two().mag() ==> Binary64::one().le_spec(
            ratio.minus_spec(Binary64::one()),
        ) && !ratio.minus_spec(Binary64::one()).negative(),
{
    let one = Binary64::one();
    let two = Binary64::two();
    reveal(Binary64::plus_spec);
    reveal(Binary64::minus_spec);
    lemma_units_of_small_numbers();
    lemma_pow2_pos(1074);
    let u = units(ratio.mag());
    let c = pow2(1074) as int;
    lemma_units_order(ratio.mag(), one.mag());
    lemma_units_order(two.mag(), ratio.mag());
    if ratio.mag() < one.mag() {
        let x = Exact::Ratio { n: c - u, d: 1 };
        lemma_nearest_exists(x);
        lemma_units_order(0, 1);
        lemma_nearest_at_least(x, 1);
    }
    if two.mag() <= ratio.mag() && ratio.finite() {
        let x = Exact::Ratio { n: u - c, d: 1 };
        lemma_nearest_exists(x);
        assert(u >= 2 * c);
        assert(excess(x, 2 * units(one.mag())) == 2 * (u - c) - 2 * c);
        lemma_nearest_at_least(x, one.mag());
    }
}

/// A difference to 1 of a larger number is no smaller.
pub proof fn lemma_less_one_is_monotonic(a: Binary64, b: Binary64)
    requires
        a.le_spec(b),
        !a.negative(),
        !b.negative(),
    ensures
        a.minus_spec(Binary64::one()).le_spec(b.minus_spec(Binary64::one())),
{
    let one = Binary64::one();
    law_sum_is_a_number(a, one);
    law_sum_is_a_number(b, one);
    if b.infinite() {
        reveal(Binary64::plus_spec);
        reveal(Binary64::minus_spec);
    } else {
        lemma_units_order(a.mag(), b.mag());
        law_difference_is_monotonic(a, b, one);
    }
}

/// The confidence is at least `c - 1` where `observed` is at least `c` thresholds, and at most
/// `c - 1` where it is at most `c` thresholds, for every `c` from 1 to 2.
pub proof fn law_ratio_confidence_against(observed: Binary64, threshold: Binary64, c: Binary64)
    requires
        observed.finite(),
        !observed.negative(),
        threshold.finite(),
        threshold.rank() > 0,
        c.finite() && Binary64::one().le_spec(c) && c.le_spec(Binary64::two()),
    ensures
        observed.value() * pow2(1074) >= c.value() * threshold.value() ==> c.minus_spec(
            Binary64::one(),
        ).le_spec(ratio_confidence_spec(observed, threshold)),
        observed.value() * pow2(1074) <= c.value() * threshold.value() ==> ratio_confidence_spec(
            observed,
            threshold,
        ).le_spec(c.minus_spec(Binary64::one())),
{
    let ratio = observed.over_spec(threshold);
    law_quotient_against(observed, threshold, c);
    law_quotient_of_positive_numbers(observed, threshold);
    lemma_ratio_less_one(ratio, c);
}

/// A ratio that is at least `c`, less 1 and cut to `[0, 1]`, is at least `c - 1`; one that is
/// at most `c` comes to at most `c - 1`.
pub proof fn lemma_ratio_less_one(ratio: Binary64, c: Binary64)
    requires
        !ratio.nan() && !ratio.negative(),
        c.finite() && Binary64::one().le_spec(c) && c.le_spec(Binary64::two()),
    ensures
        ({
            let cut = ratio.minus_spec(Binary64::one()).clamp_spec(
                Binary64::zero(),
                Binary64::one(),
            );
            &&& in_unit_interval(cut)
            &&& c.le_spec(ratio) ==> c.minus_spec(Binary64::one()).le_spec(cut)
            &&& ratio.le_spec(c) ==> cut.le_spec(c.minus_spec(Binary64::one()))
        }),
{
    let one = Binary64::one();
    let zero = Binary64::zero();
    law_sum_is_a_number(ratio, one);
    law_sum_is_a_number(c, one);
    lemma_units_of_small_numbers();
    lemma_pow2_pos(1074);
    law_order_is_numeric(one, c);
    law_order_is_numeric(c, Binary64::two());
    law_difference_against(c, one, zero);
    law_difference_against(c, one, one);
    if c.le_spec(ratio) {
        lemma_less_one_is_monotonic(c, ratio);
    }
    if ratio.le_spec(c) {
        lemma_less_one_is_monotonic(ratio, c);
    }
}

} // verus!
