//! Distances from the baseline, in standard deviations.
use vstd::arithmetic::power2::pow2;
use vstd::prelude::*;

use crate::baseline::estimator::ProtoBaseline;
use crate::binary64::bounds::{law_difference_against, law_quotient_against};
use crate::binary64::laws::law_quotient_is_a_number;
use crate::binary64::order::law_order_is_numeric;
use crate::binary64::rounding::lemma_units_order;
use crate::binary64::Binary64;

verus! {

/// `(value - mean) / stddev`.
pub open spec fn z_score_raw_spec(value: Binary64, mean: Binary64, stddev: Binary64) -> Binary64 {
    value.minus_spec(mean).over_spec(stddev)
}

fn z_score_raw(value: Binary64, mean: Binary64, stddev: Binary64) -> (r: Binary64)
    ensures
        r == z_score_raw_spec(value, mean, stddev),
{
    value.minus(mean).over(stddev)
}

/// The distance of `value` from `mean`; `None` where the deviation is at most 1e-9.
pub open spec fn z_score_spec(
    value: Binary64,
    mean: Binary64,
    stddev: Binary64,
) -> Option<Binary64> {
    if stddev.le_spec(Binary64::billionth()) {
        None
    } else {
        Some(z_score_raw_spec(value, mean, stddev))
    }
}

fn z_score(value: Binary64, mean: Binary64, stddev: Binary64) -> (r: Option<Binary64>)
    ensures
        r == z_score_spec(value, mean, stddev),
{
    if stddev.le(Binary64::billionth()) {
        None
    } else {
        Some(z_score_raw(value, mean, stddev))
    }
}

/// -10.0
#[verifier::allow_in_spec]
fn minus_ten() -> Binary64
    returns
        (Binary64 { bits: 0xc024_0000_0000_0000 }),
{
    Binary64 { bits: 0xc024_0000_0000_0000 }
}

/// The distance of `value` from `mean`, cut off at ten standard deviations; `None` where the
/// deviation is at most 1e-9.
pub fn robust_z_score_clipped(value: Binary64, mean: Binary64, stddev: Binary64) -> (r: Option<
    Binary64,
>)
    ensures
        r == (match z_score_spec(value, mean, stddev) {
            Some(z) => Some(
                z.clamp_spec(Binary64 { bits: 0xc024_0000_0000_0000 }, Binary64::ten()),
            ),
            None => None,
        }),
{
    match z_score(value, mean, stddev) {
        Some(z) => Some(z.clamp(minus_ten(), Binary64::ten())),
        None => None,
    }
}

/// The distance of `value` from `mean`; 0 where the deviation is too small to go by.
pub open spec fn z_or_zero(value: Binary64, mean: Binary64, stddev: Binary64) -> Binary64 {
    match z_score_spec(value, mean, stddev) {
        Some(z) => z,
        None => Binary64::zero(),
    }
}

/// The distances of a packet rate and a byte rate from the baseline.
pub open spec fn proto_z_scores(
    baseline: ProtoBaseline,
    pps: Binary64,
    bps: Binary64,
) -> (Binary64, Binary64) {
    (
        z_or_zero(pps, baseline.pps.mean, baseline.pps.stddev),
        z_or_zero(bps, baseline.bps.mean, baseline.bps.stddev),
    )
}

/// The distances of a packet rate and a byte rate from the baseline, each 0 where its own
/// deviation is too small to go by.
pub fn compute_proto_z_scores(
    baseline: &ProtoBaseline,
    observed_pps: Binary64,
    observed_bps: Binary64,
) -> (r: (Binary64, Binary64))
    ensures
        r == proto_z_scores(*baseline, observed_pps, observed_bps),
{
    let z_pps: Binary64 = match z_score(observed_pps, baseline.pps.mean, baseline.pps.stddev) {
        Some(z) => z,
        None => Binary64::zero(),
    };
    let z_bps: Binary64 = match z_score(observed_bps, baseline.bps.mean, baseline.bps.stddev) {
        Some(z) => z,
        None => Binary64::zero(),
    };
    (z_pps, z_bps)
}

/// Where the deviation is more than 1e-9, a distance is `value - mean` in deviations: it is
/// at least `c` where `value - mean` is at least `c` deviations, and at most `c` where that
/// is at most `c` deviations. So it has the sign of `value - mean`. Where the deviation is no
/// more than 1e-9, it is 0. The two rates do not mix: each is held against its own mean and
/// deviation.
pub proof fn law_distance_in_deviations(
    baseline: ProtoBaseline,
    pps: Binary64,
    bps: Binary64,
    c: Binary64,
)
    requires
        c.finite(),
        pps.minus_spec(baseline.pps.mean).finite(),
        bps.minus_spec(baseline.bps.mean).finite(),
        baseline.pps.stddev.finite(),
        baseline.bps.stddev.finite(),
    ensures
        ({
            let (z_pps, z_bps) = proto_z_scores(baseline, pps, bps);
            &&& is_distance(z_pps, pps.minus_spec(baseline.pps.mean), baseline.pps.stddev, c)
            &&& is_distance(z_bps, bps.minus_spec(baseline.bps.mean), baseline.bps.stddev, c)
        }),
{
    lemma_distance(pps, baseline.pps.mean, baseline.pps.stddev, c);
    lemma_distance(bps, baseline.bps.mean, baseline.bps.stddev, c);
}

/// Whether `z` stands to `c` as `d` stands to `c` times `stddev`; 0 where there is no
/// deviation to speak of.
pub open spec fn is_distance(z: Binary64, d: Binary64, stddev: Binary64, c: Binary64) -> bool {
    &&& stddev.value() > Binary64::billionth().value() ==> {
        &&& d.value() * pow2(1074) >= c.value() * stddev.value() ==> c.le_spec(z)
        &&& d.value() * pow2(1074) <= c.value() * stddev.value() ==> z.le_spec(c)
        &&& d.value() < 0 ==> z.negative()
        &&& d.value() > 0 ==> !z.negative()
    }
    &&& stddev.value() <= Binary64::billionth().value() ==> z == Binary64::zero()
}

proof fn lemma_distance(value: Binary64, mean: Binary64, stddev: Binary64, c: Binary64)
    requires
        c.finite(),
        value.minus_spec(mean).finite(),
        stddev.finite(),
    ensures
        is_distance(z_or_zero(value, mean, stddev), value.minus_spec(mean), stddev, c),
{
    let d = value.minus_spec(mean);
    law_order_is_numeric(stddev, Binary64::billionth());
    if stddev.value() > Binary64::billionth().value() {
        lemma_units_order(0, Binary64::billionth().mag());
        lemma_units_order(0, stddev.mag());
        lemma_units_order(0, d.mag());
        law_quotient_against(d, stddev, c);
        law_quotient_is_a_number(d, stddev);
    }
}

/// The sign of a distance tells on which side of its mean a rate is, whatever the deviation.
pub proof fn law_distance_has_the_side_of_the_rate(
    value: Binary64,
    mean: Binary64,
    stddev: Binary64,
)
    requires
        value.finite(),
        mean.finite(),
        stddev.finite() && stddev.value() > Binary64::billionth().value(),
    ensures
        value.value() >= mean.value() ==> Binary64::zero().le_spec(z_or_zero(value, mean, stddev)),
        value.value() <= mean.value() ==> z_or_zero(value, mean, stddev).le_spec(Binary64::zero()),
{
    let zero = Binary64::zero();
    let d = value.minus_spec(mean);
    law_order_is_numeric(stddev, Binary64::billionth());
    law_difference_against(value, mean, zero);
    lemma_units_order(0, Binary64::billionth().mag());
    lemma_units_order(0, stddev.mag());
    if d.finite() {
        lemma_units_order(0, d.mag());
        law_quotient_against(d, stddev, zero);
        assert(zero.value() * stddev.value() == 0) by (nonlinear_arith)
            requires
                zero.value() == 0,
        ;
        let x = d.value();
        let p = pow2(1074) as int;
        assert(x >= 0 ==> x * p >= 0) by (nonlinear_arith)
            requires
                p >= 0,
        ;
        assert(x <= 0 ==> x * p <= 0) by (nonlinear_arith)
            requires
                p >= 0,
        ;
    } else {
        reveal(Binary64::over_spec);
    }
}

} // verus!
