//! Distances in standard deviations, wherever there is a deviation.
use vstd::arithmetic::power2::pow2;
use vstd::prelude::*;

use crate::anomaly::zscore::z_score_raw_spec;
use crate::binary64::bounds::law_quotient_against;
use crate::binary64::order::law_order_is_numeric;
use crate::binary64::rounding::lemma_units_order;
use crate::binary64::Binary64;

verus! {

/// The distance of `value` from `mean`; `None` where there is no deviation.
pub open spec fn z_score_spec(
    value: Binary64,
    mean: Binary64,
    stddev: Binary64,
) -> Option<Binary64> {
    if stddev.le_spec(Binary64::zero()) {
        None
    } else {
        Some(z_score_raw_spec(value, mean, stddev))
    }
}

/// The distance of `value` from `mean`; `None` where there is no deviation.
pub fn z_score(value: Binary64, mean: Binary64, stddev: Binary64) -> (r: Option<Binary64>)
    ensures
        r == z_score_spec(value, mean, stddev),
{
    if stddev.le(Binary64::zero()) {
        None
    } else {
        Some(value.minus(mean).over(stddev))
    }
}

/// The distance of `value` from `mean`, cut off at ten standard deviations; `None` where
/// there is no deviation.
pub open spec fn clipped_spec(
    value: Binary64,
    mean: Binary64,
    stddev: Binary64,
) -> Option<Binary64> {
    match z_score_spec(value, mean, stddev) {
        Some(z) => Some(z.clamp_spec(Binary64::ten().neg_spec(), Binary64::ten())),
        None => None,
    }
}

/// The distance of `value` from `mean`, cut off at ten standard deviations; `None` where
/// there is no deviation.
pub fn robust_z_score_clipped(value: Binary64, mean: Binary64, stddev: Binary64) -> (r: Option<
    Binary64,
>)
    ensures
        r == clipped_spec(value, mean, stddev),
{
    match z_score(value, mean, stddev) {
        Some(z) => Some(z.clamp(Binary64::ten().neg(), Binary64::ten())),
        None => None,
    }
}

/// Where there is a deviation, a distance is `value - mean` in deviations: it is at least `c`
/// where `value - mean` is at least `c` deviations, and at most `c` where that is at most `c`
/// deviations. Without a deviation above 0 there is no distance.
pub proof fn law_distance_in_deviations(
    value: Binary64,
    mean: Binary64,
    stddev: Binary64,
    c: Binary64,
)
    requires
        c.finite(),
        value.minus_spec(mean).finite(),
        stddev.finite(),
    ensures
        stddev.value() <= 0 <==> z_score_spec(value, mean, stddev) is None,
        z_score_spec(value, mean, stddev) matches Some(z) ==> {
            let d = value.minus_spec(mean).value();
            &&& d * pow2(1074) >= c.value() * stddev.value() ==> c.le_spec(z)
            &&& d * pow2(1074) <= c.value() * stddev.value() ==> z.le_spec(c)
        },
{
    let d = value.minus_spec(mean);
    law_order_is_numeric(stddev, Binary64::zero());
    lemma_units_order(0, stddev.mag());
    if stddev.value() > 0 {
        law_quotient_against(d, stddev, c);
    }
}

/// A distance that is cut off is from -10 to 10, and is the distance itself within these.
pub proof fn law_distance_is_cut_off_at_ten(value: Binary64, mean: Binary64, stddev: Binary64)
    ensures
        z_score_spec(value, mean, stddev) is None <==> clipped_spec(value, mean, stddev) is None,
        clipped_spec(value, mean, stddev) matches Some(z) ==> {
            let far = z_score_spec(value, mean, stddev)->0;
            let ten = Binary64::ten();
            &&& ten.lt_spec(far) ==> z == ten
            &&& far.lt_spec(ten.neg_spec()) ==> z == ten.neg_spec()
            &&& !ten.lt_spec(far) && !far.lt_spec(ten.neg_spec()) ==> z == far
        },
{
}

} // verus!
