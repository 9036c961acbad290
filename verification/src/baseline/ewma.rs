//! Exponentially weighted moving averages.
use vstd::arithmetic::power2::{lemma2_to64, lemma_pow2_adds, lemma_pow2_pos, pow2};
use vstd::prelude::*;

use crate::binary64::bounds::{
    law_difference_against, law_product_against, law_root_against, law_root_is_monotonic,
    law_sum_against,
};
use crate::binary64::constants::law_whole_constants;
use crate::binary64::laws::{law_minus_self, law_product_of_positive_numbers};
use crate::binary64::order::law_order_is_numeric;
use crate::binary64::rounding::{lemma_units_of_parts, lemma_units_order};
use crate::binary64::{units, Binary64, BINADE};

verus! {

/// Running estimates of mean, variance and mean absolute deviation.
///
/// Each sample moves the mean by a bounded step, so that a single outlier cannot carry the
/// baseline away.
#[derive(Debug, Clone, Copy)]
pub struct Ewma {
    /// Weight of a new sample.
    pub alpha: Binary64,
    pub mean: Binary64,
    pub variance: Binary64,
    /// Mean absolute deviation.
    pub mad: Binary64,
    pub samples: u64,
}

/// `delta` moved into `[-k * scale, k * scale]`.
pub open spec fn huber_spec(delta: Binary64, scale: Binary64, k: Binary64) -> Binary64 {
    let limit = k.times_spec(scale);
    delta.clamp_spec(limit.neg_spec(), limit)
}

/// `delta` moved into `[-k * scale, k * scale]`.
fn huber(delta: Binary64, scale: Binary64, k: Binary64) -> (r: Binary64)
    requires
        !scale.nan() && scale.rank() > 0,
        !k.nan() && k.rank() > 0,
    ensures
        r == huber_spec(delta, scale, k),
{
    let limit: Binary64 = k.times(scale);
    proof {
        law_product_of_positive_numbers(k, scale);
    }
    delta.clamp(limit.neg(), limit)
}

/// A weighted average of `old` and `new`.
pub open spec fn blend(alpha: Binary64, old: Binary64, new: Binary64) -> Binary64 {
    Binary64::one().minus_spec(alpha).times_spec(old).plus_spec(new)
}

impl Ewma {
    /// The standard deviation; never below 1e-9.
    pub open spec fn stddev_spec(self) -> Binary64 {
        self.variance.sqrt_spec().max_spec(Binary64::billionth())
    }

    /// The larger of 1.4826 times the mean absolute deviation and a quarter of the standard
    /// deviation; never below 1e-9.
    pub open spec fn robust_stddev_spec(self) -> Binary64 {
        Binary64::mad_factor().times_spec(self.mad).max_spec(
            self.variance.sqrt_spec().times_spec(Binary64::quarter()),
        ).max_spec(Binary64::billionth())
    }

    /// How far `sample` moves the estimates: its distance from the mean, cut off at three
    /// robust standard deviations.
    pub open spec fn bounded_delta(self, sample: Binary64) -> Binary64 {
        huber_spec(sample.minus_spec(self.mean), self.robust_stddev_spec(), Binary64::three())
    }

    /// The estimates with `sample` taken in.
    pub open spec fn updated(self, sample: Binary64) -> Ewma {
        let step = self.bounded_delta(sample);
        let weighted = self.alpha.times_spec(step);
        let deviation = sample.minus_spec(self.mean).abs_spec();
        Ewma {
            alpha: self.alpha,
            mean: self.mean.plus_spec(weighted),
            variance: blend(self.alpha, self.variance, weighted.times_spec(step)),
            mad: blend(self.alpha, self.mad, self.alpha.times_spec(deviation)),
            samples: if self.samples < u64::MAX {
                (self.samples + 1) as u64
            } else {
                self.samples
            },
        }
    }

    /// Estimates from no sample, with the given weight of new samples.
    pub fn new(alpha: Binary64) -> (r: Self)
        ensures
            r == (Ewma {
                alpha,
                mean: Binary64::zero(),
                variance: Binary64::zero(),
                mad: Binary64::zero(),
                samples: 0,
            }),
    {
        Ewma {
            alpha,
            mean: Binary64::zero(),
            variance: Binary64::zero(),
            mad: Binary64::zero(),
            samples: 0,
        }
    }

    /// Takes a sample in.
    pub fn update(&mut self, sample: Binary64)
        ensures
            *final(self) == old(self).updated(sample),
    {
        self.samples = self.samples.saturating_add(1);
        let delta: Binary64 = sample.minus(self.mean);
        let scale: Binary64 = self.robust_stddev();
        let step: Binary64 = huber(delta, scale, Binary64::three());
        let weighted: Binary64 = self.alpha.times(step);
        self.mean = self.mean.plus(weighted);
        let keep: Binary64 = Binary64::one().minus(self.alpha);
        self.variance = keep.times(self.variance).plus(weighted.times(step));
        self.mad = keep.times(self.mad).plus(self.alpha.times(delta.abs()));
    }

    /// The mean.
    pub fn mean(&self) -> (r: Binary64)
        ensures
            r == self.mean,
    {
        self.mean
    }

    /// The standard deviation; never below 1e-9.
    pub fn stddev(&self) -> (r: Binary64)
        ensures
            r == self.stddev_spec(),
    {
        self.variance.sqrt().max(Binary64::billionth())
    }

    /// A standard deviation that outliers move little; never below 1e-9.
    pub fn robust_stddev(&self) -> (r: Binary64)
        ensures
            r == self.robust_stddev_spec(),
            Binary64::billionth().le_spec(r),
    {
        let mad_sigma: Binary64 = Binary64::mad_factor().times(self.mad);
        let var_sigma: Binary64 = self.variance.sqrt();
        mad_sigma.max(var_sigma.times(Binary64::quarter())).max(Binary64::billionth())
    }
}

/// Both standard deviations are numbers of at least 1e-9, whatever the samples were.
pub proof fn law_stddev_floor(e: Ewma)
    ensures
        Binary64::billionth().le_spec(e.stddev_spec()),
        Binary64::billionth().le_spec(e.robust_stddev_spec()),
{
}

/// A sample moves the estimates by at most three robust standard deviations: the step is cut
/// off at that distance, and is the sample's own distance from the mean if that is less.
pub proof fn law_outliers_are_clipped(e: Ewma, sample: Binary64)
    ensures
        ({
            let delta = sample.minus_spec(e.mean);
            let limit = Binary64::three().times_spec(e.robust_stddev_spec());
            let step = e.bounded_delta(sample);
            &&& !limit.nan() && !limit.negative()
            &&& !delta.nan() ==> limit.neg_spec().le_spec(step) && step.le_spec(limit)
            &&& limit.neg_spec().le_spec(delta) && delta.le_spec(limit) ==> step == delta
        }),
{
    law_stddev_floor(e);
    law_product_of_positive_numbers(Binary64::three(), e.robust_stddev_spec());
}

/// Whether `s` is the root of `variance`, as near as a double comes to it, on the numbers that
/// the doubles stand for. With `m` the midpoint between `s` and the double next to it, on
/// either side, `variance` is on the side of `m * m` on which `s` is. A variance below 1e-18
/// has a root below the floor of 1e-9, which takes its place.
pub open spec fn is_root_above_floor(s: Binary64, variance: Binary64) -> bool {
    let v = variance.value() * pow2(1074);
    let below = units(s.mag() - 1) + units(s.mag());
    let above = units(s.mag()) + units(s.mag() + 1);
    &&& s.finite() && s.rank() > 0
    &&& variance.value() * 1_000_000_000_000_000_000 >= pow2(1074) ==> below * below <= 4 * v && 4
        * v <= above * above
    &&& variance.value() * 1_000_000_000_000_000_000 < pow2(1074) ==> s == Binary64::billionth()
}

/// The standard deviation is the square root of the variance, up to rounding and down to 1e-9.
/// Where a double `c` from 1e-9 on has exactly the variance as its square, it is `c`; and of
/// two variances the larger one has the larger deviation, or the same.
pub proof fn law_deviation_is_the_root(e: Ewma, c: Binary64, other: Ewma)
    requires
        e.variance.finite() && e.variance.value() >= 0,
        c.finite() && Binary64::billionth().le_spec(c),
        other.variance.finite() && other.variance.value() >= e.variance.value(),
    ensures
        is_root_above_floor(e.stddev_spec(), e.variance),
        c.value() * c.value() == e.variance.value() * pow2(1074) ==> e.stddev_spec() == c,
        e.stddev_spec().le_spec(other.stddev_spec()),
{
    let floor = Binary64::billionth();
    let root = e.variance.sqrt_spec();
    law_root_against(e.variance, c);
    law_root_against(e.variance, floor);
    lemma_floor_in_units();
    let p = pow2(1074) as int;
    let h = pow2(992) as int;
    let v = e.variance.value();
    let f = units(floor.mag());
    assert(v * p >= 0) by (nonlinear_arith)
        requires
            v >= 0,
            p > 0,
    ;
    if v * 1_000_000_000_000_000_000 >= p {
        if root.mag() < floor.mag() {
            let k = root.mag();
            let above = units(k) + units(k + 1);
            let t = units(floor.mag() - 1) + f;
            lemma_units_order(k, floor.mag() - 1);
            lemma_units_order(k + 1, floor.mag());
            lemma_units_order(0, k);
            lemma_units_order(0, k + 1);
            assert(above * above <= t * t) by (nonlinear_arith)
                requires
                    0 <= above <= t,
            ;
            assert(t == 9671406556917033 * h);
            assert(false) by (nonlinear_arith)
                requires
                    v * 1_000_000_000_000_000_000 >= p,
                    4 * (v * p) <= t * t,
                    t == 9671406556917033 * h,
                    p == 4835703278458516698824704 * h,
                    h > 0,
            {
                let g = h * h;
                assert(t * t == 9671406556917033 * 9671406556917033 * g);
                assert(p * p == 4835703278458516698824704 * 4835703278458516698824704 * g);
                assert(v * p * 1_000_000_000_000_000_000 >= p * p);
            }
        }
    } else {
        assert(v * p <= f * f) by (nonlinear_arith)
            requires
                v * 1_000_000_000_000_000_000 < p,
                v >= 0,
                f == 4835703278458517 * h,
                p == 4835703278458516698824704 * h,
                h > 0,
        {
            let g = h * h;
            assert(f * f == 4835703278458517 * 4835703278458517 * g);
            assert(p * p == 4835703278458516698824704 * 4835703278458516698824704 * g);
            assert(v * p * 1_000_000_000_000_000_000 <= p * p);
        }
    }
    law_root_is_monotonic(e.variance, other.variance);
}

/// The floor of 1e-9 and the double below it, in units.
proof fn lemma_floor_in_units()
    ensures
        pow2(1074) == 4835703278458516698824704 * pow2(992),
        pow2(992) > 0,
        units(Binary64::billionth().mag()) == 4835703278458517 * pow2(992),
        units(Binary64::billionth().mag() - 1) == 4835703278458516 * pow2(992),
{
    lemma2_to64();
    lemma_pow2_adds(64, 18);
    lemma_pow2_adds(82, 992);
    lemma_pow2_pos(992);
    lemma_units_of_parts(992, 4835703278458517);
    lemma_units_of_parts(992, 4835703278458516);
    assert(992 * BINADE + 4835703278458517 == Binary64::billionth().mag());
}

/// The width that outliers are held against is 1.4826 mean absolute deviations or a quarter
/// of the root of the variance, whichever is more, and no less than 1e-9: it is at least `c`
/// as soon as one of the three is, and at most `c` if all of them are.
pub proof fn law_robust_deviation_is_the_largest(e: Ewma, c: Binary64, c4: Binary64)
    requires
        e.mad.finite() && e.mad.value() >= 0,
        e.variance.finite() && e.variance.value() >= 0,
        c.finite() && !c.negative(),
        c4.finite() && c4.value() == 4 * c.value(),
    ensures
        ({
            let r = e.robust_stddev_spec();
            let by_mad = Binary64::mad_factor().value() * e.mad.value();
            let by_root = e.variance.value() * pow2(1074);
            &&& Binary64::billionth().le_spec(r)
            &&& by_mad >= c.value() * pow2(1074) ==> c.le_spec(r)
            &&& by_root >= c4.value() * c4.value() ==> c.le_spec(r)
            &&& by_mad <= c.value() * pow2(1074) && by_root <= c4.value() * c4.value()
                && Binary64::billionth().le_spec(c) ==> r.le_spec(c)
        }),
{
    let root = e.variance.sqrt_spec();
    lemma_units_order(0, c.mag());
    lemma_units_order(0, c4.mag());
    law_product_against(Binary64::mad_factor(), e.mad, c);
    if c4.negative() {
        assert(c4.mag() == 0);
        law_root_against(e.variance, Binary64::zero());
        law_product_against(root, Binary64::quarter(), c);
        lemma_quarter(root, c);
        assert(c4.value() * c4.value() == 0);
        law_root_against(e.variance, c4.abs_spec());
    } else {
        law_root_against(e.variance, c4);
        law_order_is_numeric(root, c4);
        law_order_is_numeric(c4, root);
        law_product_against(root, Binary64::quarter(), c);
        lemma_quarter(root, c);
    }
}

/// A quarter of a number, against another number.
proof fn lemma_quarter(a: Binary64, c: Binary64)
    ensures
        a.value() >= 4 * c.value() ==> a.value() * Binary64::quarter().value() >= c.value() * pow2(
            1074,
        ),
        a.value() <= 4 * c.value() ==> a.value() * Binary64::quarter().value() <= c.value() * pow2(
            1074,
        ),
{
    lemma2_to64();
    lemma_pow2_adds(32, 20);
    lemma_pow2_adds(52, 1020);
    lemma_pow2_adds(1072, 2);
    lemma_pow2_pos(1072);
    lemma_units_of_parts(1020, BINADE as int);
    let q = Binary64::quarter().value();
    let p = pow2(1074) as int;
    assert(p == 4 * q);
    let x = a.value();
    let y = c.value();
    assert(x >= 4 * y ==> x * q >= y * p) by (nonlinear_arith)
        requires
            p == 4 * q,
            q > 0,
    ;
    assert(x <= 4 * y ==> x * q <= y * p) by (nonlinear_arith)
        requires
            p == 4 * q,
            q > 0,
    ;
}

/// What a sample does. With `d` its distance from the mean and `w` three robust deviations,
/// the mean takes in the share `alpha` of `d` where `d` is from `-w` to `w`, and of `w` or `-w`
/// beyond. The variance keeps a share of `1 - alpha` and takes in `alpha` times the square of
/// that step; the mean absolute deviation keeps the same share and takes in `alpha` times the
/// size of `d`, which is not cut off. One more sample is counted.
pub proof fn law_sample_is_taken_in(e: Ewma, sample: Binary64, step: Binary64)
    requires
        ({
            let d = sample.minus_spec(e.mean);
            let w = Binary64::three().times_spec(e.robust_stddev_spec());
            ||| w.neg_spec().le_spec(d) && d.le_spec(w) && step == d
            ||| w.lt_spec(d) && step == w
            ||| d.lt_spec(w.neg_spec()) && step == w.neg_spec()
        }),
    ensures
        ({
            let after = e.updated(sample);
            let keep = Binary64::one().minus_spec(e.alpha);
            let taken = e.alpha.times_spec(step);
            let size = sample.minus_spec(e.mean).abs_spec();
            &&& after.alpha == e.alpha
            &&& after.mean == e.mean.plus_spec(taken)
            &&& after.variance == keep.times_spec(e.variance).plus_spec(taken.times_spec(step))
            &&& after.mad == keep.times_spec(e.mad).plus_spec(e.alpha.times_spec(size))
            &&& e.samples < u64::MAX ==> after.samples == e.samples + 1
            &&& e.samples == u64::MAX ==> after.samples == u64::MAX
        }),
{
    law_stddev_floor(e);
    law_product_of_positive_numbers(Binary64::three(), e.robust_stddev_spec());
}

/// A sample above the mean does not lower it, one below does not raise it, and one that is
/// the mean leaves it where it is.
pub proof fn law_mean_moves_towards_the_sample(e: Ewma, sample: Binary64)
    requires
        e.mean.finite(),
        sample.finite(),
        e.alpha.finite() && e.alpha.value() >= 0,
        sample.minus_spec(e.mean).finite(),
    ensures
        sample.value() >= e.mean.value() ==> e.mean.le_spec(e.updated(sample).mean),
        sample.value() <= e.mean.value() ==> e.updated(sample).mean.le_spec(e.mean),
{
    let zero = Binary64::zero();
    let step = e.bounded_delta(sample);
    let taken = e.alpha.times_spec(step);
    law_outliers_are_clipped(e, sample);
    law_difference_against(sample, e.mean, zero);
    lemma_units_order(0, step.mag());
    lemma_units_order(0, e.alpha.mag());
    assert(step.finite());
    law_product_against(e.alpha, step, zero);
    let x = e.alpha.value();
    let y = step.value();
    assert(zero.value() * pow2(1074) == 0) by (nonlinear_arith)
        requires
            zero.value() == 0,
    ;
    assert(y >= 0 ==> x * y >= 0) by (nonlinear_arith)
        requires
            x >= 0,
    ;
    assert(y <= 0 ==> x * y <= 0) by (nonlinear_arith)
        requires
            x >= 0,
    ;
    if taken.finite() {
        lemma_units_order(0, taken.mag());
        law_sum_against(e.mean, taken, e.mean);
    } else {
        reveal(Binary64::plus_spec);
    }
}

/// Samples that do not deviate bring the deviations down: a sample that is the mean leaves the
/// mean, and neither the variance nor the mean absolute deviation grows.
pub proof fn law_steady_samples_calm_the_deviations(e: Ewma)
    requires
        e.mean.finite(),
        e.alpha.finite() && 0 <= e.alpha.value() <= pow2(1074),
        e.variance.finite() && e.variance.value() >= 0,
        e.mad.finite() && e.mad.value() >= 0,
    ensures
        ({
            let after = e.updated(e.mean);
            &&& after.mean.finite() && after.mean.value() == e.mean.value()
            &&& after.variance.le_spec(e.variance)
            &&& after.mad.le_spec(e.mad)
        }),
{
    let zero = Binary64::zero();
    let one = Binary64::one();
    let keep = one.minus_spec(e.alpha);
    law_minus_self(e.mean);
    law_outliers_are_clipped(e, e.mean);
    assert(e.bounded_delta(e.mean) == zero);
    let taken = e.alpha.times_spec(zero);
    lemma_times_zero(e.alpha);
    lemma_times_zero(taken);
    law_whole_constants();
    lemma_units_order(0, e.alpha.mag());
    law_difference_against(one, e.alpha, one);
    law_difference_against(one, e.alpha, zero);
    law_order_is_numeric(keep, one);
    law_order_is_numeric(zero, keep);
    law_sum_against(e.mean, taken, e.mean);
    law_order_is_numeric(e.mean.plus_spec(taken), e.mean);
    law_order_is_numeric(e.mean, e.mean.plus_spec(taken));
    lemma_kept_share(keep, e.variance, taken.times_spec(zero));
    lemma_kept_share(keep, e.mad, taken);
}

proof fn lemma_times_zero(a: Binary64)
    requires
        a.finite(),
    ensures
        a.times_spec(Binary64::zero()).finite(),
        a.times_spec(Binary64::zero()).value() == 0,
{
    let zero = Binary64::zero();
    law_product_against(a, zero, zero);
    lemma_units_order(0, a.times_spec(zero).mag());
    assert(a.value() * 0 == 0) by (nonlinear_arith);
    assert(0 * pow2(1074) == 0) by (nonlinear_arith);
}

/// A share of at most all of `old`, with nothing added, is at most `old`.
proof fn lemma_kept_share(keep: Binary64, old: Binary64, nothing: Binary64)
    requires
        keep.finite() && 0 <= keep.value() <= pow2(1074),
        old.finite() && old.value() >= 0,
        nothing.finite() && nothing.value() == 0,
    ensures
        keep.times_spec(old).plus_spec(nothing).le_spec(old),
{
    let zero = Binary64::zero();
    let kept = keep.times_spec(old);
    let p = pow2(1074) as int;
    lemma_units_order(0, old.mag());
    assert(keep.value() * old.value() <= old.value() * p) by (nonlinear_arith)
        requires
            keep.value() <= p,
            old.value() >= 0,
    ;
    assert(keep.value() * old.value() >= 0) by (nonlinear_arith)
        requires
            keep.value() >= 0,
            old.value() >= 0,
    ;
    assert(0 * p == 0) by (nonlinear_arith);
    law_product_against(keep, old, old);
    law_product_against(keep, old, zero);
    assert(kept.finite());
    law_order_is_numeric(kept, old);
    law_sum_against(kept, nothing, old);
}

} // verus!
