//! Averages that are ready once they have seen enough samples for long enough.
use vstd::prelude::*;

use crate::baseline::ewma::{blend, huber_spec};
use crate::binary64::laws::law_product_of_positive_numbers;
use crate::binary64::Binary64;
use crate::stats::zscore::{clipped_spec, robust_z_score_clipped};
use crate::time::Instant;

verus! {

/// Least number of samples of an average that is ready.
pub const MIN_SAMPLES: u64 = 5;

/// Nanoseconds that an average takes to become ready.
pub const MIN_ELAPSED_NANOS: u128 = 10_000_000_000;

/// Running estimates of mean, variance and mean absolute deviation.
#[derive(Debug, Clone, Copy)]
pub struct Ewma {
    pub alpha: Binary64,
    pub mean: Binary64,
    pub variance: Binary64,
    pub mad: Binary64,
    pub initialized: bool,
    pub sample_count: u64,
    pub start_time: Option<Instant>,
}

impl Ewma {
    /// Whether enough samples came in over enough time, and the variance is either next to
    /// nothing or its root more than 1e-6.
    pub open spec fn ready(self, now: Instant) -> bool {
        &&& self.initialized
        &&& self.sample_count >= MIN_SAMPLES
        &&& self.start_time matches Some(t) && now.since(t).nanos >= MIN_ELAPSED_NANOS
        &&& {
            ||| self.variance.lt_spec(Binary64::millionth())
            ||| Binary64::millionth().lt_spec(self.variance.sqrt_spec())
        }
    }

    /// The larger of 1.4826 times the mean absolute deviation and a quarter of the standard
    /// deviation; `None` unless that is more than 1e-6 and the average is ready.
    pub open spec fn robust_spec(self, now: Instant) -> Option<Binary64> {
        let sigma = Binary64::mad_factor().times_spec(self.mad).max_spec(
            self.variance.sqrt_spec().times_spec(Binary64::quarter()),
        );
        if self.ready(now) && Binary64::millionth().lt_spec(sigma) {
            Some(sigma)
        } else {
            None
        }
    }

    /// The estimates with `sample` taken in. The first sample is the mean; a later one moves
    /// it by at most three robust standard deviations, or three where there is none. Whether
    /// there is one is decided with `sample` counted.
    pub open spec fn updated(self, sample: Binary64, now: Instant) -> Ewma {
        if !self.initialized {
            Ewma {
                alpha: self.alpha,
                mean: sample,
                variance: Binary64::zero(),
                mad: Binary64::zero(),
                initialized: true,
                sample_count: 1,
                start_time: Some(now),
            }
        } else {
            let counted = Ewma {
                sample_count: if self.sample_count < u64::MAX {
                    (self.sample_count + 1) as u64
                } else {
                    self.sample_count
                },
                ..self
            };
            let scale = match counted.robust_spec(now) {
                Some(s) => s,
                None => Binary64::one(),
            };
            let step = huber_spec(sample.minus_spec(self.mean), scale, Binary64::three());
            let weighted = self.alpha.times_spec(step);
            let mean = self.mean.plus_spec(weighted);
            let deviation = sample.minus_spec(mean).abs_spec();
            Ewma {
                mean,
                variance: blend(self.alpha, self.variance, weighted.times_spec(step)),
                mad: blend(self.alpha, self.mad, self.alpha.times_spec(deviation)),
                ..counted
            }
        }
    }

    /// Estimates from no sample, with the given weight of new samples.
    pub fn new(alpha: Binary64) -> (r: Self)
        ensures
            r == (Ewma {
                alpha,
                mean: Binary64::zero(),
                variance: Binary64::zero(),
                mad: Binary64::zero(),
                initialized: false,
                sample_count: 0,
                start_time: None,
            }),
    {
        Ewma {
            alpha,
            mean: Binary64::zero(),
            variance: Binary64::zero(),
            mad: Binary64::zero(),
            initialized: false,
            sample_count: 0,
            start_time: None,
        }
    }

    /// Takes a sample in.
    pub fn update(&mut self, sample: Binary64, now: Instant)
        ensures
            *final(self) == old(self).updated(sample, now),
    {
        if !self.initialized {
            self.mean = sample;
            self.variance = Binary64::zero();
            self.mad = Binary64::zero();
            self.initialized = true;
            self.sample_count = 1;
            self.start_time = Some(now);
            return;
        }
        self.sample_count = self.sample_count.saturating_add(1);
        let scale: Binary64 = match self.robust_stddev(now) {
            Some(s) => s,
            None => Binary64::one(),
        };
        let delta: Binary64 = sample.minus(self.mean);
        let limit: Binary64 = Binary64::three().times(scale);
        proof {
            law_product_of_positive_numbers(Binary64::three(), scale);
        }
        let step: Binary64 = delta.clamp(limit.neg(), limit);
        let weighted: Binary64 = self.alpha.times(step);
        self.mean = self.mean.plus(weighted);
        let keep: Binary64 = Binary64::one().minus(self.alpha);
        self.variance = keep.times(self.variance).plus(weighted.times(step));
        let deviation: Binary64 = sample.minus(self.mean).abs();
        self.mad = keep.times(self.mad).plus(self.alpha.times(deviation));
    }

    /// Whether the estimates can be used.
    pub fn is_ready(&self, now: Instant) -> (r: bool)
        ensures
            r == self.ready(now),
    {
        if !self.initialized {
            return false;
        }
        if self.sample_count < MIN_SAMPLES {
            return false;
        }
        let elapsed_ok = match self.start_time {
            Some(t) => now.duration_since(t).nanos >= MIN_ELAPSED_NANOS,
            None => false,
        };
        if !elapsed_ok {
            return false;
        }
        if self.variance.lt(Binary64::millionth()) {
            return true;
        }
        Binary64::millionth().lt(self.variance.sqrt())
    }

    /// The mean, once it can be used.
    pub fn mean(&self, now: Instant) -> (r: Option<Binary64>)
        ensures
            r == (if self.ready(now) {
                Some(self.mean)
            } else {
                None
            }),
    {
        if self.is_ready(now) {
            Some(self.mean)
        } else {
            None
        }
    }

    /// The standard deviation, once it can be used.
    pub fn stddev(&self, now: Instant) -> (r: Option<Binary64>)
        ensures
            r == (if self.ready(now) {
                Some(self.variance.sqrt_spec())
            } else {
                None
            }),
    {
        if self.is_ready(now) {
            Some(self.variance.sqrt())
        } else {
            None
        }
    }

    /// A standard deviation that outliers move little, once it can be used.
    pub fn robust_stddev(&self, now: Instant) -> (r: Option<Binary64>)
        ensures
            r == self.robust_spec(now),
    {
        if !self.is_ready(now) {
            return None;
        }
        let mad_sigma: Binary64 = Binary64::mad_factor().times(self.mad);
        let var_sigma: Binary64 = self.variance.sqrt();
        let sigma: Binary64 = mad_sigma.max(var_sigma.times(Binary64::quarter()));
        if Binary64::millionth().lt(sigma) {
            Some(sigma)
        } else {
            None
        }
    }

    /// The distance of `value` from the mean in robust standard deviations, cut off at ten,
    /// once it can be used.
    pub fn robust_z_score(&self, value: Binary64, now: Instant) -> (r: Option<Binary64>)
        ensures
            r == (match self.robust_spec(now) {
                Some(sigma) => clipped_spec(value, self.mean, sigma),
                None => None,
            }),
    {
        match self.robust_stddev(now) {
            Some(sigma) => robust_z_score_clipped(value, self.mean, sigma),
            None => None,
        }
    }
}

/// An average is not ready before its fifth sample, nor within ten seconds of its first.
pub proof fn law_readiness_takes_samples_and_time(e: Ewma, now: Instant)
    requires
        e.ready(now),
    ensures
        e.sample_count >= 5,
        e.start_time matches Some(t) && now.nanos >= t.nanos + 10_000_000_000,
{
}

/// The first sample is the mean, with no deviation yet, and starts the clock.
pub proof fn law_first_sample_is_the_mean(e: Ewma, sample: Binary64, now: Instant)
    requires
        !e.initialized,
    ensures
        ({
            let after = e.updated(sample, now);
            &&& after.initialized
            &&& after.alpha == e.alpha
            &&& after.mean == sample
            &&& after.variance == Binary64::zero() && after.mad == Binary64::zero()
            &&& after.sample_count == 1
            &&& after.start_time == Some(now)
        }),
{
}

/// What a later sample does. With `d` its distance from the mean and `w` three deviations (the
/// robust one of the average with this sample counted, or 1 where there is none), the mean
/// takes in the share `alpha` of `d` where `d` is from `-w` to `w`, and of `w` or `-w` beyond.
/// The variance keeps a share of `1 - alpha` and takes in `alpha` times the square of that
/// step; the mean absolute deviation keeps the same share and takes in `alpha` times the
/// distance of the sample from the new mean. One more sample is counted.
pub proof fn law_sample_is_taken_in(
    e: Ewma,
    sample: Binary64,
    now: Instant,
    counted: Ewma,
    scale: Binary64,
    step: Binary64,
)
    requires
        e.initialized,
        e.sample_count < u64::MAX,
        counted == (Ewma { sample_count: (e.sample_count + 1) as u64, ..e }),
        scale == (match counted.robust_spec(now) {
            Some(s) => s,
            None => Binary64::one(),
        }),
        ({
            let d = sample.minus_spec(e.mean);
            let w = Binary64::three().times_spec(scale);
            ||| w.neg_spec().le_spec(d) && d.le_spec(w) && step == d
            ||| w.lt_spec(d) && step == w
            ||| d.lt_spec(w.neg_spec()) && step == w.neg_spec()
        }),
    ensures
        ({
            let after = e.updated(sample, now);
            let keep = Binary64::one().minus_spec(e.alpha);
            let taken = e.alpha.times_spec(step);
            let size = sample.minus_spec(after.mean).abs_spec();
            &&& after.alpha == e.alpha && after.initialized
            &&& after.start_time == e.start_time
            &&& after.mean == e.mean.plus_spec(taken)
            &&& after.variance == keep.times_spec(e.variance).plus_spec(taken.times_spec(step))
            &&& after.mad == keep.times_spec(e.mad).plus_spec(e.alpha.times_spec(size))
            &&& after.sample_count == e.sample_count + 1
        }),
{
    law_product_of_positive_numbers(Binary64::three(), scale);
}

/// An average is ready exactly if five samples came in over ten seconds since the first, and
/// the variance is below 1e-6 or its root above 1e-6.
pub proof fn law_readiness_is_samples_time_and_variance(e: Ewma, now: Instant, start: Instant)
    requires
        e.initialized,
        e.start_time == Some(start),
        now.nanos >= start.nanos,
    ensures
        e.ready(now) <==> {
            &&& e.sample_count >= 5
            &&& now.nanos - start.nanos >= 10_000_000_000
            &&& e.variance.lt_spec(Binary64::millionth()) || Binary64::millionth().lt_spec(
                e.variance.sqrt_spec(),
            )
        },
{
}

/// The robust deviation of an average that is ready is 1.4826 mean absolute deviations or a
/// quarter of the root of the variance, whichever is more, and there is none unless that is
/// above 1e-6.
pub proof fn law_robust_deviation_is_the_larger(e: Ewma, now: Instant)
    ensures
        ({
            let by_mad = Binary64::mad_factor().times_spec(e.mad);
            let by_root = e.variance.sqrt_spec().times_spec(Binary64::quarter());
            let tiny = Binary64::millionth();
            &&& !e.ready(now) ==> e.robust_spec(now) is None
            &&& e.ready(now) && (tiny.lt_spec(by_mad) || tiny.lt_spec(by_root))
                ==> e.robust_spec(now) is Some
            &&& e.robust_spec(now) matches Some(s) ==> {
                &&& s == by_mad || s == by_root
                &&& tiny.lt_spec(s)
                &&& !by_mad.nan() ==> by_mad.le_spec(s)
                &&& !by_root.nan() ==> by_root.le_spec(s)
            }
        }),
{
}

} // verus!
