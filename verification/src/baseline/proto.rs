//! Per-protocol baselines that say why they are not ready.
use vstd::arithmetic::power2::pow2;
use vstd::prelude::*;

use crate::baseline::estimator::{
    baseline_of, bps_after, fewer_samples, pps_after, read_baseline, take_in, ProtoBaseline,
};
use crate::baseline::ewma::{is_root_above_floor, law_deviation_is_the_root, Ewma};
use crate::binary64::bounds::law_root_against;
use crate::binary64::Binary64;
use crate::common::{ProtoIndex, ProtoTable};
use crate::rate::model::ProtoRate;
use crate::time::{Duration, Instant};

verus! {

/// Whether a baseline can be used, and if not, why.
#[derive(Debug, Clone, Copy, PartialEq, Eq, Structural)]
pub enum Readiness {
    NotEnoughSamples,
    LowVariance,
    WarmupTime,
    Ready,
}

/// A baseline, or the reason why there is none.
#[derive(Debug, Clone, Copy)]
pub enum BaselineState {
    Ready { baseline: ProtoBaseline },
    Warming { reason: Readiness },
}

/// One average per protocol for packets and one for bytes, with a warm-up time.
#[derive(Debug)]
pub struct ProtoEwmaBaselineEstimator {
    pub pps_ewma: ProtoTable<Ewma>,
    pub bps_ewma: ProtoTable<Ewma>,
    pub min_samples: u64,
    pub min_stddev: Binary64,
    pub min_elapsed: Duration,
    pub start_time: Instant,
}

impl ProtoEwmaBaselineEstimator {
    /// Whether the warm-up time has passed.
    pub open spec fn warm(self, now: Instant) -> bool {
        now.since(self.start_time).nanos >= self.min_elapsed.nanos
    }

    /// The baseline of `proto`, or what it lacks: samples first, then variance, then time.
    pub open spec fn snapshot_spec(self, proto: ProtoIndex, now: Instant) -> BaselineState {
        let pps = self.pps_ewma.at(proto);
        let bps = self.bps_ewma.at(proto);
        if fewer_samples(pps, bps) < self.min_samples {
            BaselineState::Warming { reason: Readiness::NotEnoughSamples }
        } else if pps.stddev_spec().lt_spec(self.min_stddev) || bps.stddev_spec().lt_spec(
            self.min_stddev,
        ) {
            BaselineState::Warming { reason: Readiness::LowVariance }
        } else if !self.warm(now) {
            BaselineState::Warming { reason: Readiness::WarmupTime }
        } else {
            BaselineState::Ready { baseline: baseline_of(pps, bps) }
        }
    }

    /// Whether `proto` has time and samples behind it; the time is asked first, and the
    /// variance not at all.
    pub open spec fn readiness_spec(self, proto: ProtoIndex, now: Instant) -> Readiness {
        if !self.warm(now) {
            Readiness::WarmupTime
        } else if fewer_samples(self.pps_ewma.at(proto), self.bps_ewma.at(proto))
            < self.min_samples {
            Readiness::NotEnoughSamples
        } else {
            Readiness::Ready
        }
    }

    /// An estimator that has seen nothing and starts at `start_time`.
    pub fn new(
        alpha: Binary64,
        min_samples: u64,
        min_stddev: Binary64,
        min_elapsed: Duration,
        start_time: Instant,
    ) -> (r: Self)
        ensures
            forall|proto: ProtoIndex|
                (#[trigger] r.pps_ewma.at(proto)) == (Ewma {
                    alpha,
                    mean: Binary64::zero(),
                    variance: Binary64::zero(),
                    mad: Binary64::zero(),
                    samples: 0,
                }),
            forall|proto: ProtoIndex|
                (#[trigger] r.bps_ewma.at(proto)) == (Ewma {
                    alpha,
                    mean: Binary64::zero(),
                    variance: Binary64::zero(),
                    mad: Binary64::zero(),
                    samples: 0,
                }),
            r.min_samples == min_samples,
            r.min_stddev == min_stddev,
            r.min_elapsed == min_elapsed,
            r.start_time == start_time,
    {
        ProtoEwmaBaselineEstimator {
            pps_ewma: ProtoTable::filled(Ewma::new(alpha)),
            bps_ewma: ProtoTable::filled(Ewma::new(alpha)),
            min_samples,
            min_stddev,
            min_elapsed,
            start_time,
        }
    }

    /// The baseline of `proto`, or what it lacks.
    pub fn snapshot(&self, proto: ProtoIndex, now: Instant) -> (r: BaselineState)
        ensures
            r == self.snapshot_spec(proto, now),
    {
        let pps = self.pps_ewma.get(proto);
        let bps = self.bps_ewma.get(proto);
        let samples: u64 = if pps.samples <= bps.samples {
            pps.samples
        } else {
            bps.samples
        };
        let baseline = read_baseline(&pps, &bps);
        if samples < self.min_samples {
            return BaselineState::Warming { reason: Readiness::NotEnoughSamples };
        }
        if baseline.pps.stddev.lt(self.min_stddev) || baseline.bps.stddev.lt(self.min_stddev) {
            return BaselineState::Warming { reason: Readiness::LowVariance };
        }
        if now.duration_since(self.start_time).nanos < self.min_elapsed.nanos {
            return BaselineState::Warming { reason: Readiness::WarmupTime };
        }
        BaselineState::Ready { baseline }
    }

    /// Takes observed rates in.
    pub fn update(&mut self, observed_rates: &[ProtoRate])
        ensures
            *final(self) == (ProtoEwmaBaselineEstimator {
                pps_ewma: pps_after(old(self).pps_ewma, observed_rates@),
                bps_ewma: bps_after(old(self).bps_ewma, observed_rates@),
                ..*old(self)
            }),
    {
        take_in(&mut self.pps_ewma, &mut self.bps_ewma, observed_rates);
    }

    /// Whether `proto` has time and samples behind it.
    pub fn readiness(&self, proto: ProtoIndex, now: Instant) -> (r: Readiness)
        ensures
            r == self.readiness_spec(proto, now),
    {
        if now.duration_since(self.start_time).nanos < self.min_elapsed.nanos {
            return Readiness::WarmupTime;
        }
        let pps = self.pps_ewma.get(proto);
        let bps = self.bps_ewma.get(proto);
        if pps.samples < self.min_samples || bps.samples < self.min_samples {
            return Readiness::NotEnoughSamples;
        }
        Readiness::Ready
    }
}

/// A source of baselines that says why one is not ready.
pub trait AnomalyBaseline {
    /// Whether the baseline of `proto` has time and samples behind it.
    spec fn readiness_of(&self, proto: ProtoIndex, now: Instant) -> Readiness;

    /// The baseline of `proto`, or what it lacks.
    spec fn state(&self, proto: ProtoIndex, now: Instant) -> BaselineState;

    /// Whether the baseline of `proto` has time and samples behind it.
    fn readiness(&self, proto: ProtoIndex, now: Instant) -> (r: Readiness)
        ensures
            r == self.readiness_of(proto, now),
    ;

    /// The baseline of `proto`, or what it lacks.
    fn snapshot(&self, proto: ProtoIndex, now: Instant) -> (r: BaselineState)
        ensures
            r == self.state(proto, now),
    ;
}

impl AnomalyBaseline for ProtoEwmaBaselineEstimator {
    open spec fn readiness_of(&self, proto: ProtoIndex, now: Instant) -> Readiness {
        self.readiness_spec(proto, now)
    }

    open spec fn state(&self, proto: ProtoIndex, now: Instant) -> BaselineState {
        self.snapshot_spec(proto, now)
    }

    fn readiness(&self, proto: ProtoIndex, now: Instant) -> (r: Readiness) {
        ProtoEwmaBaselineEstimator::readiness(self, proto, now)
    }

    fn snapshot(&self, proto: ProtoIndex, now: Instant) -> (r: BaselineState) {
        ProtoEwmaBaselineEstimator::snapshot(self, proto, now)
    }
}

/// A baseline that is ready has time and samples behind it; one whose readiness is
/// affirmed lacks at most variance.
pub proof fn law_readiness_and_snapshot_agree(
    e: ProtoEwmaBaselineEstimator,
    proto: ProtoIndex,
    now: Instant,
)
    ensures
        e.snapshot_spec(proto, now) is Ready ==> e.readiness_spec(proto, now) == Readiness::Ready,
        e.readiness_spec(proto, now) == Readiness::Ready ==> e.snapshot_spec(proto, now) is Ready
            || e.snapshot_spec(proto, now) == (BaselineState::Warming {
            reason: Readiness::LowVariance,
        }),
{
}

/// What a baseline that is ready says: the means as they are learnt, and as deviations the
/// roots of the variances, up to rounding and down to 1e-9. It is ready exactly if both
/// rates have enough samples, neither deviation is below `min_stddev`, and the warm-up time
/// has passed; if not, the first of these that is missing is told.
pub proof fn law_baseline_or_what_it_lacks(
    e: ProtoEwmaBaselineEstimator,
    proto: ProtoIndex,
    now: Instant,
)
    requires
        e.pps_ewma.at(proto).variance.finite() && e.pps_ewma.at(proto).variance.value() >= 0,
        e.bps_ewma.at(proto).variance.finite() && e.bps_ewma.at(proto).variance.value() >= 0,
        e.min_stddev.finite() && !e.min_stddev.negative(),
        now.nanos >= e.start_time.nanos,
    ensures
        ({
            let pps = e.pps_ewma.at(proto);
            let bps = e.bps_ewma.at(proto);
            let least = e.min_stddev.value() * e.min_stddev.value();
            let sampled = pps.samples >= e.min_samples && bps.samples >= e.min_samples;
            let spread = pps.variance.value() * pow2(1074) >= least && bps.variance.value() * pow2(
                1074,
            ) >= least;
            let warm = now.nanos - e.start_time.nanos >= e.min_elapsed.nanos;
            match e.snapshot_spec(proto, now) {
                BaselineState::Ready { baseline } => {
                    &&& sampled && warm
                    &&& baseline.pps.mean == pps.mean
                    &&& baseline.bps.mean == bps.mean
                    &&& is_root_above_floor(baseline.pps.stddev, pps.variance)
                    &&& is_root_above_floor(baseline.bps.stddev, bps.variance)
                    &&& e.min_stddev.le_spec(baseline.pps.stddev)
                    &&& e.min_stddev.le_spec(baseline.bps.stddev)
                },
                BaselineState::Warming { reason } => match reason {
                    Readiness::NotEnoughSamples => !sampled,
                    Readiness::LowVariance => sampled && !spread,
                    Readiness::WarmupTime => sampled && !warm,
                    Readiness::Ready => false,
                },
            }
        }),
{
    let pps = e.pps_ewma.at(proto);
    let bps = e.bps_ewma.at(proto);
    law_deviation_is_the_root(pps, Binary64::one(), pps);
    law_deviation_is_the_root(bps, Binary64::one(), bps);
    law_root_against(pps.variance, e.min_stddev);
    law_root_against(bps.variance, e.min_stddev);
}

/// Readiness goes by time and samples: the warm-up time is asked for first.
pub proof fn law_readiness_is_time_and_samples(
    e: ProtoEwmaBaselineEstimator,
    proto: ProtoIndex,
    now: Instant,
)
    requires
        now.nanos >= e.start_time.nanos,
    ensures
        ({
            let warm = now.nanos - e.start_time.nanos >= e.min_elapsed.nanos;
            let sampled = e.pps_ewma.at(proto).samples >= e.min_samples && e.bps_ewma.at(
                proto,
            ).samples >= e.min_samples;
            match e.readiness_spec(proto, now) {
                Readiness::WarmupTime => !warm,
                Readiness::NotEnoughSamples => warm && !sampled,
                Readiness::Ready => warm && sampled,
                Readiness::LowVariance => false,
            }
        }),
{
}

/// Too little variance is told before too little time: where the root of a variance is at
/// most `c`, below `min_stddev`, the baseline lacks variance whatever the time.
pub proof fn law_variance_is_asked_for_before_time(
    e: ProtoEwmaBaselineEstimator,
    proto: ProtoIndex,
    now: Instant,
    c: Binary64,
)
    requires
        e.pps_ewma.at(proto).samples >= e.min_samples,
        e.bps_ewma.at(proto).samples >= e.min_samples,
        e.pps_ewma.at(proto).variance.finite() && e.pps_ewma.at(proto).variance.value() >= 0,
        e.bps_ewma.at(proto).variance.finite() && e.bps_ewma.at(proto).variance.value() >= 0,
        c.finite() && Binary64::billionth().le_spec(c),
        c.lt_spec(e.min_stddev),
        e.pps_ewma.at(proto).variance.value() * pow2(1074) <= c.value() * c.value()
            || e.bps_ewma.at(proto).variance.value() * pow2(1074) <= c.value() * c.value(),
    ensures
        e.snapshot_spec(proto, now) == (BaselineState::Warming { reason: Readiness::LowVariance }),
{
    law_root_against(e.pps_ewma.at(proto).variance, c);
    law_root_against(e.bps_ewma.at(proto).variance, c);
}

/// The estimator answers as a source of baselines what it answers for itself.
pub proof fn law_source_answers_as_the_estimator(
    e: ProtoEwmaBaselineEstimator,
    proto: ProtoIndex,
    now: Instant,
)
    ensures
        e.state(proto, now) == e.snapshot_spec(proto, now),
        e.readiness_of(proto, now) == e.readiness_spec(proto, now),
{
}

} // verus!
