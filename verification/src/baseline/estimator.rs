//! Per-protocol baselines that become ready with samples, variance and time.
use vstd::arithmetic::power2::pow2;
use vstd::prelude::*;

use crate::baseline::ewma::{
    is_root_above_floor, law_deviation_is_the_root, law_stddev_floor, Ewma,
};
use crate::binary64::bounds::law_root_against;
use crate::binary64::Binary64;
use crate::common::{ProtoIndex, ProtoTable};
use crate::rate::model::ProtoRate;

verus! {

/// Mean and standard deviation of one rate.
#[derive(Debug, Clone, Copy)]
pub struct BaselineStats {
    pub mean: Binary64,
    pub stddev: Binary64,
}

/// What one protocol's packet and byte rates usually are.
#[derive(Debug, Clone, Copy)]
pub struct ProtoBaseline {
    pub pps: BaselineStats,
    pub bps: BaselineStats,
}

impl ProtoBaseline {
    /// The baseline of no traffic at all.
    pub open spec fn zero_spec() -> ProtoBaseline {
        ProtoBaseline {
            pps: BaselineStats { mean: Binary64::zero(), stddev: Binary64::zero() },
            bps: BaselineStats { mean: Binary64::zero(), stddev: Binary64::zero() },
        }
    }

    /// The baseline of no traffic at all.
    pub fn zero() -> (r: ProtoBaseline)
        ensures
            r == ProtoBaseline::zero_spec(),
    {
        ProtoBaseline {
            pps: BaselineStats { mean: Binary64::zero(), stddev: Binary64::zero() },
            bps: BaselineStats { mean: Binary64::zero(), stddev: Binary64::zero() },
        }
    }
}

/// Whether a baseline can be used, and what it is.
#[derive(Debug, Clone, Copy)]
pub enum BaselineState {
    Ready { baseline: ProtoBaseline },
    Warming,
}

/// What two averages say of the usual rates.
pub open spec fn baseline_of(pps: Ewma, bps: Ewma) -> ProtoBaseline {
    ProtoBaseline {
        pps: BaselineStats { mean: pps.mean, stddev: pps.stddev_spec() },
        bps: BaselineStats { mean: bps.mean, stddev: bps.stddev_spec() },
    }
}

/// What two averages say of the usual rates.
pub fn read_baseline(pps: &Ewma, bps: &Ewma) -> (r: ProtoBaseline)
    ensures
        r == baseline_of(*pps, *bps),
{
    ProtoBaseline {
        pps: BaselineStats { mean: pps.mean(), stddev: pps.stddev() },
        bps: BaselineStats { mean: bps.mean(), stddev: bps.stddev() },
    }
}

/// The smaller number of samples.
pub open spec fn fewer_samples(pps: Ewma, bps: Ewma) -> u64 {
    if pps.samples <= bps.samples {
        pps.samples
    } else {
        bps.samples
    }
}

/// The packet-rate averages with `rates` taken in, in order.
pub open spec fn pps_after(table: ProtoTable<Ewma>, rates: Seq<ProtoRate>) -> ProtoTable<Ewma>
    decreases rates.len(),
{
    if rates.len() == 0 {
        table
    } else {
        let before = pps_after(table, rates.drop_last());
        let r = rates.last();
        before.with(r.proto, before.at(r.proto).updated(r.pps))
    }
}

/// The byte-rate averages with `rates` taken in, in order.
pub open spec fn bps_after(table: ProtoTable<Ewma>, rates: Seq<ProtoRate>) -> ProtoTable<Ewma>
    decreases rates.len(),
{
    if rates.len() == 0 {
        table
    } else {
        let before = bps_after(table, rates.drop_last());
        let r = rates.last();
        before.with(r.proto, before.at(r.proto).updated(r.bps))
    }
}

/// Takes `rates` into both tables of averages.
pub fn take_in(pps: &mut ProtoTable<Ewma>, bps: &mut ProtoTable<Ewma>, rates: &[ProtoRate])
    ensures
        *final(pps) == pps_after(*old(pps), rates@),
        *final(bps) == bps_after(*old(bps), rates@),
{
    let ghost p0 = *pps;
    let ghost b0 = *bps;
    let mut i: usize = 0;
    proof {
        assert(rates@.take(0).len() == 0);
    }
    while i < rates.len()
        invariant
            i <= rates@.len(),
            *pps == pps_after(p0, rates@.take(i as int)),
            *bps == bps_after(b0, rates@.take(i as int)),
        decreases rates@.len() - i,
    {
        let r = rates[i];
        proof {
            let t = rates@.take(i + 1);
            assert(t.drop_last() =~= rates@.take(i as int));
            assert(t.last() == r);
        }
        let mut p = pps.get(r.proto);
        p.update(r.pps);
        pps.set(r.proto, p);
        let mut b = bps.get(r.proto);
        b.update(r.bps);
        bps.set(r.proto, b);
        i = i + 1;
    }
    proof {
        assert(rates@.take(rates@.len() as int) =~= rates@);
    }
}

/// One average per protocol for packets and one for bytes.
#[derive(Debug)]
pub struct EwmaEstimator {
    pub pps_ewma: ProtoTable<Ewma>,
    pub bps_ewma: ProtoTable<Ewma>,
    /// Least number of samples of a baseline that is ready.
    pub min_samples: u64,
    /// Least standard deviation of a baseline that is ready.
    pub min_stddev: Binary64,
    /// Number of ticks that a baseline takes to become ready.
    pub min_elapsed_ticks: u64,
    /// Number of ticks so far.
    pub elapsed_ticks: u64,
}

impl EwmaEstimator {
    /// Whether the baseline of `proto` is ready.
    pub open spec fn ready(self, proto: ProtoIndex) -> bool {
        let pps = self.pps_ewma.at(proto);
        let bps = self.bps_ewma.at(proto);
        &&& fewer_samples(pps, bps) >= self.min_samples
        &&& !pps.stddev_spec().lt_spec(self.min_stddev)
        &&& !bps.stddev_spec().lt_spec(self.min_stddev)
        &&& self.elapsed_ticks >= self.min_elapsed_ticks
    }

    /// The baseline of `proto`, if it is ready.
    pub open spec fn snapshot_spec(self, proto: ProtoIndex) -> BaselineState {
        if self.ready(proto) {
            BaselineState::Ready {
                baseline: baseline_of(self.pps_ewma.at(proto), self.bps_ewma.at(proto)),
            }
        } else {
            BaselineState::Warming
        }
    }

    /// An estimator that has seen nothing.
    pub fn new(
        alpha: Binary64,
        min_samples: u64,
        min_stddev: Binary64,
        min_elapsed_ticks: u64,
    ) -> (r: Self)
        ensures
            forall|proto: ProtoIndex|
                (#[trigger] r.pps_ewma.at(proto)) == (Ewma {
                    alpha,
                    mean: Binary64::zero(),
                    variance: Binary64::zero(),
                    mad: Binary64::zero(),
                    samples: 0,
                }),
            forall|proto: ProtoIndex|
                (#[trigger] r.bps_ewma.at(proto)) == (Ewma {
                    alpha,
                    mean: Binary64::zero(),
                    variance: Binary64::zero(),
                    mad: Binary64::zero(),
                    samples: 0,
                }),
            r.min_samples == min_samples,
            r.min_stddev == min_stddev,
            r.min_elapsed_ticks == min_elapsed_ticks,
            r.elapsed_ticks == 0,
    {
        EwmaEstimator {
            pps_ewma: ProtoTable::filled(Ewma::new(alpha)),
            bps_ewma: ProtoTable::filled(Ewma::new(alpha)),
            min_samples,
            min_stddev,
            min_elapsed_ticks,
            elapsed_ticks: 0,
        }
    }

    /// The estimator one tick later.
    pub open spec fn advanced(self) -> EwmaEstimator {
        EwmaEstimator {
            elapsed_ticks: if self.elapsed_ticks < u64::MAX {
                (self.elapsed_ticks + 1) as u64
            } else {
                self.elapsed_ticks
            },
            ..self
        }
    }

    /// Counts one tick, whether or not it brings a sample.
    pub fn advance(&mut self)
        ensures
            *final(self) == old(self).advanced(),
    {
        self.elapsed_ticks = self.elapsed_ticks.saturating_add(1);
    }

    /// The baseline of `proto`, if it is ready: it has enough samples of both rates, both
    /// deviate enough, and enough ticks have passed.
    pub fn snapshot(&self, proto: ProtoIndex) -> (r: BaselineState)
        ensures
            r == self.snapshot_spec(proto),
    {
        let pps = self.pps_ewma.get(proto);
        let bps = self.bps_ewma.get(proto);
        let samples: u64 = if pps.samples <= bps.samples {
            pps.samples
        } else {
            bps.samples
        };
        let baseline = read_baseline(&pps, &bps);
        if samples < self.min_samples || baseline.pps.stddev.lt(self.min_stddev)
            || baseline.bps.stddev.lt(self.min_stddev) || self.elapsed_ticks
            < self.min_elapsed_ticks {
            return BaselineState::Warming;
        }
        BaselineState::Ready { baseline }
    }

    /// The estimator with `rates` taken in.
    pub open spec fn updated(self, rates: Seq<ProtoRate>) -> EwmaEstimator {
        EwmaEstimator {
            pps_ewma: pps_after(self.pps_ewma, rates),
            bps_ewma: bps_after(self.bps_ewma, rates),
            ..self
        }
    }

    /// Takes observed rates in.
    pub fn update(&mut self, observed_rates: &[ProtoRate])
        ensures
            *final(self) == old(self).updated(observed_rates@),
    {
        take_in(&mut self.pps_ewma, &mut self.bps_ewma, observed_rates);
    }
}

/// A source of baselines.
pub trait Baseline {
    /// The baseline of `proto`, if it is ready.
    spec fn state(&self, proto: ProtoIndex) -> BaselineState;

    /// The baseline of `proto`, if it is ready.
    fn snapshot(&self, proto: ProtoIndex) -> (r: BaselineState)
        ensures
            r == self.state(proto),
    ;
}

impl Baseline for EwmaEstimator {
    open spec fn state(&self, proto: ProtoIndex) -> BaselineState {
        self.snapshot_spec(proto)
    }

    fn snapshot(&self, proto: ProtoIndex) -> (r: BaselineState) {
        EwmaEstimator::snapshot(self, proto)
    }
}

/// Taking rates in changes the averages of the protocols that have one, and of no other.
pub proof fn law_other_protocols_unchanged(
    e: EwmaEstimator,
    rates: Seq<ProtoRate>,
    proto: ProtoIndex,
)
    requires
        forall|i: int| 0 <= i < rates.len() ==> (#[trigger] rates[i]).proto != proto,
    ensures
        e.updated(rates).pps_ewma.at(proto) == e.pps_ewma.at(proto),
        e.updated(rates).bps_ewma.at(proto) == e.bps_ewma.at(proto),
        e.updated(rates).snapshot_spec(proto) == e.snapshot_spec(proto),
    decreases rates.len(),
{
    if rates.len() > 0 {
        let rest = rates.drop_last();
        assert forall|i: int| 0 <= i < rest.len() implies (#[trigger] rest[i]).proto != proto by {
            assert(rates[i].proto != proto);
        }
        law_other_protocols_unchanged(e, rest, proto);
        assert(rates[rates.len() - 1].proto != proto);
    }
}

/// A baseline is warming while it has too few samples, or too little variance, or too little
/// time behind it, and is ready otherwise.
pub proof fn law_readiness_gate(e: EwmaEstimator, proto: ProtoIndex)
    ensures
        e.snapshot_spec(proto) is Warming <==> {
            ||| e.pps_ewma.at(proto).samples < e.min_samples
            ||| e.bps_ewma.at(proto).samples < e.min_samples
            ||| e.pps_ewma.at(proto).stddev_spec().lt_spec(e.min_stddev)
            ||| e.bps_ewma.at(proto).stddev_spec().lt_spec(e.min_stddev)
            ||| e.elapsed_ticks < e.min_elapsed_ticks
        },
{
}

/// What a baseline that is ready says: the means as they are learnt, and as deviations the
/// roots of the variances, up to rounding and down to 1e-9.
pub proof fn law_baseline_is_mean_and_root(e: EwmaEstimator, proto: ProtoIndex)
    requires
        e.pps_ewma.at(proto).variance.finite() && e.pps_ewma.at(proto).variance.value() >= 0,
        e.bps_ewma.at(proto).variance.finite() && e.bps_ewma.at(proto).variance.value() >= 0,
    ensures
        e.snapshot_spec(proto) matches BaselineState::Ready { baseline } ==> {
            &&& baseline.pps.mean == e.pps_ewma.at(proto).mean
            &&& baseline.bps.mean == e.bps_ewma.at(proto).mean
            &&& is_root_above_floor(baseline.pps.stddev, e.pps_ewma.at(proto).variance)
            &&& is_root_above_floor(baseline.bps.stddev, e.bps_ewma.at(proto).variance)
        },
{
    let pps = e.pps_ewma.at(proto);
    let bps = e.bps_ewma.at(proto);
    law_deviation_is_the_root(pps, Binary64::one(), pps);
    law_deviation_is_the_root(bps, Binary64::one(), bps);
}

/// When a baseline becomes ready, told from its averages: it takes `min_samples` samples of
/// both rates, `min_elapsed_ticks` ticks, and variances whose roots are at least `min_stddev`
/// each. One that is ready has all of these, and deviations of at least `min_stddev`.
pub proof fn law_readiness_takes_samples_time_and_variance(e: EwmaEstimator, proto: ProtoIndex)
    requires
        e.pps_ewma.at(proto).variance.finite() && e.pps_ewma.at(proto).variance.value() >= 0,
        e.bps_ewma.at(proto).variance.finite() && e.bps_ewma.at(proto).variance.value() >= 0,
        e.min_stddev.finite() && !e.min_stddev.negative(),
    ensures
        ({
            let pps = e.pps_ewma.at(proto);
            let bps = e.bps_ewma.at(proto);
            let least = e.min_stddev.value() * e.min_stddev.value();
            let counted = pps.samples >= e.min_samples && bps.samples >= e.min_samples
                && e.elapsed_ticks >= e.min_elapsed_ticks;
            &&& counted && pps.variance.value() * pow2(1074) >= least && bps.variance.value()
                * pow2(1074) >= least ==> e.snapshot_spec(proto) is Ready
            &&& e.snapshot_spec(proto) matches BaselineState::Ready { baseline } ==> counted
                && e.min_stddev.le_spec(baseline.pps.stddev) && e.min_stddev.le_spec(
                baseline.bps.stddev,
            )
        }),
{
    let pps = e.pps_ewma.at(proto);
    let bps = e.bps_ewma.at(proto);
    law_root_against(pps.variance, e.min_stddev);
    law_root_against(bps.variance, e.min_stddev);
    law_stddev_floor(pps);
    law_stddev_floor(bps);
}

/// Whether no protocol has two rates.
pub open spec fn one_rate_per_proto(rates: Seq<ProtoRate>) -> bool {
    forall|i: int, j: int|
        0 <= i < j < rates.len() ==> (#[trigger] rates[i]).proto != (#[trigger] rates[j]).proto
}

/// Every protocol that has a rate takes that rate in, whatever the other protocols do: its
/// packet average the packet rate, its byte average the byte rate.
pub proof fn law_each_protocol_takes_its_rate(e: EwmaEstimator, rates: Seq<ProtoRate>, i: int)
    requires
        0 <= i < rates.len(),
        one_rate_per_proto(rates),
    ensures
        ({
            let proto = rates[i].proto;
            &&& e.updated(rates).pps_ewma.at(proto) == e.pps_ewma.at(proto).updated(rates[i].pps)
            &&& e.updated(rates).bps_ewma.at(proto) == e.bps_ewma.at(proto).updated(rates[i].bps)
        }),
    decreases rates.len(),
{
    let rest = rates.drop_last();
    let last = rates.len() - 1;
    let proto = rates[i].proto;
    if i == last {
        assert forall|k: int| 0 <= k < rest.len() implies (#[trigger] rest[k]).proto != proto by {
            assert(rates[k].proto != rates[last].proto);
        }
        law_other_protocols_unchanged(e, rest, proto);
    } else {
        assert(one_rate_per_proto(rest));
        law_each_protocol_takes_its_rate(e, rest, i);
        assert(rates[i].proto != rates[last].proto);
    }
}

/// A tick adds one to the ticks so far, and changes nothing else.
pub proof fn law_advance_counts_one_tick(e: EwmaEstimator)
    ensures
        e.elapsed_ticks < u64::MAX ==> e.advanced().elapsed_ticks == e.elapsed_ticks + 1,
        e.elapsed_ticks == u64::MAX ==> e.advanced().elapsed_ticks == u64::MAX,
        e.advanced().pps_ewma == e.pps_ewma && e.advanced().bps_ewma == e.bps_ewma,
        e.advanced().min_samples == e.min_samples && e.advanced().min_stddev == e.min_stddev,
        e.advanced().min_elapsed_ticks == e.min_elapsed_ticks,
{
}

/// Taking rates in moves averages, and nothing else.
pub proof fn law_update_keeps_the_gate(e: EwmaEstimator, rates: Seq<ProtoRate>)
    ensures
        e.updated(rates).elapsed_ticks == e.elapsed_ticks,
        e.updated(rates).min_elapsed_ticks == e.min_elapsed_ticks,
        e.updated(rates).min_samples == e.min_samples,
        e.updated(rates).min_stddev == e.min_stddev,
{
}

} // verus!
