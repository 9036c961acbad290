//! Observations: how every rate of a snapshot stands to its baseline.
use vstd::prelude::*;

use crate::anomaly::detector::{
    anomaly_level_from_z, law_z_confidence_is_a_tenth_of_the_larger, level_of_z,
};
use crate::anomaly::model::AnomalyLevel;
use crate::anomaly::zscore::{compute_proto_z_scores, proto_z_scores};
use crate::baseline::estimator::ProtoBaseline;
use crate::baseline::proto::{AnomalyBaseline, BaselineState, Readiness};
use crate::binary64::rounding::lemma_units_order;
use crate::binary64::Binary64;
use crate::common::ProtoIndex;
use crate::rate::model::{ProtoRate, ProtoRateSnapshot};
use crate::sublist::{lemma_picks_none, lemma_picks_step, picks};
use crate::time::Instant;

verus! {

/// How one protocol's rates stand to its baseline.
#[derive(Debug, Clone, Copy)]
pub struct AnomalyObservation {
    pub proto: ProtoIndex,
    pub observed_pps: Binary64,
    pub observed_bps: Binary64,
    pub baseline: ProtoBaseline,
    /// Distance from the baseline; `None` where traffic appeared out of nothing.
    pub z_pps: Option<Binary64>,
    pub z_bps: Option<Binary64>,
    pub anomaly_level: AnomalyLevel,
}

/// The size of a distance; 0 where there is none.
pub open spec fn abs_or_zero(z: Option<Binary64>) -> Binary64 {
    match z {
        Some(z) => z.abs_spec(),
        None => Binary64::zero(),
    }
}

fn size_of_z(z: Option<Binary64>) -> (r: Binary64)
    ensures
        r == abs_or_zero(z),
{
    match z {
        Some(z) => z.abs(),
        None => Binary64::zero(),
    }
}

/// A tenth of the larger distance, at most 1; 1 where there is no distance.
pub open spec fn confidence_of(z_pps: Option<Binary64>, z_bps: Option<Binary64>) -> Binary64 {
    if z_pps is None && z_bps is None {
        Binary64::one()
    } else {
        abs_or_zero(z_pps).max_spec(abs_or_zero(z_bps)).over_spec(Binary64::ten()).min_spec(
            Binary64::one(),
        )
    }
}

/// A tenth of the larger distance, at most 1; 1 where there is no distance.
pub fn confidence_from(z_pps: Option<Binary64>, z_bps: Option<Binary64>) -> (r: Binary64)
    ensures
        r == confidence_of(z_pps, z_bps),
{
    if z_pps.is_none() && z_bps.is_none() {
        Binary64::one()
    } else {
        size_of_z(z_pps).max(size_of_z(z_bps)).over(Binary64::ten()).min(Binary64::one())
    }
}

/// The larger distance, with its sign.
pub open spec fn dominant_of(z_pps: Option<Binary64>, z_bps: Option<Binary64>) -> Option<
    Binary64,
> {
    match (z_pps, z_bps) {
        (Some(zp), Some(zb)) => Some(
            if zb.abs_spec().le_spec(zp.abs_spec()) {
                zp
            } else {
                zb
            },
        ),
        (Some(z), None) => Some(z),
        (None, Some(z)) => Some(z),
        (None, None) => None,
    }
}

/// The larger distance, with its sign.
pub fn dominant_from(z_pps: Option<Binary64>, z_bps: Option<Binary64>) -> (r: Option<Binary64>)
    ensures
        r == dominant_of(z_pps, z_bps),
{
    match (z_pps, z_bps) {
        (Some(zp), Some(zb)) => Some(
            if zp.abs().ge(zb.abs()) {
                zp
            } else {
                zb
            },
        ),
        (Some(z), None) => Some(z),
        (None, Some(z)) => Some(z),
        (None, None) => None,
    }
}

impl AnomalyObservation {
    /// How pronounced the anomaly is, from 0 to 1.
    pub fn confidence(&self) -> (r: Binary64)
        ensures
            r == confidence_of(self.z_pps, self.z_bps),
    {
        confidence_from(self.z_pps, self.z_bps)
    }

    /// The larger distance, with its sign.
    pub fn dominant_z(&self) -> (r: Option<Binary64>)
        ensures
            r == dominant_of(self.z_pps, self.z_bps),
    {
        dominant_from(self.z_pps, self.z_bps)
    }
}

/// What was observed of a snapshot.
#[derive(Debug)]
pub enum AnalyzeResult {
    WarmingUp,
    Normal(Vec<AnomalyObservation>),
}

impl View for AnalyzeResult {
    type V = Option<Seq<AnomalyObservation>>;

    /// The observations; `None` while warming up.
    open spec fn view(&self) -> Option<Seq<AnomalyObservation>> {
        match self {
            AnalyzeResult::WarmingUp => None,
            AnalyzeResult::Normal(d) => Some(d@),
        }
    }
}

impl AnalyzeResult {
    /// The observations; none while warming up.
    pub fn observations(&self) -> (r: &[AnomalyObservation])
        ensures
            r@ == (match self@ {
                Some(d) => d,
                None => Seq::empty(),
            }),
    {
        match self {
            AnalyzeResult::Normal(d) => d.as_slice(),
            AnalyzeResult::WarmingUp => {
                let none: &[AnomalyObservation] = &[];
                assert(none@ =~= Seq::<AnomalyObservation>::empty());
                none
            },
        }
    }

    /// Whether no baseline was ready.
    pub fn is_warming_up(&self) -> (r: bool)
        ensures
            r == (self@ is None),
    {
        match self {
            AnalyzeResult::WarmingUp => true,
            AnalyzeResult::Normal(_) => false,
        }
    }
}

/// Whether there is traffic at all: more than one packet or one byte per second.
pub open spec fn emerges(rate: ProtoRate, epsilon: Binary64) -> bool {
    epsilon.lt_spec(rate.pps) || epsilon.lt_spec(rate.bps)
}

fn is_emergence_anomaly(rate: &ProtoRate, epsilon: Binary64) -> (r: bool)
    ensures
        r == emerges(*rate, epsilon),
{
    rate.pps.gt(epsilon) || rate.bps.gt(epsilon)
}

/// The observation, if any, of one rate.
pub open spec fn observation(state: BaselineState, rate: ProtoRate) -> Option<AnomalyObservation> {
    match state {
        BaselineState::Ready { baseline } => {
            let (z_pps, z_bps) = proto_z_scores(baseline, rate.pps, rate.bps);
            Some(
                AnomalyObservation {
                    proto: rate.proto,
                    observed_pps: rate.pps,
                    observed_bps: rate.bps,
                    baseline,
                    z_pps: Some(z_pps),
                    z_bps: Some(z_bps),
                    anomaly_level: level_of_z(z_pps).worse_spec(level_of_z(z_bps)),
                },
            )
        },
        BaselineState::Warming { reason } => if reason == Readiness::LowVariance && emerges(
            rate,
            Binary64::one(),
        ) {
            Some(
                AnomalyObservation {
                    proto: rate.proto,
                    observed_pps: rate.pps,
                    observed_bps: rate.bps,
                    baseline: ProtoBaseline::zero_spec(),
                    z_pps: None,
                    z_bps: None,
                    anomaly_level: AnomalyLevel::Suspicious,
                },
            )
        } else {
            None
        },
    }
}

/// The observations of `rates`, in order.
pub open spec fn observed<B: AnomalyBaseline>(
    baseline: &B,
    now: Instant,
    rates: Seq<ProtoRate>,
) -> Seq<AnomalyObservation>
    decreases rates.len(),
{
    if rates.len() == 0 {
        Seq::empty()
    } else {
        let before = observed(baseline, now, rates.drop_last());
        match observation(baseline.state(rates.last().proto, now), rates.last()) {
            Some(o) => before.push(o),
            None => before,
        }
    }
}

/// Whether one of the protocols of `rates` has a baseline that is ready.
pub open spec fn some_ready<B: AnomalyBaseline>(
    baseline: &B,
    now: Instant,
    rates: Seq<ProtoRate>,
) -> bool {
    exists|i: int|
        0 <= i < rates.len() && (#[trigger] baseline.state(rates[i].proto, now)) is Ready
}

/// The observation, if any, of one rate.
fn observe(state: BaselineState, rate: &ProtoRate) -> (r: Option<AnomalyObservation>)
    ensures
        r == observation(state, *rate),
{
    match state {
        BaselineState::Ready { baseline } => {
            let (z_pps, z_bps) = compute_proto_z_scores(&baseline, rate.pps, rate.bps);
            Some(
                AnomalyObservation {
                    proto: rate.proto,
                    observed_pps: rate.pps,
                    observed_bps: rate.bps,
                    baseline,
                    z_pps: Some(z_pps),
                    z_bps: Some(z_bps),
                    anomaly_level: anomaly_level_from_z(z_pps).worse(anomaly_level_from_z(z_bps)),
                },
            )
        },
        BaselineState::Warming { reason } => {
            if reason == Readiness::LowVariance && is_emergence_anomaly(rate, Binary64::one()) {
                Some(
                    AnomalyObservation {
                        proto: rate.proto,
                        observed_pps: rate.pps,
                        observed_bps: rate.bps,
                        baseline: ProtoBaseline::zero(),
                        z_pps: None,
                        z_bps: None,
                        anomaly_level: AnomalyLevel::Suspicious,
                    },
                )
            } else {
                None
            }
        },
    }
}

/// Holds every rate of a snapshot against its baseline. Where a baseline has too little
/// variance to go by, any traffic at all is suspicious.
pub fn observe_anomaly<B: AnomalyBaseline>(
    snapshot: &ProtoRateSnapshot,
    baseline: &B,
    now: Instant,
) -> (r: AnalyzeResult)
    ensures
        r@ == (if some_ready(baseline, now, snapshot.rates@) {
            Some(observed(baseline, now, snapshot.rates@))
        } else {
            None
        }),
{
    let mut observations: Vec<AnomalyObservation> = Vec::new();
    let mut ready: bool = false;
    let mut i: usize = 0;
    let ghost rates = snapshot.rates@;
    proof {
        assert(rates.take(0).len() == 0);
    }
    while i < snapshot.rates.len()
        invariant
            i <= rates.len(),
            rates == snapshot.rates@,
            observations@ == observed(baseline, now, rates.take(i as int)),
            ready == exists|k: int|
                0 <= k < i && (#[trigger] baseline.state(rates[k].proto, now)) is Ready,
        decreases rates.len() - i,
    {
        let rate = snapshot.rates[i];
        proof {
            let t = rates.take(i + 1);
            assert(t.drop_last() =~= rates.take(i as int));
            assert(t.last() == rate);
        }
        let state = baseline.snapshot(rate.proto, now);
        match state {
            BaselineState::Ready { baseline: _ } => {
                assert(baseline.state(rates[i as int].proto, now) is Ready);
                ready = true;
            },
            BaselineState::Warming { reason: _ } => {},
        }
        match observe(state, &rate) {
            Some(o) => observations.push(o),
            None => {},
        }
        i = i + 1;
    }
    proof {
        assert(rates.take(rates.len() as int) =~= rates);
    }
    if ready {
        AnalyzeResult::Normal(observations)
    } else {
        AnalyzeResult::WarmingUp
    }
}

/// Which distance dominates: the packet distance where it is no smaller in size than the byte
/// distance, the byte distance where that is larger; the only one there is, or none.
pub proof fn law_larger_distance_dominates(z_pps: Binary64, z_bps: Binary64)
    requires
        !z_pps.nan() && !z_bps.nan(),
    ensures
        z_pps.mag() >= z_bps.mag() ==> dominant_of(Some(z_pps), Some(z_bps)) == Some(z_pps),
        z_pps.mag() < z_bps.mag() ==> dominant_of(Some(z_pps), Some(z_bps)) == Some(z_bps),
        dominant_of(Some(z_pps), None) == Some(z_pps),
        dominant_of(None, Some(z_bps)) == Some(z_bps),
        dominant_of(None, None) is None,
{
}

/// The confidence is a tenth of the size of the larger distance, at most 1: it is at least `c`
/// as soon as one of the distances is `10 * c` in size, and at most `c` while none is more
/// than that. Without any distance it is 1.
pub proof fn law_confidence_is_a_tenth_of_the_larger(
    z_pps: Option<Binary64>,
    z_bps: Option<Binary64>,
    c: Binary64,
)
    requires
        z_pps matches Some(z) ==> z.finite(),
        z_bps matches Some(z) ==> z.finite(),
        c.finite() && !c.negative() && c.le_spec(Binary64::one()),
    ensures
        ({
            let conf = confidence_of(z_pps, z_bps);
            let far = 10 * c.value();
            &&& z_pps is None && z_bps is None ==> conf == Binary64::one()
            &&& z_pps matches Some(z) ==> (z.abs_spec().value() >= far ==> c.le_spec(conf))
            &&& z_bps matches Some(z) ==> (z.abs_spec().value() >= far ==> c.le_spec(conf))
            &&& (z_pps is Some || z_bps is Some) && (z_pps matches Some(z) ==> z.abs_spec().value()
                <= far) && (z_bps matches Some(z) ==> z.abs_spec().value() <= far)
                ==> conf.le_spec(c)
        }),
{
    let a = match z_pps {
        Some(z) => z,
        None => Binary64::zero(),
    };
    let b = match z_bps {
        Some(z) => z,
        None => Binary64::zero(),
    };
    law_z_confidence_is_a_tenth_of_the_larger(a, b, c);
    lemma_units_order(0, c.mag());
}

/// What is observed of a rate whose baseline is ready: its protocol, its two rates, the
/// baseline and both distances as they are; and the level goes by the larger distance, severe
/// from 6 deviations on, suspicious from 3 on.
pub proof fn law_observation_of_a_ready_baseline(baseline: ProtoBaseline, rate: ProtoRate)
    requires
        !proto_z_scores(baseline, rate.pps, rate.bps).0.nan(),
        !proto_z_scores(baseline, rate.pps, rate.bps).1.nan(),
    ensures
        observation(BaselineState::Ready { baseline }, rate) matches Some(o) && {
            let (z_pps, z_bps) = proto_z_scores(baseline, rate.pps, rate.bps);
            let three = Binary64::three().mag();
            let six = Binary64::six().mag();
            &&& o.proto == rate.proto
            &&& o.observed_pps == rate.pps && o.observed_bps == rate.bps
            &&& o.baseline == baseline
            &&& o.z_pps == Some(z_pps) && o.z_bps == Some(z_bps)
            &&& o.anomaly_level == AnomalyLevel::Severe <==> z_pps.mag() >= six || z_bps.mag()
                >= six
            &&& o.anomaly_level == AnomalyLevel::Normal <==> z_pps.mag() < three && z_bps.mag()
                < three
        },
{
}

/// What is observed of a rate whose baseline is not ready: nothing, unless it lacks variance
/// only and there is more than one packet or one byte per second; that is suspicious, with no
/// distance and no baseline.
pub proof fn law_traffic_out_of_nothing_is_suspicious(reason: Readiness, rate: ProtoRate)
    ensures
        ({
            let seen = observation(BaselineState::Warming { reason }, rate);
            let some_traffic = Binary64::one().lt_spec(rate.pps) || Binary64::one().lt_spec(
                rate.bps,
            );
            &&& seen is Some <==> reason == Readiness::LowVariance && some_traffic
            &&& seen matches Some(o) ==> {
                &&& o.proto == rate.proto
                &&& o.observed_pps == rate.pps && o.observed_bps == rate.bps
                &&& o.z_pps is None && o.z_bps is None
                &&& o.anomaly_level == AnomalyLevel::Suspicious
                &&& o.baseline.pps.mean == Binary64::zero() && o.baseline.pps.stddev
                    == Binary64::zero()
                &&& o.baseline.bps.mean == Binary64::zero() && o.baseline.bps.stddev
                    == Binary64::zero()
            }
        }),
{
}

/// The observations are those of the rates that have one, in order, each held against the
/// baseline of its own protocol, and no others: observation `k` is of the rate at position
/// `at[k]`.
pub proof fn law_observations_follow_the_rates<B: AnomalyBaseline>(
    baseline: &B,
    now: Instant,
    rates: Seq<ProtoRate>,
) -> (at: Seq<int>)
    ensures
        picks(
            at,
            rates.len(),
            |i: int| observation(baseline.state(rates[i].proto, now), rates[i]) is Some,
        ),
        observed(baseline, now, rates).len() == at.len(),
        forall|k: int|
            0 <= k < at.len() ==> Some(#[trigger] observed(baseline, now, rates)[k])
                == observation(baseline.state(rates[at[k]].proto, now), rates[at[k]]),
{
    assert(rates.take(rates.len() as int) =~= rates);
    lemma_observed_upto(baseline, now, rates, rates.len())
}

proof fn lemma_observed_upto<B: AnomalyBaseline>(
    baseline: &B,
    now: Instant,
    rates: Seq<ProtoRate>,
    n: nat,
) -> (at: Seq<int>)
    requires
        n <= rates.len(),
    ensures
        picks(
            at,
            n,
            |i: int| observation(baseline.state(rates[i].proto, now), rates[i]) is Some,
        ),
        observed(baseline, now, rates.take(n as int)).len() == at.len(),
        forall|k: int|
            0 <= k < at.len() ==> Some(
                #[trigger] observed(baseline, now, rates.take(n as int))[k],
            ) == observation(baseline.state(rates[at[k]].proto, now), rates[at[k]]),
    decreases n,
{
    let keep = |i: int| observation(baseline.state(rates[i].proto, now), rates[i]) is Some;
    if n == 0 {
        lemma_picks_none(keep);
        Seq::empty()
    } else {
        let m = (n - 1) as nat;
        let before = lemma_observed_upto(baseline, now, rates, m);
        lemma_picks_step(before, m, keep);
        assert(rates.take(n as int).drop_last() =~= rates.take(m as int));
        if keep(m as int) {
            before.push(m as int)
        } else {
            before
        }
    }
}

} // verus!
