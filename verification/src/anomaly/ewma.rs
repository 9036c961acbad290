//! Distances from the baseline, turned into signals.
use vstd::arithmetic::power2::pow2;
use vstd::prelude::*;

use crate::alert::model::{AlertKind, AlertSignal};
use crate::anomaly::detector::{
    anomaly_level_from_z, anomaly_view, confidence_from_z, larger_z,
    law_z_confidence_is_a_tenth_of_the_larger, level_of_z, z_confidence, AnomalyDetector, DetectResult,
};
use crate::anomaly::in_unit_interval;
use crate::anomaly::model::AnomalyLevel;
use crate::anomaly::zscore::{
    compute_proto_z_scores, law_distance_has_the_side_of_the_rate, proto_z_scores,
};
use crate::baseline::estimator::{Baseline, BaselineState, ProtoBaseline};
use crate::binary64::laws::law_quotient_of_positive_numbers;
use crate::binary64::Binary64;
use crate::rate::model::ProtoRate;
use crate::sublist::{lemma_picks_none, lemma_picks_step, picks};

verus! {

/// The distance that decides between spike and drop: the larger one, whatever its sign.
pub open spec fn dominant(z_pps: Binary64, z_bps: Binary64) -> Binary64 {
    if z_bps.abs_spec().le_spec(z_pps.abs_spec()) {
        z_pps
    } else {
        z_bps
    }
}

/// Whether a dominant distance is a spike or a drop.
pub open spec fn kind_of_z(z: Binary64) -> AlertKind {
    if Binary64::zero().le_spec(z) {
        AlertKind::Spike
    } else {
        AlertKind::Drop
    }
}

/// The signal, if any, for one rate against a baseline that is ready.
pub open spec fn z_signal(baseline: ProtoBaseline, rate: ProtoRate) -> Option<AlertSignal> {
    let (z_pps, z_bps) = proto_z_scores(baseline, rate.pps, rate.bps);
    let level = level_of_z(z_pps).worse_spec(level_of_z(z_bps));
    if level == AnomalyLevel::Normal {
        None
    } else {
        Some(
            AlertSignal {
                proto: rate.proto,
                level,
                kind: kind_of_z(dominant(z_pps, z_bps)),
                confidence: z_confidence(z_pps, z_bps),
            },
        )
    }
}

/// The signal, if any, for one rate; none while the baseline is warming.
pub open spec fn ewma_signal(state: BaselineState, rate: ProtoRate) -> Option<AlertSignal> {
    match state {
        BaselineState::Ready { baseline } => z_signal(baseline, rate),
        BaselineState::Warming => None,
    }
}

/// The signals for `rates`, in order.
pub open spec fn ewma_signals<B: Baseline>(baseline: &B, rates: Seq<ProtoRate>) -> Seq<AlertSignal>
    decreases rates.len(),
{
    if rates.len() == 0 {
        Seq::empty()
    } else {
        let before = ewma_signals(baseline, rates.drop_last());
        match ewma_signal(baseline.state(rates.last().proto), rates.last()) {
            Some(s) => before.push(s),
            None => before,
        }
    }
}

/// Whether one of the protocols of `rates` has a baseline that is ready.
pub open spec fn any_ready<B: Baseline>(baseline: &B, rates: Seq<ProtoRate>) -> bool {
    exists|i: int|
        0 <= i < rates.len() && (#[trigger] baseline.state(rates[i].proto)) is Ready
}

/// Holds rates against a baseline.
pub struct EwmaDetector<'a, B: Baseline> {
    pub baseline: &'a B,
}

impl<'a, B: Baseline> EwmaDetector<'a, B> {
    /// A detector that holds rates against `baseline`.
    pub fn new(baseline: &'a B) -> (r: Self)
        ensures
            r.baseline == baseline,
    {
        EwmaDetector { baseline }
    }
}

/// The signal, if any, for one rate against a baseline that is ready.
fn signal_from_z(baseline: &ProtoBaseline, rate: &ProtoRate) -> (r: Option<AlertSignal>)
    ensures
        r == z_signal(*baseline, *rate),
{
    let (z_pps, z_bps) = compute_proto_z_scores(baseline, rate.pps, rate.bps);
    let level = anomaly_level_from_z(z_pps).worse(anomaly_level_from_z(z_bps));
    if level.is_normal() {
        return None;
    }
    let z: Binary64 = if z_pps.abs().ge(z_bps.abs()) {
        z_pps
    } else {
        z_bps
    };
    let kind = if z.ge(Binary64::zero()) {
        AlertKind::Spike
    } else {
        AlertKind::Drop
    };
    Some(
        AlertSignal {
            proto: rate.proto,
            level,
            kind,
            confidence: confidence_from_z(z_pps, z_bps),
        },
    )
}

impl<'a, B: Baseline> AnomalyDetector for EwmaDetector<'a, B> {
    open spec fn detected(&self, rates: Seq<ProtoRate>) -> Option<Seq<AlertSignal>> {
        if any_ready(self.baseline, rates) {
            Some(ewma_signals(self.baseline, rates))
        } else {
            None
        }
    }

    fn detect(&self, rates: &[ProtoRate]) -> (r: DetectResult) {
        let mut signals: Vec<AlertSignal> = Vec::new();
        let mut ready: bool = false;
        let mut i: usize = 0;
        proof {
            assert(rates@.take(0).len() == 0);
        }
        while i < rates.len()
            invariant
                i <= rates@.len(),
                signals@ == ewma_signals(self.baseline, rates@.take(i as int)),
                ready == exists|k: int|
                    0 <= k < i && (#[trigger] self.baseline.state(rates@[k].proto)) is Ready,
            decreases rates@.len() - i,
        {
            let rate = rates[i];
            proof {
                let t = rates@.take(i + 1);
                assert(t.drop_last() =~= rates@.take(i as int));
                assert(t.last() == rate);
            }
            match self.baseline.snapshot(rate.proto) {
                BaselineState::Ready { baseline } => {
                    assert(self.baseline.state(rates@[i as int].proto) is Ready);
                    ready = true;
                    match signal_from_z(&baseline, &rate) {
                        Some(s) => signals.push(s),
                        None => {},
                    }
                },
                BaselineState::Warming => {},
            }
            i = i + 1;
        }
        proof {
            assert(rates@.take(rates@.len() as int) =~= rates@);
        }
        if ready {
            DetectResult::Signals(signals)
        } else {
            DetectResult::WarmingUp
        }
    }
}

/// The confidence of a signal is a number from 0 to 1.
pub proof fn law_z_confidence_in_unit_interval(z_pps: Binary64, z_bps: Binary64)
    ensures
        in_unit_interval(z_confidence(z_pps, z_bps)),
{
    let z = larger_z(z_pps, z_bps);
    if !z.nan() {
        law_quotient_of_positive_numbers(z, Binary64::ten());
    } else {
        reveal(Binary64::over_spec);
    }
}

/// A rate is signalled exactly if it is three standard deviations or more from its baseline,
/// as severe exactly if it is six or more; the anomaly view of the same rate says the same.
pub proof fn law_signal_and_view_agree(baseline: ProtoBaseline, rate: ProtoRate)
    requires
        !proto_z_scores(baseline, rate.pps, rate.bps).0.nan(),
        !proto_z_scores(baseline, rate.pps, rate.bps).1.nan(),
    ensures
        ({
            let (z_pps, z_bps) = proto_z_scores(baseline, rate.pps, rate.bps);
            let z = larger_z(z_pps, z_bps);
            let view = anomaly_view(BaselineState::Ready { baseline }, rate.pps, rate.bps);
            &&& z_signal(baseline, rate) is Some <==> Binary64::three().le_spec(z)
            &&& z_signal(baseline, rate) matches Some(s) ==> s.level == view.level && s.confidence
                == view.confidence && (s.level == AnomalyLevel::Severe <==> Binary64::six().le_spec(
                z,
            ))
            &&& z_signal(baseline, rate) is None ==> view.level == AnomalyLevel::Normal
        }),
{
}

/// While no baseline is ready, the detector is warming up and signals nothing.
pub proof fn law_warming_suppresses_signals<B: Baseline>(
    detector: EwmaDetector<B>,
    rates: Seq<ProtoRate>,
)
    ensures
        (forall|i: int|
            0 <= i < rates.len() ==> (#[trigger] detector.baseline.state(rates[i].proto))
                is Warming) <==> detector.detected(rates) is None,
{
}

/// What a signal says of a rate. Its level goes by the larger distance: there is one from 3
/// deviations on, it is severe from 6 on. Its kind goes by the sign of the larger distance:
/// where the byte rate is farther from its mean than the packet rate, the signal is a drop
/// exactly if the byte distance is negative; otherwise exactly if the packet distance is.
pub proof fn law_kind_follows_the_larger_distance(baseline: ProtoBaseline, rate: ProtoRate)
    requires
        !proto_z_scores(baseline, rate.pps, rate.bps).0.nan(),
        !proto_z_scores(baseline, rate.pps, rate.bps).1.nan(),
    ensures
        ({
            let (z_pps, z_bps) = proto_z_scores(baseline, rate.pps, rate.bps);
            let three = Binary64::three().mag();
            let six = Binary64::six().mag();
            let zero = Binary64::zero();
            &&& z_signal(baseline, rate) is Some <==> z_pps.mag() >= three || z_bps.mag() >= three
            &&& z_signal(baseline, rate) matches Some(s) ==> {
                &&& s.proto == rate.proto
                &&& s.level == AnomalyLevel::Severe <==> z_pps.mag() >= six || z_bps.mag() >= six
                &&& s.level != AnomalyLevel::Normal
                &&& s.kind == AlertKind::Spike || s.kind == AlertKind::Drop
                &&& z_bps.mag() > z_pps.mag() ==> (s.kind == AlertKind::Drop <==> z_bps.lt_spec(
                    zero,
                ))
                &&& z_pps.mag() >= z_bps.mag() ==> (s.kind == AlertKind::Drop <==> z_pps.lt_spec(
                    zero,
                ))
            }
        }),
{
}

/// A signal is a drop exactly if the rate that is farther from its mean, in deviations, is
/// below it. This holds of the packet rate where both are equally far.
pub proof fn law_drops_are_below_the_mean(baseline: ProtoBaseline, rate: ProtoRate)
    requires
        rate.pps.finite() && rate.bps.finite(),
        baseline.pps.mean.finite() && baseline.bps.mean.finite(),
        baseline.pps.stddev.finite() && baseline.pps.stddev.value()
            > Binary64::billionth().value(),
        baseline.bps.stddev.finite() && baseline.bps.stddev.value()
            > Binary64::billionth().value(),
    ensures
        z_signal(baseline, rate) matches Some(s) ==> {
            let (z_pps, z_bps) = proto_z_scores(baseline, rate.pps, rate.bps);
            &&& z_bps.mag() > z_pps.mag() ==> (s.kind == AlertKind::Drop <==> rate.bps.value()
                < baseline.bps.mean.value())
            &&& z_pps.mag() >= z_bps.mag() ==> (s.kind == AlertKind::Drop <==> rate.pps.value()
                < baseline.pps.mean.value())
        },
{
    law_distance_has_the_side_of_the_rate(rate.pps, baseline.pps.mean, baseline.pps.stddev);
    law_distance_has_the_side_of_the_rate(rate.bps, baseline.bps.mean, baseline.bps.stddev);
}

/// The confidence of a signal is a tenth of the size of its larger distance, at most 1: it is
/// at least `c` as soon as one of the distances is `10 * c`, and at most `c` while neither is
/// more than that.
pub proof fn law_signal_confidence_is_a_tenth_of_the_larger(
    baseline: ProtoBaseline,
    rate: ProtoRate,
    c: Binary64,
)
    requires
        proto_z_scores(baseline, rate.pps, rate.bps).0.finite(),
        proto_z_scores(baseline, rate.pps, rate.bps).1.finite(),
        c.finite() && !c.negative() && c.le_spec(Binary64::one()),
    ensures
        z_signal(baseline, rate) matches Some(s) ==> {
            let (z_pps, z_bps) = proto_z_scores(baseline, rate.pps, rate.bps);
            let p = z_pps.abs_spec().value();
            let b = z_bps.abs_spec().value();
            &&& p >= 10 * pow2(1074) || b >= 10 * pow2(1074) ==> s.confidence == Binary64::one()
            &&& p >= 10 * c.value() || b >= 10 * c.value() ==> c.le_spec(s.confidence)
            &&& p <= 10 * c.value() && b <= 10 * c.value() ==> s.confidence.le_spec(c)
        },
{
    let (z_pps, z_bps) = proto_z_scores(baseline, rate.pps, rate.bps);
    law_z_confidence_is_a_tenth_of_the_larger(z_pps, z_bps, c);
}

/// Whether the baseline of the rate's protocol is ready and the rate calls for a signal.
pub open spec fn stands_out<B: Baseline>(baseline: &B, rate: ProtoRate) -> bool {
    baseline.state(rate.proto) matches BaselineState::Ready { baseline: b } && z_signal(b, rate)
        is Some
}

/// The signals are those of the rates that stand out, in order, and no others: signal `k`
/// comes from the rate at position `at[k]`, held against the baseline of its own protocol.
pub proof fn law_signals_are_the_rates_that_stand_out<B: Baseline>(
    detector: EwmaDetector<B>,
    rates: Seq<ProtoRate>,
) -> (at: Seq<int>)
    requires
        exists|i: int|
            0 <= i < rates.len() && (#[trigger] detector.baseline.state(rates[i].proto)) is Ready,
    ensures
        picks(at, rates.len(), |i: int| stands_out(detector.baseline, rates[i])),
        detector.detected(rates) matches Some(signals) && signals.len() == at.len() && forall|
            k: int,
        |
            0 <= k < at.len() ==> {
                let rate = rates[at[k]];
                &&& (#[trigger] signals[k]).proto == rate.proto
                &&& detector.baseline.state(rate.proto) matches BaselineState::Ready { baseline }
                    && z_signal(baseline, rate) == Some(signals[k])
            },
{
    assert(rates.take(rates.len() as int) =~= rates);
    lemma_stand_out_upto(detector.baseline, rates, rates.len())
}

proof fn lemma_stand_out_upto<B: Baseline>(
    baseline: &B,
    rates: Seq<ProtoRate>,
    n: nat,
) -> (at: Seq<int>)
    requires
        n <= rates.len(),
    ensures
        picks(at, n, |i: int| stands_out(baseline, rates[i])),
        ewma_signals(baseline, rates.take(n as int)).len() == at.len(),
        forall|k: int|
            0 <= k < at.len() ==> {
                let s = #[trigger] ewma_signals(baseline, rates.take(n as int))[k];
                let rate = rates[at[k]];
                &&& s.proto == rate.proto
                &&& baseline.state(rate.proto) matches BaselineState::Ready { baseline: b }
                    && z_signal(b, rate) == Some(s)
            },
    decreases n,
{
    let keep = |i: int| stands_out(baseline, rates[i]);
    if n == 0 {
        lemma_picks_none(keep);
        Seq::empty()
    } else {
        let m = (n - 1) as nat;
        let before = lemma_stand_out_upto(baseline, rates, m);
        lemma_picks_step(before, m, keep);
        assert(rates.take(n as int).drop_last() =~= rates.take(m as int));
        if keep(m as int) {
            before.push(m as int)
        } else {
            before
        }
    }
}

} // verus!
