//! What detectors have in common, and the anomaly view of a single rate.
use vstd::arithmetic::power2::{lemma_pow2_pos, pow2};
use vstd::prelude::*;

use crate::alert::model::AlertSignal;
use crate::anomaly::model::AnomalyLevel;
use crate::anomaly::zscore::{compute_proto_z_scores, proto_z_scores};
use crate::baseline::estimator::{BaselineState, ProtoBaseline};
use crate::binary64::bounds::law_quotient_against;
use crate::binary64::constants::law_whole_constants;
use crate::binary64::laws::law_quotient_of_positive_numbers;
use crate::binary64::order::law_order_is_numeric;
use crate::binary64::rounding::lemma_units_order;
use crate::binary64::Binary64;
use crate::rate::model::ProtoRate;

verus! {

/// What one pass of a detector found.
#[derive(Debug)]
pub enum DetectResult {
    /// No baseline is ready, so nothing was held against one.
    WarmingUp,
    /// The anomalies found; none of them means normal traffic.
    Signals(Vec<AlertSignal>),
}

impl View for DetectResult {
    type V = Option<Seq<AlertSignal>>;

    /// The signals; `None` while warming up.
    open spec fn view(&self) -> Option<Seq<AlertSignal>> {
        match self {
            DetectResult::WarmingUp => None,
            DetectResult::Signals(s) => Some(s@),
        }
    }
}

/// A way of finding anomalies in a set of rates.
pub trait AnomalyDetector {
    /// The signals for `rates`; `None` while warming up, which a detector is by default.
    open spec fn detected(&self, rates: Seq<ProtoRate>) -> Option<Seq<AlertSignal>> {
        None
    }

    /// The signals for `rates`.
    fn detect(&self, rates: &[ProtoRate]) -> (r: DetectResult)
        ensures
            r@ == self.detected(rates@),
    ;
}

/// Severity of a distance from the baseline.
pub open spec fn level_of_z(z: Binary64) -> AnomalyLevel {
    let a = z.abs_spec();
    if a.lt_spec(Binary64::three()) {
        AnomalyLevel::Normal
    } else if a.lt_spec(Binary64::six()) {
        AnomalyLevel::Suspicious
    } else {
        AnomalyLevel::Severe
    }
}

/// Severity of a distance from the baseline: normal below 3 standard deviations, suspicious
/// below 6, severe from there on.
pub fn anomaly_level_from_z(z: Binary64) -> (r: AnomalyLevel)
    ensures
        r == level_of_z(z),
{
    let a: Binary64 = z.abs();
    if a.lt(Binary64::three()) {
        AnomalyLevel::Normal
    } else if a.lt(Binary64::six()) {
        AnomalyLevel::Suspicious
    } else {
        AnomalyLevel::Severe
    }
}

/// The larger of two distances, whatever their signs.
pub open spec fn larger_z(z_pps: Binary64, z_bps: Binary64) -> Binary64 {
    z_pps.abs_spec().max_spec(z_bps.abs_spec())
}

/// A tenth of the larger distance, at most 1.
pub open spec fn z_confidence(z_pps: Binary64, z_bps: Binary64) -> Binary64 {
    larger_z(z_pps, z_bps).over_spec(Binary64::ten()).min_spec(Binary64::one())
}

/// A tenth of the larger distance, at most 1.
pub fn confidence_from_z(z_pps: Binary64, z_bps: Binary64) -> (r: Binary64)
    ensures
        r == z_confidence(z_pps, z_bps),
{
    z_pps.abs().max(z_bps.abs()).over(Binary64::ten()).min(Binary64::one())
}

/// How a protocol's rate stands to its baseline.
#[derive(Debug, Clone, Copy)]
pub struct AnomalyView {
    pub z_pps: Binary64,
    pub z_bps: Binary64,
    pub level: AnomalyLevel,
    pub confidence: Binary64,
}

/// How a rate stands to a baseline.
pub open spec fn anomaly_view(
    baseline: BaselineState,
    pps: Binary64,
    bps: Binary64,
) -> AnomalyView {
    match baseline {
        BaselineState::Ready { baseline } => {
            let (z_pps, z_bps) = proto_z_scores(baseline, pps, bps);
            let z = larger_z(z_pps, z_bps);
            AnomalyView {
                z_pps,
                z_bps,
                level: if Binary64::six().le_spec(z) {
                    AnomalyLevel::Severe
                } else if Binary64::three().le_spec(z) {
                    AnomalyLevel::Suspicious
                } else {
                    AnomalyLevel::Normal
                },
                confidence: z_confidence(z_pps, z_bps),
            }
        },
        BaselineState::Warming => AnomalyView {
            z_pps: Binary64::zero(),
            z_bps: Binary64::zero(),
            level: AnomalyLevel::Normal,
            confidence: Binary64::zero(),
        },
    }
}

/// How a rate stands to a baseline; all zero and normal while the baseline is warming.
pub fn compute_anomaly_view(baseline: &BaselineState, pps: Binary64, bps: Binary64) -> (r:
    AnomalyView)
    ensures
        r == anomaly_view(*baseline, pps, bps),
{
    match baseline {
        BaselineState::Ready { baseline } => {
            let (z_pps, z_bps) = compute_proto_z_scores(baseline, pps, bps);
            let z: Binary64 = z_pps.abs().max(z_bps.abs());
            let level = if z.ge(Binary64::six()) {
                AnomalyLevel::Severe
            } else if z.ge(Binary64::three()) {
                AnomalyLevel::Suspicious
            } else {
                AnomalyLevel::Normal
            };
            AnomalyView { z_pps, z_bps, level, confidence: confidence_from_z(z_pps, z_bps) }
        },
        BaselineState::Warming => AnomalyView {
            z_pps: Binary64::zero(),
            z_bps: Binary64::zero(),
            level: AnomalyLevel::Normal,
            confidence: Binary64::zero(),
        },
    }
}

/// The size of the larger of two distances decides the level of the view: severe from 6 on,
/// suspicious from 3 on, whichever rate it is of and whatever its sign.
pub proof fn law_view_level_goes_by_the_larger_distance(
    baseline: ProtoBaseline,
    pps: Binary64,
    bps: Binary64,
)
    requires
        !proto_z_scores(baseline, pps, bps).0.nan(),
        !proto_z_scores(baseline, pps, bps).1.nan(),
    ensures
        ({
            let view = anomaly_view(BaselineState::Ready { baseline }, pps, bps);
            let (z_pps, z_bps) = proto_z_scores(baseline, pps, bps);
            let six = Binary64::six().mag();
            let three = Binary64::three().mag();
            &&& view.z_pps == z_pps && view.z_bps == z_bps
            &&& view.level == AnomalyLevel::Severe <==> z_pps.mag() >= six || z_bps.mag() >= six
            &&& view.level == AnomalyLevel::Normal <==> z_pps.mag() < three && z_bps.mag() < three
        }),
{
}

/// While a baseline is warming the view of every rate is the same: no distance, normal, and
/// no confidence.
pub proof fn law_warming_view_says_nothing(pps: Binary64, bps: Binary64)
    ensures
        ({
            let view = anomaly_view(BaselineState::Warming, pps, bps);
            &&& view.z_pps == Binary64::zero() && view.z_bps == Binary64::zero()
            &&& view.level == AnomalyLevel::Normal
            &&& view.confidence == Binary64::zero()
        }),
{
}

/// The confidence is a tenth of the size of the larger distance, at most 1: it is 1 as soon
/// as one of the distances is 10 or more, at least `c` as soon as one is `10 * c`, and at
/// most `c` while neither is more than that.
pub proof fn law_z_confidence_is_a_tenth_of_the_larger(
    z_pps: Binary64,
    z_bps: Binary64,
    c: Binary64,
)
    requires
        z_pps.finite() && z_bps.finite(),
        c.finite() && !c.negative() && c.le_spec(Binary64::one()),
    ensures
        ({
            let conf = z_confidence(z_pps, z_bps);
            let p = z_pps.abs_spec().value();
            let b = z_bps.abs_spec().value();
            &&& p >= 10 * pow2(1074) || b >= 10 * pow2(1074) ==> conf == Binary64::one()
            &&& p >= 10 * c.value() || b >= 10 * c.value() ==> c.le_spec(conf)
            &&& p <= 10 * c.value() && b <= 10 * c.value() ==> conf.le_spec(c)
        }),
{
    let ten = Binary64::ten();
    let one = Binary64::one();
    let z = larger_z(z_pps, z_bps);
    law_whole_constants();
    law_order_is_numeric(z_pps.abs_spec(), z_bps.abs_spec());
    lemma_units_order(0, z.mag());
    law_quotient_against(z, ten, c);
    law_quotient_against(z, ten, one);
    law_quotient_of_positive_numbers(z, ten);
    let p = pow2(1074) as int;
    let x = z.value();
    lemma_tenth(x, c.value(), p);
    lemma_tenth(x, p, p);
}

proof fn lemma_tenth(x: int, c: int, p: int)
    requires
        p > 0 || p == pow2(1074),
    ensures
        x >= 10 * c ==> x * p >= c * (10 * p),
        x <= 10 * c ==> x * p <= c * (10 * p),
{
    lemma_pow2_pos(1074);
    assert(x >= 10 * c ==> x * p >= c * (10 * p)) by (nonlinear_arith)
        requires
            p > 0,
    ;
    assert(x <= 10 * c ==> x * p <= c * (10 * p)) by (nonlinear_arith)
        requires
            p > 0,
    ;
}

} // verus!
