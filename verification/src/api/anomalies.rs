//! What is known of each protocol.
use vstd::prelude::*;

use crate::api::ApiState;
use crate::baseline::estimator::BaselineState;
use crate::binary64::Binary64;
use crate::pipeline::view::{AlertSlotSnapshot, ProtoSnapshot, RunnerSnapshot};
use crate::text::lower;

verus! {

/// Answer to a question for anomalies.
#[derive(Debug)]
pub struct AnomaliesResponse {
    pub protocols: Vec<ProtoAnomalyView>,
}

/// What is known of one protocol. Rates and what follows from them are missing before the
/// second reading of the counters, the baseline while it warms up.
#[derive(Debug)]
pub struct ProtoAnomalyView {
    /// The protocol's name, in lowercase.
    pub proto: String,
    pub pps: Option<Binary64>,
    pub bps: Option<Binary64>,
    pub baseline_ready: bool,
    pub baseline_pps_mean: Option<Binary64>,
    pub baseline_pps_stddev: Option<Binary64>,
    pub baseline_bps_mean: Option<Binary64>,
    pub baseline_bps_stddev: Option<Binary64>,
    pub z_score_pps: Option<Binary64>,
    pub z_score_bps: Option<Binary64>,
    pub level: Option<&'static str>,
    pub confidence: Option<Binary64>,
    pub frozen: bool,
    pub alerts: Vec<AlertSlotView>,
}

/// What is known of one alert.
#[derive(Debug)]
pub struct AlertSlotView {
    pub kind: &'static str,
    pub phase: &'static str,
    pub consecutive_count: u32,
}

/// Whether `v` is the view of `a`.
pub open spec fn shows_slot(v: AlertSlotView, a: AlertSlotSnapshot) -> bool {
    &&& v.kind@ == a.kind.label_spec()
    &&& v.phase == a.phase_label
    &&& v.consecutive_count == a.consecutive_count
}

/// The view of one alert.
pub fn alert_slot_view(a: &AlertSlotSnapshot) -> (r: AlertSlotView)
    ensures
        shows_slot(r, *a),
{
    AlertSlotView {
        kind: a.kind.label(),
        phase: a.phase_label,
        consecutive_count: a.consecutive_count,
    }
}

/// Whether `v` shows the rates of `p`.
pub open spec fn shows_rate(v: ProtoAnomalyView, p: ProtoSnapshot) -> bool {
    match p.rate {
        Some(rate) => v.pps == Some(rate.pps) && v.bps == Some(rate.bps),
        None => v.pps is None && v.bps is None,
    }
}

/// Whether `v` shows the baseline of `p`.
pub open spec fn shows_baseline(v: ProtoAnomalyView, p: ProtoSnapshot) -> bool {
    match p.baseline {
        BaselineState::Ready { baseline } => {
            &&& v.baseline_ready
            &&& v.baseline_pps_mean == Some(baseline.pps.mean)
            &&& v.baseline_pps_stddev == Some(baseline.pps.stddev)
            &&& v.baseline_bps_mean == Some(baseline.bps.mean)
            &&& v.baseline_bps_stddev == Some(baseline.bps.stddev)
        },
        BaselineState::Warming => {
            &&& !v.baseline_ready
            &&& v.baseline_pps_mean is None
            &&& v.baseline_pps_stddev is None
            &&& v.baseline_bps_mean is None
            &&& v.baseline_bps_stddev is None
        },
    }
}

/// Whether `v` shows how the rates of `p` stand to the baseline.
pub open spec fn shows_anomaly(v: ProtoAnomalyView, p: ProtoSnapshot) -> bool {
    match p.anomaly {
        Some(a) => {
            &&& v.z_score_pps == Some(a.z_pps)
            &&& v.z_score_bps == Some(a.z_bps)
            &&& v.level matches Some(level) && level@ == a.level.label_spec()
            &&& v.confidence == Some(a.confidence)
        },
        None => {
            &&& v.z_score_pps is None
            &&& v.z_score_bps is None
            &&& v.level is None
            &&& v.confidence is None
        },
    }
}

/// Whether `v` is the view of `p`.
pub open spec fn shows_proto(v: ProtoAnomalyView, p: ProtoSnapshot) -> bool {
    &&& v.proto@ == lower(p.proto.label_spec())
    &&& shows_rate(v, p)
    &&& shows_baseline(v, p)
    &&& shows_anomaly(v, p)
    &&& v.frozen == p.frozen
    &&& v.alerts@.len() == p.alerts@.len()
    &&& forall|i: int| 0 <= i < v.alerts@.len() ==> shows_slot(#[trigger] v.alerts@[i], p.alerts@[i])
}

/// The view of one protocol.
pub fn proto_view(p: &ProtoSnapshot) -> (r: ProtoAnomalyView)
    ensures
        shows_proto(r, *p),
{
    let mut alerts: Vec<AlertSlotView> = Vec::new();
    let mut i: usize = 0;
    while i < p.alerts.len()
        invariant
            i <= p.alerts@.len(),
            alerts@.len() == i,
            forall|k: int| 0 <= k < i ==> shows_slot(#[trigger] alerts@[k], p.alerts@[k]),
        decreases p.alerts@.len() - i,
    {
        alerts.push(alert_slot_view(&p.alerts[i]));
        i = i + 1;
    }
    let (pps, bps) = match p.rate {
        Some(rate) => (Some(rate.pps), Some(rate.bps)),
        None => (None, None),
    };
    let (baseline_ready, pps_mean, pps_stddev, bps_mean, bps_stddev) = match p.baseline {
        BaselineState::Ready { baseline } => (
            true,
            Some(baseline.pps.mean),
            Some(baseline.pps.stddev),
            Some(baseline.bps.mean),
            Some(baseline.bps.stddev),
        ),
        BaselineState::Warming => (false, None, None, None, None),
    };
    let (z_score_pps, z_score_bps, level, confidence) = match p.anomaly {
        Some(a) => (Some(a.z_pps), Some(a.z_bps), Some(a.level.label()), Some(a.confidence)),
        None => (None, None, None, None),
    };
    ProtoAnomalyView {
        proto: p.proto.label().to_ascii_lowercase(),
        pps,
        bps,
        baseline_ready,
        baseline_pps_mean: pps_mean,
        baseline_pps_stddev: pps_stddev,
        baseline_bps_mean: bps_mean,
        baseline_bps_stddev: bps_stddev,
        z_score_pps,
        z_score_bps,
        level,
        confidence,
        frozen: p.frozen,
        alerts,
    }
}

/// The views of all protocols.
pub fn to_view(snapshot: &RunnerSnapshot) -> (r: Vec<ProtoAnomalyView>)
    ensures
        r@.len() == snapshot.protos@.len(),
        forall|i: int| 0 <= i < r@.len() ==> shows_proto(#[trigger] r@[i], snapshot.protos@[i]),
{
    let mut r: Vec<ProtoAnomalyView> = Vec::new();
    let mut i: usize = 0;
    while i < snapshot.protos.len()
        invariant
            i <= snapshot.protos@.len(),
            r@.len() == i,
            forall|k: int| 0 <= k < i ==> shows_proto(#[trigger] r@[k], snapshot.protos@[k]),
        decreases snapshot.protos@.len() - i,
    {
        r.push(proto_view(&snapshot.protos[i]));
        i = i + 1;
    }
    r
}

/// What is known of all protocols; nothing before the first tick.
pub fn anomalies(state: &ApiState) -> (r: AnomaliesResponse)
    ensures
        match state.runner_snapshot {
            Some(s) => r.protocols@.len() == s.protos@.len() && forall|i: int|
                0 <= i < r.protocols@.len() ==> shows_proto(
                    #[trigger] r.protocols@[i],
                    s.protos@[i],
                ),
            None => r.protocols@.len() == 0,
        },
{
    match &state.runner_snapshot {
        Some(s) => AnomaliesResponse { protocols: to_view(s) },
        None => AnomaliesResponse { protocols: Vec::new() },
    }
}

/// What the view of a protocol shows: its rates, both or none; its baseline, all of it or
/// none, and whether it is ready; its distances, level and confidence, all of them or none;
/// whether it is frozen; and its alerts, one for one.
pub proof fn law_view_shows_the_protocol(v: ProtoAnomalyView, p: ProtoSnapshot, i: int)
    requires
        shows_proto(v, p),
    ensures
        v.proto@ == lower(p.proto.label_spec()),
        v.frozen == p.frozen,
        p.rate matches Some(r) ==> v.pps == Some(r.pps) && v.bps == Some(r.bps),
        p.rate is None ==> v.pps is None && v.bps is None,
        v.baseline_ready <==> p.baseline is Ready,
        p.baseline matches BaselineState::Ready { baseline } ==> v.baseline_pps_mean == Some(
            baseline.pps.mean,
        ) && v.baseline_pps_stddev == Some(baseline.pps.stddev) && v.baseline_bps_mean == Some(
            baseline.bps.mean,
        ) && v.baseline_bps_stddev == Some(baseline.bps.stddev),
        p.baseline is Warming ==> v.baseline_pps_mean is None && v.baseline_pps_stddev is None
            && v.baseline_bps_mean is None && v.baseline_bps_stddev is None,
        p.anomaly matches Some(a) ==> v.z_score_pps == Some(a.z_pps) && v.z_score_bps == Some(
            a.z_bps,
        ) && v.confidence == Some(a.confidence) && (v.level matches Some(l) && l@
            == a.level.label_spec()),
        p.anomaly is None ==> v.z_score_pps is None && v.z_score_bps is None && v.level is None
            && v.confidence is None,
        v.alerts@.len() == p.alerts@.len(),
        0 <= i < v.alerts@.len() ==> v.alerts@[i].kind@ == p.alerts@[i].kind.label_spec()
            && v.alerts@[i].phase == p.alerts@[i].phase_label && v.alerts@[i].consecutive_count
            == p.alerts@[i].consecutive_count,
{
    if 0 <= i < v.alerts@.len() {
        assert(shows_slot(v.alerts@[i], p.alerts@[i]));
    }
}

} // verus!
