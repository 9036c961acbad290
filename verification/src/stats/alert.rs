//! From decisions to alerts.
use vstd::prelude::*;

use crate::anomaly::classifier::{confidence_of, dominant_of};
use crate::anomaly::model::AnomalyLevel;
use crate::binary64::Binary64;
use crate::common::ProtoIndex;
use crate::stats::classifier::AnomalyDecision;

verus! {

/// What kind of anomaly was found.
#[derive(Debug, Clone, Copy, PartialEq, Eq, Structural)]
pub enum AlertKind {
    TrafficSpike,
    TrafficDrop,
    TrafficAnomaly,
}

/// An anomaly worth telling of.
#[derive(Debug, Clone, Copy)]
pub struct Alert {
    pub proto: ProtoIndex,
    pub level: AnomalyLevel,
    pub kind: AlertKind,
    pub confidence: Binary64,
}

/// The alert of a decision: none for normal traffic or where there is no distance. Traffic
/// above the baseline is a spike, below it a drop.
pub open spec fn alert_of(decision: AnomalyDecision) -> Option<Alert> {
    match dominant_of(decision.z_pps, decision.z_bps) {
        Some(z) => if decision.anomaly_level == AnomalyLevel::Normal {
            None
        } else {
            Some(
                Alert {
                    proto: decision.proto,
                    level: decision.anomaly_level,
                    kind: if Binary64::zero().le_spec(z) {
                        AlertKind::TrafficSpike
                    } else {
                        AlertKind::TrafficDrop
                    },
                    confidence: confidence_of(decision.z_pps, decision.z_bps),
                },
            )
        },
        None => None,
    }
}

/// The alert of a decision: none for normal traffic or where there is no distance.
pub fn decision_to_alert(decision: &AnomalyDecision) -> (r: Option<Alert>)
    ensures
        r == alert_of(*decision),
{
    if decision.anomaly_level.is_normal() {
        return None;
    }
    match decision.dominant_z() {
        Some(z) => {
            let kind = if Binary64::zero().le(z) {
                AlertKind::TrafficSpike
            } else {
                AlertKind::TrafficDrop
            };
            Some(
                Alert {
                    proto: decision.proto,
                    level: decision.anomaly_level,
                    kind,
                    confidence: decision.confidence(),
                },
            )
        },
        None => None,
    }
}

/// What a decision raises: an alert exactly if its level is not normal and there is a
/// distance. The alert is about the decision's protocol, at its level, and is a drop exactly
/// if the distance that is larger in size is below 0; the packet distance where both are of
/// one size.
pub proof fn law_alert_follows_the_larger_distance(
    decision: AnomalyDecision,
    z_pps: Binary64,
    z_bps: Binary64,
)
    requires
        decision.z_pps == Some(z_pps) && !z_pps.nan(),
        decision.z_bps == Some(z_bps) && !z_bps.nan(),
    ensures
        alert_of(decision) is Some <==> decision.anomaly_level != AnomalyLevel::Normal,
        alert_of(decision) matches Some(a) ==> {
            let zero = Binary64::zero();
            &&& a.proto == decision.proto
            &&& a.level == decision.anomaly_level
            &&& a.kind == AlertKind::TrafficSpike || a.kind == AlertKind::TrafficDrop
            &&& z_bps.mag() > z_pps.mag() ==> (a.kind == AlertKind::TrafficDrop <==> z_bps.lt_spec(
                zero,
            ))
            &&& z_pps.mag() >= z_bps.mag() ==> (a.kind == AlertKind::TrafficDrop
                <==> z_pps.lt_spec(zero))
            &&& a.confidence == confidence_of(decision.z_pps, decision.z_bps)
        },
{
}

/// Where only one rate has a distance, it decides; without any there is no alert.
pub proof fn law_only_distance_decides(decision: AnomalyDecision)
    ensures
        decision.z_pps is None && decision.z_bps is None ==> alert_of(decision) is None,
        alert_of(decision) matches Some(a) ==> {
            let zero = Binary64::zero();
            &&& decision.z_bps is None ==> (a.kind == AlertKind::TrafficSpike <==> zero.le_spec(
                decision.z_pps->0,
            ))
            &&& decision.z_pps is None ==> (a.kind == AlertKind::TrafficSpike <==> zero.le_spec(
                decision.z_bps->0,
            ))
        },
{
}

} // verus!
