//! Read-only renderings of what the pipelines know.
use vstd::prelude::*;

use crate::alert::model::AlertKind;
use crate::alert::view::IpAlertSlotSnapshot;
use crate::anomaly::detector::AnomalyView;
use crate::baseline::estimator::BaselineState;
use crate::common::ProtoIndex;
use crate::rate::model::{PortScanIpBreadth, ProtoRate, SynIpRate};

verus! {

/// State of one alert of a protocol.
#[derive(Debug, Clone, Copy)]
pub struct AlertSlotSnapshot {
    pub kind: AlertKind,
    pub phase_label: &'static str,
    pub consecutive_count: u32,
}

/// All that is known of one protocol. There is no rate, and nothing to hold against the
/// baseline, before the second reading of the counters.
#[derive(Debug)]
pub struct ProtoSnapshot {
    pub proto: ProtoIndex,
    pub rate: Option<ProtoRate>,
    pub baseline: BaselineState,
    pub anomaly: Option<AnomalyView>,
    pub alerts: Vec<AlertSlotSnapshot>,
    pub frozen: bool,
}

/// All that is known of all protocols.
#[derive(Debug)]
pub struct RunnerSnapshot {
    pub protos: Vec<ProtoSnapshot>,
}

/// All that is known of SYN floods.
#[derive(Debug)]
pub struct SynFloodSnapshot {
    pub top_offenders: Vec<SynIpRate>,
    pub alerts: Vec<IpAlertSlotSnapshot>,
}

/// All that is known of port scans.
#[derive(Debug)]
pub struct PortScanSnapshot {
    pub top_scanners: Vec<PortScanIpBreadth>,
    pub alerts: Vec<IpAlertSlotSnapshot>,
}

} // verus!
