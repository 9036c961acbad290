//! Read-only renderings of alert state.
use vstd::prelude::*;

use crate::alert::model::AlertKind;
use crate::common::ProtoIndex;

verus! {

/// State of one (protocol, kind) alert, for metrics.
#[derive(Debug, Clone, Copy)]
pub struct AlertMetricsSnapshot {
    pub proto: ProtoIndex,
    pub kind: AlertKind,
    pub phase_value: u8,
    pub phase_label: &'static str,
    pub consecutive_count: u32,
}

/// State of the alert of one source address.
#[derive(Debug, Clone, Copy)]
pub struct IpAlertSlotSnapshot {
    pub src_ip: u32,
    pub phase_label: &'static str,
    pub consecutive_count: u32,
}

/// State of one source address's SYN-flood alert.
pub type SynFloodAlertSlotSnapshot = IpAlertSlotSnapshot;

/// State of one source address's port-scan alert.
pub type PortScanAlertSlotSnapshot = IpAlertSlotSnapshot;

} // verus!
