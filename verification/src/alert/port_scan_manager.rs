//! Alerts about port scans, one per source address.
use vstd::prelude::*;

use crate::alert::ip_manager::IpAlertLifecycleManager;
use crate::alert::model::{PortScanAlert, PortScanSignal};

verus! {

/// Drives the port-scan alerts.
pub type PortScanAlertLifecycleManager = IpAlertLifecycleManager<PortScanSignal, PortScanAlert>;

/// Drives the port-scan alerts.
pub type PortScanAlertManager = PortScanAlertLifecycleManager;

} // verus!
