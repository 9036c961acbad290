//! Alerts about SYN floods, one per source address.
use vstd::prelude::*;

use crate::alert::ip_manager::IpAlertLifecycleManager;
use crate::alert::model::{SynFloodAlert, SynFloodSignal};

verus! {

/// Drives the SYN-flood alerts.
pub type SynFloodAlertLifecycleManager = IpAlertLifecycleManager<SynFloodSignal, SynFloodAlert>;

/// Drives the SYN-flood alerts.
pub type SynFloodAlertManager = SynFloodAlertLifecycleManager;

} // verus!
