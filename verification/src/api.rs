//! What the read-only JSON interface answers.
use vstd::prelude::*;

use crate::alert::view::IpAlertSlotSnapshot;
use crate::pipeline::view::{PortScanSnapshot, RunnerSnapshot, SynFloodSnapshot};
use crate::time::Instant;

pub mod anomalies;
pub mod health;
pub mod port_scan;
pub mod synflood;

verus! {

/// What the pipelines leave behind for the interface to answer from.
#[derive(Debug)]
pub struct ApiState {
    pub started_at: Instant,
    /// Time of the latest reading of the traffic counters.
    pub last_stats_at: Option<Instant>,
    pub warmed_up: bool,
    pub runner_snapshot: Option<RunnerSnapshot>,
    pub synflood_snapshot: Option<SynFloodSnapshot>,
    pub port_scan_snapshot: Option<PortScanSnapshot>,
}

impl ApiState {
    /// The state of a process that starts now.
    pub fn new(now: Instant) -> (r: Self)
        ensures
            r.started_at == now,
            r.last_stats_at is None,
            !r.warmed_up,
            r.runner_snapshot is None,
            r.synflood_snapshot is None,
            r.port_scan_snapshot is None,
    {
        ApiState {
            started_at: now,
            last_stats_at: None,
            warmed_up: false,
            runner_snapshot: None,
            synflood_snapshot: None,
            port_scan_snapshot: None,
        }
    }
}

/// The alert of an address, if it has one.
pub open spec fn alert_for(alerts: Seq<IpAlertSlotSnapshot>, src_ip: u32) -> Option<
    IpAlertSlotSnapshot,
>
    decreases alerts.len(),
{
    if alerts.len() == 0 {
        None
    } else if alerts[0].src_ip == src_ip {
        Some(alerts[0])
    } else {
        alert_for(alerts.skip(1), src_ip)
    }
}

/// The alert of an address, if it has one.
pub fn find_alert(alerts: &Vec<IpAlertSlotSnapshot>, src_ip: u32) -> (r: Option<
    IpAlertSlotSnapshot,
>)
    ensures
        r == alert_for(alerts@, src_ip),
{
    let mut i: usize = 0;
    proof {
        assert(alerts@.skip(0) =~= alerts@);
    }
    while i < alerts.len()
        invariant
            i <= alerts@.len(),
            alert_for(alerts@, src_ip) == alert_for(alerts@.skip(i as int), src_ip),
        decreases alerts@.len() - i,
    {
        proof {
            assert(alerts@.skip(i as int)[0] == alerts@[i as int]);
            assert(alerts@.skip(i as int).skip(1) =~= alerts@.skip(i + 1));
        }
        if alerts[i].src_ip == src_ip {
            return Some(alerts[i]);
        }
        i = i + 1;
    }
    None
}

/// Whether `phase` and `count` are those of the address's alert; nothing without one.
pub open spec fn shows_alert(
    phase: Option<&'static str>,
    count: Option<u32>,
    alert: Option<IpAlertSlotSnapshot>,
) -> bool {
    match alert {
        Some(a) => phase == Some(a.phase_label) && count == Some(a.consecutive_count),
        None => phase is None && count is None,
    }
}

/// Phase and count of an address's alert; nothing without one.
pub fn phase_and_count(alert: Option<IpAlertSlotSnapshot>) -> (r: (
    Option<&'static str>,
    Option<u32>,
))
    ensures
        shows_alert(r.0, r.1, alert),
{
    match alert {
        Some(a) => (Some(a.phase_label), Some(a.consecutive_count)),
        None => (None, None),
    }
}

/// The alert shown for an address is one of the alerts, and the address's own; none is shown
/// exactly if no alert is the address's.
pub proof fn law_alert_for_finds_the_address(alerts: Seq<IpAlertSlotSnapshot>, src_ip: u32)
    ensures
        match alert_for(alerts, src_ip) {
            Some(a) => alerts.contains(a) && a.src_ip == src_ip,
            None => forall|i: int|
                0 <= i < alerts.len() ==> (#[trigger] alerts[i]).src_ip != src_ip,
        },
    decreases alerts.len(),
{
    if alerts.len() > 0 && alerts[0].src_ip != src_ip {
        law_alert_for_finds_the_address(alerts.skip(1), src_ip);
        assert forall|i: int| 0 < i < alerts.len() implies alerts[i] == alerts.skip(1)[i - 1] by {}
        match alert_for(alerts.skip(1), src_ip) {
            Some(a) => {
                let k = choose|k: int| 0 <= k < alerts.skip(1).len() && alerts.skip(1)[k] == a;
                assert(alerts[k + 1] == a);
            },
            None => {
                assert forall|i: int| 0 <= i < alerts.len() implies (#[trigger] alerts[i]).src_ip
                    != src_ip by {
                    if i > 0 {
                        assert(alerts[i] == alerts.skip(1)[i - 1]);
                    }
                }
            },
        }
    } else if alerts.len() > 0 {
        assert(alerts[0] == alert_for(alerts, src_ip)->0);
    }
}

} // verus!
