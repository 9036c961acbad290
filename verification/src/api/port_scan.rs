//! The source addresses that touch the most ports, and their alerts.
use vstd::prelude::*;

use crate::api::{
    alert_for, find_alert, law_alert_for_finds_the_address, phase_and_count, shows_alert, ApiState,
};
use crate::pipeline::view::PortScanSnapshot;
use crate::rate::model::PortScanIpBreadth;
use crate::text::{ipv4, ipv4_text};

verus! {

/// Answer to a question for port scans.
#[derive(Debug)]
pub struct PortScanResponse {
    pub top_scanners: Vec<PortScanOffenderView>,
    pub active_alert_count: usize,
}

/// One source address and its alert.
#[derive(Debug)]
pub struct PortScanOffenderView {
    pub src_ip: String,
    pub distinct_ports: u32,
    pub alert_phase: Option<&'static str>,
    pub alert_consecutive_count: Option<u32>,
}

/// Whether `v` is the view of `o`, with the alert of its address.
pub open spec fn shows_offender(v: PortScanOffenderView, o: PortScanIpBreadth, s: PortScanSnapshot) -> bool {
    &&& v.src_ip@ == ipv4(o.src_ip)
    &&& v.distinct_ports == o.distinct_ports
    &&& shows_alert(
        v.alert_phase,
        v.alert_consecutive_count,
        alert_for(s.alerts@, o.src_ip),
    )
}

/// Whether `r` is the view of `s`: the same addresses in the same order, and the number of
/// alerts.
pub open spec fn shows_all(r: PortScanResponse, s: PortScanSnapshot) -> bool {
    &&& r.top_scanners@.len() == s.top_scanners@.len()
    &&& forall|i: int|
        0 <= i < r.top_scanners@.len() ==> shows_offender(#[trigger] r.top_scanners@[i], s.top_scanners@[i], s)
    &&& r.active_alert_count == s.alerts@.len()
}

/// The view of all that is known of port scans.
pub fn to_view(snapshot: &PortScanSnapshot) -> (r: PortScanResponse)
    ensures
        shows_all(r, *snapshot),
{
    let mut top_scanners: Vec<PortScanOffenderView> = Vec::new();
    let mut i: usize = 0;
    while i < snapshot.top_scanners.len()
        invariant
            i <= snapshot.top_scanners@.len(),
            top_scanners@.len() == i,
            forall|k: int|
                0 <= k < i ==> shows_offender(
                    #[trigger] top_scanners@[k],
                    snapshot.top_scanners@[k],
                    *snapshot,
                ),
        decreases snapshot.top_scanners@.len() - i,
    {
        let o = &snapshot.top_scanners[i];
        let (alert_phase, alert_consecutive_count) = phase_and_count(
            find_alert(&snapshot.alerts, o.src_ip),
        );
        top_scanners.push(
            PortScanOffenderView {
                src_ip: ipv4_text(o.src_ip),
                distinct_ports: o.distinct_ports,
                alert_phase,
                alert_consecutive_count,
            },
        );
        i = i + 1;
    }
    PortScanResponse { top_scanners, active_alert_count: snapshot.alerts.len() }
}

/// What is known of port scans; nothing before the first tick.
pub fn port_scan(state: &ApiState) -> (r: PortScanResponse)
    ensures
        match state.port_scan_snapshot {
            Some(s) => shows_all(r, s),
            None => r.top_scanners@.len() == 0 && r.active_alert_count == 0,
        },
{
    match &state.port_scan_snapshot {
        Some(s) => to_view(s),
        None => PortScanResponse { top_scanners: Vec::new(), active_alert_count: 0 },
    }
}

/// What the answer shows: the listed addresses in their order, each with its own number of ports and
/// with the phase and the count of its own alert, if it has one; and the number of alerts.
pub proof fn law_answer_shows_every_address(r: PortScanResponse, s: PortScanSnapshot, i: int)
    requires
        shows_all(r, s),
    ensures
        r.active_alert_count == s.alerts@.len(),
        r.top_scanners@.len() == s.top_scanners@.len(),
        0 <= i < s.top_scanners@.len() ==> {
            let v = r.top_scanners@[i];
            let o = s.top_scanners@[i];
            &&& v.src_ip@ == ipv4(o.src_ip)
            &&& v.distinct_ports == o.distinct_ports
            &&& v.alert_phase is Some <==> exists|k: int|
                0 <= k < s.alerts@.len() && (#[trigger] s.alerts@[k]).src_ip == o.src_ip
            &&& v.alert_phase is Some <==> v.alert_consecutive_count is Some
            &&& v.alert_phase is Some ==> exists|k: int|
                0 <= k < s.alerts@.len() && (#[trigger] s.alerts@[k]).src_ip == o.src_ip
                    && v.alert_phase == Some(s.alerts@[k].phase_label)
                    && v.alert_consecutive_count == Some(s.alerts@[k].consecutive_count)
        },
{
    if 0 <= i < s.top_scanners@.len() {
        let v = r.top_scanners@[i];
        let o = s.top_scanners@[i];
        assert(shows_offender(v, o, s));
        law_alert_for_finds_the_address(s.alerts@, o.src_ip);
        if let Some(a) = alert_for(s.alerts@, o.src_ip) {
            let k = choose|k: int| 0 <= k < s.alerts@.len() && s.alerts@[k] == a;
            assert(s.alerts@[k].src_ip == o.src_ip);
        }
    }
}

} // verus!
