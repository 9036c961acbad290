//! The source addresses that send the most SYN packets, and their alerts.
use vstd::prelude::*;

use crate::api::{
    alert_for, find_alert, law_alert_for_finds_the_address, phase_and_count, shows_alert, ApiState,
};
use crate::binary64::Binary64;
use crate::pipeline::view::SynFloodSnapshot;
use crate::rate::model::SynIpRate;
use crate::text::{ipv4, ipv4_text};

verus! {

/// Answer to a question for SYN floods.
#[derive(Debug)]
pub struct SynFloodResponse {
    pub top_offenders: Vec<SynFloodOffenderView>,
    pub active_alert_count: usize,
}

/// One source address and its alert.
#[derive(Debug)]
pub struct SynFloodOffenderView {
    pub src_ip: String,
    pub pps: Binary64,
    pub alert_phase: Option<&'static str>,
    pub alert_consecutive_count: Option<u32>,
}

/// Whether `v` is the view of `o`, with the alert of its address.
pub open spec fn shows_offender(v: SynFloodOffenderView, o: SynIpRate, s: SynFloodSnapshot) -> bool {
    &&& v.src_ip@ == ipv4(o.src_ip)
    &&& v.pps == o.pps
    &&& shows_alert(
        v.alert_phase,
        v.alert_consecutive_count,
        alert_for(s.alerts@, o.src_ip),
    )
}

/// Whether `r` is the view of `s`: the same addresses in the same order, and the number of
/// alerts.
pub open spec fn shows_all(r: SynFloodResponse, s: SynFloodSnapshot) -> bool {
    &&& r.top_offenders@.len() == s.top_offenders@.len()
    &&& forall|i: int|
        0 <= i < r.top_offenders@.len() ==> shows_offender(#[trigger] r.top_offenders@[i], s.top_offenders@[i], s)
    &&& r.active_alert_count == s.alerts@.len()
}

/// The view of all that is known of SYN floods.
pub fn to_view(snapshot: &SynFloodSnapshot) -> (r: SynFloodResponse)
    ensures
        shows_all(r, *snapshot),
{
    let mut top_offenders: Vec<SynFloodOffenderView> = Vec::new();
    let mut i: usize = 0;
    while i < snapshot.top_offenders.len()
        invariant
            i <= snapshot.top_offenders@.len(),
            top_offenders@.len() == i,
            forall|k: int|
                0 <= k < i ==> shows_offender(
                    #[trigger] top_offenders@[k],
                    snapshot.top_offenders@[k],
                    *snapshot,
                ),
        decreases snapshot.top_offenders@.len() - i,
    {
        let o = &snapshot.top_offenders[i];
        let (alert_phase, alert_consecutive_count) = phase_and_count(
            find_alert(&snapshot.alerts, o.src_ip),
        );
        top_offenders.push(
            SynFloodOffenderView {
                src_ip: ipv4_text(o.src_ip),
                pps: o.pps,
                alert_phase,
                alert_consecutive_count,
            },
        );
        i = i + 1;
    }
    SynFloodResponse { top_offenders, active_alert_count: snapshot.alerts.len() }
}

/// What is known of SYN floods; nothing before the first tick.
pub fn synflood(state: &ApiState) -> (r: SynFloodResponse)
    ensures
        match state.synflood_snapshot {
            Some(s) => shows_all(r, s),
            None => r.top_offenders@.len() == 0 && r.active_alert_count == 0,
        },
{
    match &state.synflood_snapshot {
        Some(s) => to_view(s),
        None => SynFloodResponse { top_offenders: Vec::new(), active_alert_count: 0 },
    }
}

/// What the answer shows: the listed addresses in their order, each with its own rate and
/// with the phase and the count of its own alert, if it has one; and the number of alerts.
pub proof fn law_answer_shows_every_address(r: SynFloodResponse, s: SynFloodSnapshot, i: int)
    requires
        shows_all(r, s),
    ensures
        r.active_alert_count == s.alerts@.len(),
        r.top_offenders@.len() == s.top_offenders@.len(),
        0 <= i < s.top_offenders@.len() ==> {
            let v = r.top_offenders@[i];
            let o = s.top_offenders@[i];
            &&& v.src_ip@ == ipv4(o.src_ip)
            &&& v.pps == o.pps
            &&& v.alert_phase is Some <==> exists|k: int|
                0 <= k < s.alerts@.len() && (#[trigger] s.alerts@[k]).src_ip == o.src_ip
            &&& v.alert_phase is Some <==> v.alert_consecutive_count is Some
            &&& v.alert_phase is Some ==> exists|k: int|
                0 <= k < s.alerts@.len() && (#[trigger] s.alerts@[k]).src_ip == o.src_ip
                    && v.alert_phase == Some(s.alerts@[k].phase_label)
                    && v.alert_consecutive_count == Some(s.alerts@[k].consecutive_count)
        },
{
    if 0 <= i < s.top_offenders@.len() {
        let v = r.top_offenders@[i];
        let o = s.top_offenders@[i];
        assert(shows_offender(v, o, s));
        law_alert_for_finds_the_address(s.alerts@, o.src_ip);
        if let Some(a) = alert_for(s.alerts@, o.src_ip) {
            let k = choose|k: int| 0 <= k < s.alerts@.len() && s.alerts@[k] == a;
            assert(s.alerts@[k].src_ip == o.src_ip);
        }
    }
}

} // verus!
