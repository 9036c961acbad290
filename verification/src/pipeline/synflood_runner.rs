//! The SYN-flood pipeline.
use vstd::prelude::*;

use crate::alert::ip_laws::{
    distinct, law_address_moves_by_its_signals, law_events_are_of_the_addresses_that_change,
    law_signal_is_listed,
};
use crate::alert::ip_manager::{
    alerting_slots, events_after, heartbeats_after, last_signal, renders_slot, slots_after,
    state_of, tick_ips, IpKeyed, IpSlot,
};
use crate::alert::model::{SynFloodAlert, SynFloodAlertEvent, SynFloodSignal};
use crate::alert::state::{AlertLifecycle, AlertTiming};
use crate::alert::synflood_manager::SynFloodAlertLifecycleManager;
use crate::anomaly::synflood::{
    law_signals_are_the_rates_above, syn_signals, SynFloodDetector,
};
use crate::binary64::Binary64;
use crate::common::SynCounter;
use crate::metrics::{event_op, synflood_ops, Metric, MetricChange, MetricOp, MetricsHandle};
use crate::pipeline::view::SynFloodSnapshot;
use crate::pipeline::{prime_or_diff, TickAlerts};
use crate::rate::{dt_secs_spec, law_dt_needs_time_to_pass, rate_spec};
use crate::rate::model::{SynCountersSnapshot, SynIpRate};
use crate::rate::synflood_compute::{compute_syn_rates_top_n, is_top_rates, syn_senders};
use crate::time::Instant;

verus! {

/// What the pipeline remembers between ticks.
pub ghost struct SynFloodState {
    /// The last reading of the counters.
    pub prev: Option<(Instant, Map<u32, SynCounter>)>,
    pub detector: SynFloodDetector,
    pub timing: AlertTiming,
    pub slots: Seq<IpSlot>,
    /// The fastest senders of the last tick.
    pub last_top_n: Seq<SynIpRate>,
}

/// Counts the events of a tick.
pub open spec fn synflood_event_ops(events: Seq<SynFloodAlertEvent>) -> Seq<MetricOp> {
    Seq::new(
        events.len(),
        |i: int| event_op(Metric::SynFloodAlertEventsTotal, events[i].lifecycle),
    )
}

/// Whether `top` may be the fastest senders between two readings of the counters.
pub open spec fn is_top_between(
    prev: (Instant, Map<u32, SynCounter>),
    curr: (Instant, Map<u32, SynCounter>),
    n: nat,
    top: Seq<SynIpRate>,
) -> bool {
    match dt_secs_spec(prev.0, curr.0) {
        Some(dt) => is_top_rates(top, syn_senders(prev.1, curr.1, dt), n),
        None => top.len() == 0,
    }
}

/// Whether a tick at `now` that goes by the readings `prev` and `curr` leads from `before` to
/// `after` and tells `transitions` and `heartbeats`.
pub open spec fn is_synflood_tick(
    before: SynFloodState,
    prev: (Instant, Map<u32, SynCounter>),
    curr: (Instant, Map<u32, SynCounter>),
    now: Instant,
    after: SynFloodState,
    transitions: Seq<SynFloodAlertEvent>,
    heartbeats: Seq<SynFloodAlert>,
) -> bool {
    let top = after.last_top_n;
    let signals = syn_signals(before.detector.max_syn_pps, top);
    let ips = tick_ips(before.slots, signals);
    &&& is_top_between(prev, curr, before.detector.top_n as nat, top)
    &&& after.prev == Some(curr)
    &&& after.detector == before.detector
    &&& after.timing == before.timing
    &&& after.slots == slots_after(before.slots, signals, now, before.timing, ips)
    &&& transitions == events_after::<SynFloodSignal, SynFloodAlert>(
        before.slots,
        signals,
        now,
        before.timing,
        ips,
    )
    &&& heartbeats == heartbeats_after::<SynFloodSignal, SynFloodAlert>(
        before.slots,
        signals,
        now,
        before.timing,
        ips,
    )
}

/// What a tick exports: the state it leads to, with the number of addresses whose alert is
/// pending or firing, and the events it tells.
pub open spec fn synflood_tick_ops(
    after: SynFloodState,
    transitions: Seq<SynFloodAlertEvent>,
) -> Seq<MetricOp> {
    synflood_ops(after.last_top_n, alerting_slots(after.slots) as usize) + synflood_event_ops(
        transitions,
    )
}

/// Finds SYN floods in successive readings of the counters. There is no baseline, so nothing
/// has to warm up; the first reading only gives the second one something to be held against.
pub struct SynFloodRunner {
    prev_snapshot: Option<SynCountersSnapshot>,
    detector: SynFloodDetector,
    alert_lifecycle_manager: SynFloodAlertLifecycleManager,
    last_top_n: Vec<SynIpRate>,
}

impl View for SynFloodRunner {
    type V = SynFloodState;

    closed spec fn view(&self) -> SynFloodState {
        SynFloodState {
            prev: match self.prev_snapshot {
                Some(s) => Some((s.timestamp, s.counters@)),
                None => None,
            },
            detector: self.detector,
            timing: self.alert_lifecycle_manager.timing(),
            slots: self.alert_lifecycle_manager.slots(),
            last_top_n: self.last_top_n@,
        }
    }
}

impl SynFloodRunner {
    /// A pipeline that has seen nothing.
    pub fn new(
        detector: SynFloodDetector,
        alert_lifecycle_manager: SynFloodAlertLifecycleManager,
    ) -> (r: Self)
        ensures
            r@ == (SynFloodState {
                prev: None,
                detector,
                timing: alert_lifecycle_manager.timing(),
                slots: alert_lifecycle_manager.slots(),
                last_top_n: Seq::empty(),
            }),
    {
        SynFloodRunner {
            prev_snapshot: None,
            detector,
            alert_lifecycle_manager,
            last_top_n: Vec::new(),
        }
    }

    /// Processes one reading of the counters.
    pub fn tick(
        &mut self,
        current: &Option<SynCountersSnapshot>,
        now: Instant,
        metrics: &mut MetricsHandle,
    ) -> (r: TickAlerts<SynFloodAlertEvent, SynFloodAlert>)
        ensures
            match (*current, old(self)@.prev) {
                (Some(c), Some(prev)) => {
                    &&& is_synflood_tick(
                        old(self)@,
                        prev,
                        (c.timestamp, c.counters@),
                        now,
                        final(self)@,
                        r.transitions@,
                        r.heartbeats@,
                    )
                    &&& final(metrics).ops() == old(metrics).ops() + synflood_tick_ops(
                        final(self)@,
                        r.transitions@,
                    )
                },
                (Some(c), None) => {
                    &&& final(self)@ == (SynFloodState {
                        prev: Some((c.timestamp, c.counters@)),
                        ..old(self)@
                    })
                    &&& r.transitions@.len() == 0
                    &&& r.heartbeats@.len() == 0
                    &&& final(metrics).ops() == old(metrics).ops()
                },
                (None, _) => {
                    &&& final(self)@ == old(self)@
                    &&& r.transitions@.len() == 0
                    &&& r.heartbeats@.len() == 0
                    &&& final(metrics).ops() == old(metrics).ops()
                },
            },
    {
        let prev = match prime_or_diff(&mut self.prev_snapshot, current) {
            Some(p) => p,
            None => {
                return TickAlerts { transitions: Vec::new(), heartbeats: Vec::new() };
            },
        };
        let curr = match current {
            Some(c) => c,
            None => {
                return TickAlerts { transitions: Vec::new(), heartbeats: Vec::new() };
            },
        };
        let ghost before = metrics.ops();
        let top: Vec<SynIpRate> = compute_syn_rates_top_n(&prev, curr, self.detector.top_n());
        let signals: Vec<SynFloodSignal> = self.detector.detect(top.as_slice());
        let (transitions, heartbeats) = self.alert_lifecycle_manager.tick(signals.as_slice(), now);
        metrics.update_synflood(top.as_slice(), self.alert_lifecycle_manager.alerting_count());
        let ghost middle = metrics.ops();
        let mut i: usize = 0;
        while i < transitions.len()
            invariant
                i <= transitions@.len(),
                metrics.ops() =~= middle + synflood_event_ops(transitions@).take(i as int),
            decreases transitions@.len() - i,
        {
            metrics.record_synflood_event(transitions[i].lifecycle);
            i = i + 1;
        }
        self.last_top_n = top;
        proof {
            let told = synflood_event_ops(transitions@);
            assert(told.take(transitions@.len() as int) =~= told);
            assert(metrics.ops() =~= before + synflood_tick_ops(self@, transitions@));
        }
        TickAlerts { transitions, heartbeats }
    }

    /// What the pipeline knows, for display.
    pub fn snapshot(&self) -> (r: SynFloodSnapshot)
        ensures
            r.top_offenders@ == self@.last_top_n,
            r.alerts@.len() == self@.slots.len(),
            forall|i: int|
                0 <= i < r.alerts@.len() ==> renders_slot(
                    #[trigger] r.alerts@[i],
                    self@.slots[i],
                ),
    {
        SynFloodSnapshot {
            top_offenders: self.last_top_n.clone(),
            alerts: self.alert_lifecycle_manager.snapshot(),
        }
    }
}

/// What a tick does to every address. It has a signal exactly if it is listed among the senders
/// above the threshold; its alert moves by one tick accordingly, by the pipeline's own
/// cooldown and thresholds; and it is tracked afterwards exactly if it has a signal or its
/// alert is hot.
pub proof fn law_address_moves_by_its_rate(
    before: SynFloodState,
    prev: (Instant, Map<u32, SynCounter>),
    curr: (Instant, Map<u32, SynCounter>),
    now: Instant,
    after: SynFloodState,
    transitions: Seq<SynFloodAlertEvent>,
    heartbeats: Seq<SynFloodAlert>,
    ip: u32,
)
    requires
        distinct(before.slots),
        is_synflood_tick(before, prev, curr, now, after, transitions, heartbeats),
    ensures
        ({
            let top = after.last_top_n;
            let signalled = exists|i: int|
                0 <= i < top.len() && (#[trigger] top[i]).src_ip == ip && before.detector.max_syn_pps.lt_spec(top[i].pps);
            let next = state_of(before.slots, ip).next(signalled, now, before.timing);
            let held = exists|i: int|
                0 <= i < after.slots.len() && (#[trigger] after.slots[i]).ip == ip;
            &&& held <==> signalled || next.hot(now, before.timing.cooldown)
            &&& held ==> state_of(after.slots, ip) == next
            &&& after.timing == before.timing
            &&& after.detector == before.detector
        }),
{
    let top = after.last_top_n;
    let signals = syn_signals(before.detector.max_syn_pps, top);
    let at = law_signals_are_the_rates_above(before.detector.max_syn_pps, top);
    law_address_moves_by_its_signals(before.slots, signals, now, before.timing, ip);
    assert forall|j: int| 0 <= j < signals.len() && (#[trigger] signals[j]).ip() == ip implies
        exists|i: int| 0 <= i < top.len() && (#[trigger] top[i]).src_ip == ip && before.detector.max_syn_pps.lt_spec(top[i].pps) by {
        let keep = |i: int| before.detector.max_syn_pps.lt_spec(top[i].pps);
        assert(keep(at[j]));
        assert(top[at[j]].src_ip == ip);
    }
    assert forall|i: int| 0 <= i < top.len() && (#[trigger] top[i]).src_ip == ip && before.detector.max_syn_pps.lt_spec(top[i].pps) implies
        exists|j: int| 0 <= j < signals.len() && (#[trigger] signals[j]).ip() == ip by {
        let keep = |i: int| before.detector.max_syn_pps.lt_spec(top[i].pps);
        assert(keep(i));
        let j = choose|j: int| 0 <= j < at.len() && at[j] == i;
        assert(signals[j].ip() == ip);
    }
}

/// An alert that fires names an address that is listed above the threshold, with what is
/// listed for it.
pub proof fn law_fired_alert_names_its_rate(
    before: SynFloodState,
    prev: (Instant, Map<u32, SynCounter>),
    curr: (Instant, Map<u32, SynCounter>),
    now: Instant,
    after: SynFloodState,
    transitions: Seq<SynFloodAlertEvent>,
    heartbeats: Seq<SynFloodAlert>,
    k: int,
) -> (i: int)
    requires
        is_synflood_tick(before, prev, curr, now, after, transitions, heartbeats),
        0 <= k < transitions.len(),
        transitions[k].lifecycle == AlertLifecycle::Fired,
    ensures
        0 <= i < after.last_top_n.len(),
        ({
            let top = after.last_top_n;
            &&& top[i].src_ip == transitions[k].alert.src_ip
            &&& top[i].pps == transitions[k].alert.pps
            &&& before.detector.max_syn_pps.lt_spec(top[i].pps)
        }),
{
    let top = after.last_top_n;
    let signals = syn_signals(before.detector.max_syn_pps, top);
    let ips = tick_ips(before.slots, signals);
    let at = law_signals_are_the_rates_above(before.detector.max_syn_pps, top);
    let who = law_events_are_of_the_addresses_that_change::<SynFloodSignal, SynFloodAlert>(
        before.slots,
        signals,
        now,
        before.timing,
        ips,
    );
    let e = events_after::<SynFloodSignal, SynFloodAlert>(before.slots, signals, now, before.timing, ips)[k];
    let ip = ips[who[k]];
    assert(e == transitions[k]);
    assert(last_signal(signals, ip) is Some);
    let j = law_signal_is_listed(signals, ip);
    let keep = |i: int| before.detector.max_syn_pps.lt_spec(top[i].pps);
    assert(keep(at[j]));
    at[j]
}

/// A tick lists the fastest senders between its two readings: every entry is an address that
/// the later reading knows, at the rate its counter moved by, fastest first and each once;
/// without time between the readings there are none.
pub proof fn law_tick_lists_the_fastest_senders(
    before: SynFloodState,
    prev: (Instant, Map<u32, SynCounter>),
    curr: (Instant, Map<u32, SynCounter>),
    now: Instant,
    after: SynFloodState,
    transitions: Seq<SynFloodAlertEvent>,
    heartbeats: Seq<SynFloodAlert>,
    i: int,
    j: int,
)
    requires
        is_synflood_tick(before, prev, curr, now, after, transitions, heartbeats),
    ensures
        after.prev == Some(curr),
        after.last_top_n.len() <= before.detector.top_n,
        curr.0.nanos <= prev.0.nanos ==> after.last_top_n.len() == 0,
        0 <= i < after.last_top_n.len() ==> {
            let entry = after.last_top_n[i];
            let known = if prev.1.contains_key(entry.src_ip) {
                prev.1[entry.src_ip].packets
            } else {
                0
            };
            &&& curr.1.contains_key(entry.src_ip)
            &&& entry.pps == rate_spec(
                curr.1[entry.src_ip].packets,
                known,
                curr.0.since(prev.0).as_secs_f64_spec(),
            )
        },
        0 <= i < j < after.last_top_n.len() ==> after.last_top_n[i].src_ip
            != after.last_top_n[j].src_ip && after.last_top_n[j].pps.le_spec(
            after.last_top_n[i].pps,
        ),
{
    law_dt_needs_time_to_pass(prev.0, curr.0);
    if 0 <= i < after.last_top_n.len() {
        let entry = after.last_top_n[i];
    }
}

/// What a tick exports: the rate of the fastest sender, 0 without one; the number of addresses
/// whose alert is pending or firing; and one count for each event, by what happened.
pub proof fn law_tick_exports_the_state(
    after: SynFloodState,
    transitions: Seq<SynFloodAlertEvent>,
    k: int,
)
    requires
        0 <= k < transitions.len(),
    ensures
        ({
            let ops = synflood_tick_ops(after, transitions);
            let top = if after.last_top_n.len() > 0 {
                after.last_top_n[0].pps
            } else {
                Binary64::zero()
            };
            &&& ops.len() == 2 + transitions.len()
            &&& ops[0].metric == Metric::SynFloodTopOffenderPps
            &&& ops[0].change == (MetricChange::Assign { value: top })
            &&& ops[1].metric == Metric::SynFloodActiveAlerts
            &&& ops[1].change == (MetricChange::Assign {
                value: Binary64::from_u64_spec(alerting_slots(after.slots) as usize as u64),
            })
            &&& ops[2 + k].metric == Metric::SynFloodAlertEventsTotal
            &&& ops[2 + k].lifecycle == Some(transitions[k].lifecycle)
            &&& ops[2 + k].change == (MetricChange::Increment { by: 1 })
        }),
{
}

} // verus!
