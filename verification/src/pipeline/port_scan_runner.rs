//! The port-scan pipeline.
use vstd::prelude::*;

use crate::alert::ip_laws::{
    distinct, law_address_moves_by_its_signals, law_events_are_of_the_addresses_that_change,
    law_signal_is_listed,
};
use crate::alert::ip_manager::{
    events_after, heartbeats_after, last_signal, renders_slot, slots_after, state_of, tick_ips,
    IpKeyed, IpSlot,
};
use crate::alert::model::{PortScanAlert, PortScanAlertEvent, PortScanSignal};
use crate::alert::port_scan_manager::PortScanAlertLifecycleManager;
use crate::alert::state::{AlertLifecycle, AlertTiming};
use crate::anomaly::port_scan_detector::{
    law_signals_are_the_breadths_above, scan_signals, PortScanDetector,
};
use crate::binary64::Binary64;
use crate::common::PortTouch;
use crate::metrics::{event_op, port_scan_ops, Metric, MetricChange, MetricOp, MetricsHandle};
use crate::pipeline::view::PortScanSnapshot;
use crate::pipeline::TickAlerts;
use crate::rate::model::{PortScanCountersSnapshot, PortScanIpBreadth};
use crate::rate::port_scan_compute::{
    compute_port_scan_breadth, is_top_breadths, scanners, touched_ports,
};
use crate::time::Instant;

verus! {

/// What the pipeline remembers between ticks.
pub ghost struct PortScanState {
    pub detector: PortScanDetector,
    pub timing: AlertTiming,
    pub slots: Seq<IpSlot>,
    /// The broadest scanners of the last tick.
    pub last_top_n: Seq<PortScanIpBreadth>,
}

/// Counts the events of a tick.
pub open spec fn port_scan_event_ops(events: Seq<PortScanAlertEvent>) -> Seq<MetricOp> {
    Seq::new(
        events.len(),
        |i: int| event_op(Metric::PortScanAlertEventsTotal, events[i].lifecycle),
    )
}

/// Whether a tick at `now` that goes by `touches`, read at `now_ns`, leads from `before` to
/// `after` and tells `transitions` and `heartbeats`.
pub open spec fn is_port_scan_tick(
    before: PortScanState,
    touches: Map<u64, PortTouch>,
    now_ns: u64,
    now: Instant,
    after: PortScanState,
    transitions: Seq<PortScanAlertEvent>,
    heartbeats: Seq<PortScanAlert>,
) -> bool {
    let top = after.last_top_n;
    let signals = scan_signals(before.detector.max_distinct_ports, top);
    let ips = tick_ips(before.slots, signals);
    &&& is_top_breadths(
        top,
        scanners(touches, now_ns, before.detector.window_ns),
        before.detector.top_n as nat,
    )
    &&& after.detector == before.detector
    &&& after.timing == before.timing
    &&& after.slots == slots_after(before.slots, signals, now, before.timing, ips)
    &&& transitions == events_after::<PortScanSignal, PortScanAlert>(
        before.slots,
        signals,
        now,
        before.timing,
        ips,
    )
    &&& heartbeats == heartbeats_after::<PortScanSignal, PortScanAlert>(
        before.slots,
        signals,
        now,
        before.timing,
        ips,
    )
}

/// What a tick exports: the state it leads to, and the events it tells.
pub open spec fn port_scan_tick_ops(
    after: PortScanState,
    transitions: Seq<PortScanAlertEvent>,
) -> Seq<MetricOp> {
    port_scan_ops(after.last_top_n, after.slots.len() as usize) + port_scan_event_ops(transitions)
}

/// Finds port scans in a reading of the touched ports. Each reading stands for itself, so that
/// the first one already counts.
pub struct PortScanRunner {
    detector: PortScanDetector,
    alert_lifecycle_manager: PortScanAlertLifecycleManager,
    last_top_n: Vec<PortScanIpBreadth>,
}

impl View for PortScanRunner {
    type V = PortScanState;

    closed spec fn view(&self) -> PortScanState {
        PortScanState {
            detector: self.detector,
            timing: self.alert_lifecycle_manager.timing(),
            slots: self.alert_lifecycle_manager.slots(),
            last_top_n: self.last_top_n@,
        }
    }
}

impl PortScanRunner {
    /// A pipeline that has seen nothing.
    pub fn new(
        detector: PortScanDetector,
        alert_lifecycle_manager: PortScanAlertLifecycleManager,
    ) -> (r: Self)
        ensures
            r@ == (PortScanState {
                detector,
                timing: alert_lifecycle_manager.timing(),
                slots: alert_lifecycle_manager.slots(),
                last_top_n: Seq::empty(),
            }),
    {
        PortScanRunner { detector, alert_lifecycle_manager, last_top_n: Vec::new() }
    }

    /// Processes one reading of the touched ports.
    pub fn tick(
        &mut self,
        current: &Option<PortScanCountersSnapshot>,
        now: Instant,
        metrics: &mut MetricsHandle,
    ) -> (r: TickAlerts<PortScanAlertEvent, PortScanAlert>)
        ensures
            match *current {
                Some(c) => {
                    &&& is_port_scan_tick(
                        old(self)@,
                        c.touch_map(),
                        c.now(),
                        now,
                        final(self)@,
                        r.transitions@,
                        r.heartbeats@,
                    )
                    &&& final(metrics).ops() == old(metrics).ops() + port_scan_tick_ops(
                        final(self)@,
                        r.transitions@,
                    )
                },
                None => {
                    &&& final(self)@ == old(self)@
                    &&& r.transitions@.len() == 0
                    &&& r.heartbeats@.len() == 0
                    &&& final(metrics).ops() == old(metrics).ops()
                },
            },
    {
        let curr = match current {
            Some(c) => c,
            None => {
                return TickAlerts { transitions: Vec::new(), heartbeats: Vec::new() };
            },
        };
        let ghost before = metrics.ops();
        let top: Vec<PortScanIpBreadth> = compute_port_scan_breadth(
            curr,
            self.detector.window_ns(),
            self.detector.top_n(),
        );
        let signals: Vec<PortScanSignal> = self.detector.detect(top.as_slice());
        let (transitions, heartbeats) = self.alert_lifecycle_manager.tick(signals.as_slice(), now);
        metrics.update_port_scan(top.as_slice(), self.alert_lifecycle_manager.active_count());
        let ghost middle = metrics.ops();
        let mut i: usize = 0;
        while i < transitions.len()
            invariant
                i <= transitions@.len(),
                metrics.ops() =~= middle + port_scan_event_ops(transitions@).take(i as int),
            decreases transitions@.len() - i,
        {
            metrics.record_port_scan_event(transitions[i].lifecycle);
            i = i + 1;
        }
        self.last_top_n = top;
        proof {
            let told = port_scan_event_ops(transitions@);
            assert(told.take(transitions@.len() as int) =~= told);
            assert(metrics.ops() =~= before + port_scan_tick_ops(self@, transitions@));
        }
        TickAlerts { transitions, heartbeats }
    }

    /// What the pipeline knows, for display.
    pub fn snapshot(&self) -> (r: PortScanSnapshot)
        ensures
            r.top_scanners@ == self@.last_top_n,
            r.alerts@.len() == self@.slots.len(),
            forall|i: int|
                0 <= i < r.alerts@.len() ==> renders_slot(
                    #[trigger] r.alerts@[i],
                    self@.slots[i],
                ),
    {
        PortScanSnapshot {
            top_scanners: self.last_top_n.clone(),
            alerts: self.alert_lifecycle_manager.snapshot(),
        }
    }
}

/// What a tick does to every address. It has a signal exactly if it is listed among the scanners
/// above the threshold; its alert moves by one tick accordingly, by the pipeline's own
/// cooldown and thresholds; and it is tracked afterwards exactly if it has a signal or its
/// alert is hot.
pub proof fn law_address_moves_by_its_breadth(
    before: PortScanState,
    touches: Map<u64, PortTouch>,
    now_ns: u64,
    now: Instant,
    after: PortScanState,
    transitions: Seq<PortScanAlertEvent>,
    heartbeats: Seq<PortScanAlert>,
    ip: u32,
)
    requires
        distinct(before.slots),
        is_port_scan_tick(before, touches, now_ns, now, after, transitions, heartbeats),
    ensures
        ({
            let top = after.last_top_n;
            let signalled = exists|i: int|
                0 <= i < top.len() && (#[trigger] top[i]).src_ip == ip && top[i].distinct_ports > before.detector.max_distinct_ports;
            let next = state_of(before.slots, ip).next(signalled, now, before.timing);
            let held = exists|i: int|
                0 <= i < after.slots.len() && (#[trigger] after.slots[i]).ip == ip;
            &&& held <==> signalled || next.hot(now, before.timing.cooldown)
            &&& held ==> state_of(after.slots, ip) == next
            &&& after.timing == before.timing
            &&& after.detector == before.detector
        }),
{
    let top = after.last_top_n;
    let signals = scan_signals(before.detector.max_distinct_ports, top);
    let at = law_signals_are_the_breadths_above(before.detector.max_distinct_ports, top);
    law_address_moves_by_its_signals(before.slots, signals, now, before.timing, ip);
    assert forall|j: int| 0 <= j < signals.len() && (#[trigger] signals[j]).ip() == ip implies
        exists|i: int| 0 <= i < top.len() && (#[trigger] top[i]).src_ip == ip && top[i].distinct_ports > before.detector.max_distinct_ports by {
        let keep = |i: int| top[i].distinct_ports > before.detector.max_distinct_ports;
        assert(keep(at[j]));
        assert(top[at[j]].src_ip == ip);
    }
    assert forall|i: int| 0 <= i < top.len() && (#[trigger] top[i]).src_ip == ip && top[i].distinct_ports > before.detector.max_distinct_ports implies
        exists|j: int| 0 <= j < signals.len() && (#[trigger] signals[j]).ip() == ip by {
        let keep = |i: int| top[i].distinct_ports > before.detector.max_distinct_ports;
        assert(keep(i));
        let j = choose|j: int| 0 <= j < at.len() && at[j] == i;
        assert(signals[j].ip() == ip);
    }
}

/// An alert that fires names an address that is listed above the threshold, with what is
/// listed for it.
pub proof fn law_fired_alert_names_its_breadth(
    before: PortScanState,
    touches: Map<u64, PortTouch>,
    now_ns: u64,
    now: Instant,
    after: PortScanState,
    transitions: Seq<PortScanAlertEvent>,
    heartbeats: Seq<PortScanAlert>,
    k: int,
) -> (i: int)
    requires
        is_port_scan_tick(before, touches, now_ns, now, after, transitions, heartbeats),
        0 <= k < transitions.len(),
        transitions[k].lifecycle == AlertLifecycle::Fired,
    ensures
        0 <= i < after.last_top_n.len(),
        ({
            let top = after.last_top_n;
            &&& top[i].src_ip == transitions[k].alert.src_ip
            &&& top[i].distinct_ports == transitions[k].alert.distinct_ports
            &&& top[i].distinct_ports > before.detector.max_distinct_ports
        }),
{
    let top = after.last_top_n;
    let signals = scan_signals(before.detector.max_distinct_ports, top);
    let ips = tick_ips(before.slots, signals);
    let at = law_signals_are_the_breadths_above(before.detector.max_distinct_ports, top);
    let who = law_events_are_of_the_addresses_that_change::<PortScanSignal, PortScanAlert>(
        before.slots,
        signals,
        now,
        before.timing,
        ips,
    );
    let e = events_after::<PortScanSignal, PortScanAlert>(before.slots, signals, now, before.timing, ips)[k];
    let ip = ips[who[k]];
    assert(e == transitions[k]);
    assert(last_signal(signals, ip) is Some);
    let j = law_signal_is_listed(signals, ip);
    let keep = |i: int| top[i].distinct_ports > before.detector.max_distinct_ports;
    assert(keep(at[j]));
    at[j]
}

/// A tick lists the broadest scanners of its reading: every entry is an address with the
/// number of ports that it touched within the window, broadest first and each once.
pub proof fn law_tick_lists_the_broadest_scanners(
    before: PortScanState,
    touches: Map<u64, PortTouch>,
    now_ns: u64,
    now: Instant,
    after: PortScanState,
    transitions: Seq<PortScanAlertEvent>,
    heartbeats: Seq<PortScanAlert>,
    i: int,
    j: int,
)
    requires
        is_port_scan_tick(before, touches, now_ns, now, after, transitions, heartbeats),
    ensures
        after.last_top_n.len() <= before.detector.top_n,
        0 <= i < after.last_top_n.len() ==> {
            let entry = after.last_top_n[i];
            &&& entry.distinct_ports == touched_ports(
                touches,
                now_ns,
                before.detector.window_ns,
                entry.src_ip,
            ).len()
            &&& entry.distinct_ports > 0
        },
        0 <= i < j < after.last_top_n.len() ==> after.last_top_n[i].src_ip
            != after.last_top_n[j].src_ip && after.last_top_n[j].distinct_ports
            <= after.last_top_n[i].distinct_ports,
{
    if 0 <= i < after.last_top_n.len() {
        let entry = after.last_top_n[i];
    }
}

/// What a tick exports: the number of ports of the broadest scanner, 0 without one; the number
/// of tracked addresses; and one count for each event, by what happened.
pub proof fn law_tick_exports_the_state(
    after: PortScanState,
    transitions: Seq<PortScanAlertEvent>,
    k: int,
)
    requires
        0 <= k < transitions.len(),
    ensures
        ({
            let ops = port_scan_tick_ops(after, transitions);
            let top: u64 = if after.last_top_n.len() > 0 {
                after.last_top_n[0].distinct_ports as u64
            } else {
                0
            };
            &&& ops.len() == 2 + transitions.len()
            &&& ops[0].metric == Metric::PortScanTopScannerPorts
            &&& ops[0].change == (MetricChange::Assign { value: Binary64::from_u64_spec(top) })
            &&& ops[1].metric == Metric::PortScanActiveAlerts
            &&& ops[1].change == (MetricChange::Assign {
                value: Binary64::from_u64_spec(after.slots.len() as usize as u64),
            })
            &&& ops[2 + k].metric == Metric::PortScanAlertEventsTotal
            &&& ops[2 + k].lifecycle == Some(transitions[k].lifecycle)
            &&& ops[2 + k].change == (MetricChange::Increment { by: 1 })
        }),
{
}

} // verus!
