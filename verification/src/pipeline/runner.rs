//! The per-protocol pipeline.
use vstd::prelude::*;

use crate::alert::manager::{
    active_signals, events_after, frozen_list, has_event, heartbeats_upto, key_at,
    law_heartbeats_are_firing_and_unchanged, renders, states_after, tracked_slots, AlertKey,
    AlertManager, AlertRule, SLOTS,
};
use crate::alert::model::{Alert, AlertEvent, AlertSignal};
use crate::alert::state::AlertState;
use crate::alert::view::AlertMetricsSnapshot;
use crate::anomaly::detector::{
    anomaly_view, compute_anomaly_view, AnomalyDetector, DetectResult,
};
use crate::anomaly::emergency::{
    emergency_signal, emergency_signals, law_emergencies_are_the_rates_above, over_a_limit,
    EmergencyDetector, EmergencyThreshold,
};
use crate::anomaly::ewma::{
    any_ready, ewma_signals, law_signals_are_the_rates_that_stand_out, stands_out, z_signal,
    EwmaDetector,
};
use crate::baseline::estimator::{
    law_each_protocol_takes_its_rate, law_other_protocols_unchanged, one_rate_per_proto, Baseline,
    BaselineState, EwmaEstimator,
};
use crate::common::{law_index_round_trip, proto_at, ProtoIndex};
use crate::metrics::{
    anomaly_ops, baseline_ops, contains_proto, event_op, frozen_ops, lemma_snap_ops, rate_ops,
    state_ops, Metric, MetricChange, MetricOp, MetricsHandle,
};
use crate::pipeline::view::{AlertSlotSnapshot, ProtoSnapshot, RunnerSnapshot};
use crate::pipeline::{prime_or_diff, TickAlerts};
use crate::rate::compute::{compute_rates, compute_rates_spec};
use crate::rate::model::{ProtoRate, TrafficCounters, TrafficCountersSnapshot};
use crate::rate::rate_spec;
use crate::sublist::{lemma_picks_none, lemma_picks_step, picks};
use crate::time::Instant;

verus! {

/// What one pass of the detectors and the alert manager came to.
#[derive(Debug)]
pub enum PipelineOutcome {
    /// Nothing changed, and a detector is still warming up.
    WarmingUp,
    /// Nothing changed.
    NoSignals,
    /// Alerts fired or resolved.
    Events { events: Vec<AlertEvent> },
}

/// Whether `outcome` says that `events` happened, with a detector warming up or not.
pub open spec fn outcome_is(
    outcome: PipelineOutcome,
    events: Seq<AlertEvent>,
    warming: bool,
) -> bool {
    match outcome {
        PipelineOutcome::WarmingUp => events.len() == 0 && warming,
        PipelineOutcome::NoSignals => events.len() == 0 && !warming,
        PipelineOutcome::Events { events: told } => events.len() > 0 && told@ == events,
    }
}

/// The signals of a detector; none while it is warming up.
pub open spec fn signals_or_none(found: Option<Seq<AlertSignal>>) -> Seq<AlertSignal> {
    match found {
        Some(s) => s,
        None => Seq::empty(),
    }
}

/// Appends the signals of a detector; true if it is warming up.
fn collect_signals(signals: &mut Vec<AlertSignal>, found: DetectResult) -> (r: bool)
    ensures
        final(signals)@ == old(signals)@ + signals_or_none(found@),
        r == (found@ is None),
{
    match found {
        DetectResult::WarmingUp => {
            proof {
                assert(signals@ + Seq::<AlertSignal>::empty() =~= signals@);
            }
            true
        },
        DetectResult::Signals(s) => {
            let mut s = s;
            signals.append(&mut s);
            false
        },
    }
}

/// Hands signals to the alert manager and sums up what came of it.
fn evaluate_signals(
    signals: &Vec<AlertSignal>,
    any_warming: bool,
    alert_manager: &mut AlertManager,
    now: Instant,
) -> (r: PipelineOutcome)
    requires
        old(alert_manager).wf(),
    ensures
        final(alert_manager).wf(),
        final(alert_manager).rules() == old(alert_manager).rules(),
        ({
            let rules = old(alert_manager).rules();
            let states = old(alert_manager).states();
            let active = active_signals(rules, signals@);
            &&& final(alert_manager).states() == states_after(rules, states, active, now)
            &&& outcome_is(r, events_after(rules, states, active, now), any_warming)
        }),
{
    let events = alert_manager.evaluate(signals.as_slice(), now);
    if events.len() == 0 {
        if any_warming {
            PipelineOutcome::WarmingUp
        } else {
            PipelineOutcome::NoSignals
        }
    } else {
        PipelineOutcome::Events { events }
    }
}

/// Runs both detectors on `rates` and hands their signals to the alert manager.
pub fn run_anomaly_pipeline<E: AnomalyDetector, Em: AnomalyDetector>(
    rates: &[ProtoRate],
    ewma: &E,
    emergency: &Em,
    alert_manager: &mut AlertManager,
    now: Instant,
) -> (r: PipelineOutcome)
    requires
        old(alert_manager).wf(),
    ensures
        final(alert_manager).wf(),
        final(alert_manager).rules() == old(alert_manager).rules(),
        ({
            let rules = old(alert_manager).rules();
            let states = old(alert_manager).states();
            let signals = signals_or_none(ewma.detected(rates@)) + signals_or_none(
                emergency.detected(rates@),
            );
            let active = active_signals(rules, signals);
            let warming = ewma.detected(rates@) is None || emergency.detected(rates@) is None;
            &&& final(alert_manager).states() == states_after(rules, states, active, now)
            &&& outcome_is(r, events_after(rules, states, active, now), warming)
        }),
{
    let mut signals: Vec<AlertSignal> = Vec::new();
    let warming_a: bool = collect_signals(&mut signals, ewma.detect(rates));
    let warming_b: bool = collect_signals(&mut signals, emergency.detect(rates));
    proof {
        assert(signals@ =~= signals_or_none(ewma.detected(rates@)) + signals_or_none(
            emergency.detected(rates@),
        ));
    }
    evaluate_signals(&signals, warming_a || warming_b, alert_manager, now)
}

/// What the pipeline remembers between ticks.
pub ghost struct RunnerState {
    /// The last reading of the counters.
    pub prev: Option<(Instant, Seq<TrafficCounters>)>,
    pub baseline: EwmaEstimator,
    pub thresholds: Seq<EmergencyThreshold>,
    pub rules: Seq<AlertRule>,
    pub states: Seq<Option<AlertState>>,
    /// Whether the EWMA baseline has produced at least one tick without warming up.
    pub warmed_up: bool,
    pub last_rates: Seq<ProtoRate>,
}

/// What one tick brings.
pub ghost struct RunnerTick {
    pub state: RunnerState,
    pub transitions: Seq<AlertEvent>,
    pub heartbeats: Seq<Alert>,
    pub ops: Seq<MetricOp>,
}

/// The rates of the protocols whose baselines are not frozen.
pub open spec fn unfrozen_rates(
    rates: Seq<ProtoRate>,
    frozen: Seq<ProtoIndex>,
) -> Seq<ProtoRate>
    decreases rates.len(),
{
    if rates.len() == 0 {
        Seq::empty()
    } else {
        let before = unfrozen_rates(rates.drop_last(), frozen);
        if frozen.contains(rates.last().proto) {
            before
        } else {
            before.push(rates.last())
        }
    }
}

/// Counts the events of a tick.
pub open spec fn alert_event_ops(events: Seq<AlertEvent>) -> Seq<MetricOp> {
    Seq::new(
        events.len(),
        |i: int|
            MetricOp {
                proto: Some(events[i].alert.proto),
                kind: Some(events[i].alert.kind),
                ..event_op(Metric::AlertEventsTotal, events[i].lifecycle)
            },
    )
}

/// The signals that the EWMA detector finds; `None` while it is warming up.
pub open spec fn ewma_found(baseline: EwmaEstimator, rates: Seq<ProtoRate>) -> Option<
    Seq<AlertSignal>,
> {
    if any_ready(&baseline, rates) {
        Some(ewma_signals(&baseline, rates))
    } else {
        None
    }
}

/// All signals of a tick: those against the baseline, then those against the thresholds.
pub open spec fn tick_signals(
    baseline: EwmaEstimator,
    thresholds: Seq<EmergencyThreshold>,
    rates: Seq<ProtoRate>,
) -> Seq<AlertSignal> {
    signals_or_none(ewma_found(baseline, rates)) + emergency_signals(thresholds, rates)
}

/// A tick at `now` that goes by the readings `prev` and `curr`, from `s` on, whose baseline
/// has counted the tick already.
pub open spec fn full_tick(
    s: RunnerState,
    prev: (Instant, Seq<TrafficCounters>),
    curr: (Instant, Seq<TrafficCounters>),
    now: Instant,
) -> RunnerTick {
    let rates = compute_rates_spec(prev.1, curr.1, curr.0.since(prev.0).as_secs_f64_spec());
    let active = active_signals(s.rules, tick_signals(s.baseline, s.thresholds, rates));
    let events = events_after(s.rules, s.states, active, now);
    let states = states_after(s.rules, s.states, active, now);
    let frozen = frozen_list(s.rules, states, curr.0, 5);
    let baseline = s.baseline.updated(unfrozen_rates(rates, frozen));
    RunnerTick {
        state: RunnerState {
            prev: Some(curr),
            baseline,
            states,
            warmed_up: s.warmed_up || ewma_found(s.baseline, rates) is Some,
            last_rates: rates,
            ..s
        },
        transitions: events,
        heartbeats: heartbeats_upto(states, active, events, SLOTS as nat),
        ops: rate_ops(rates) + baseline_ops(baseline, 5) + anomaly_ops(rates, baseline) + (
        frozen_ops(frozen, 5) + state_ops(states, SLOTS as nat)) + alert_event_ops(events),
    }
}

/// A tick at `now` with the reading `current`, if there is one. The baseline counts the tick
/// in any case; a first reading is only remembered.
pub open spec fn tick_spec(
    s: RunnerState,
    current: Option<(Instant, Seq<TrafficCounters>)>,
    now: Instant,
) -> RunnerTick {
    let counted = RunnerState { baseline: s.baseline.advanced(), ..s };
    match (current, s.prev) {
        (Some(curr), Some(prev)) => full_tick(counted, prev, curr, now),
        (Some(curr), None) => RunnerTick {
            state: RunnerState { prev: Some(curr), ..counted },
            transitions: Seq::empty(),
            heartbeats: Seq::empty(),
            ops: Seq::empty(),
        },
        (None, _) => RunnerTick {
            state: counted,
            transitions: Seq::empty(),
            heartbeats: Seq::empty(),
            ops: Seq::empty(),
        },
    }
}

/// The first of `rates` for `proto`.
pub open spec fn rate_for(rates: Seq<ProtoRate>, proto: ProtoIndex) -> Option<ProtoRate>
    decreases rates.len(),
{
    if rates.len() == 0 {
        None
    } else if rates[0].proto == proto {
        Some(rates[0])
    } else {
        rate_for(rates.drop_first(), proto)
    }
}

/// The tracked positions among the first `n` that are about `proto`.
pub open spec fn proto_slots(
    states: Seq<Option<AlertState>>,
    proto: ProtoIndex,
    n: nat,
) -> Seq<int>
    decreases n,
{
    if n == 0 {
        Seq::empty()
    } else {
        let before = proto_slots(states, proto, (n - 1) as nat);
        if states[n - 1] is Some && key_at(n - 1).proto == proto {
            before.push(n - 1)
        } else {
            before
        }
    }
}

/// Whether `slot` renders the alert at position `i`.
pub open spec fn renders_alert(slot: AlertSlotSnapshot, i: int, s: AlertState) -> bool {
    &&& slot.kind == key_at(i).kind
    &&& slot.phase_label@ == s.phase_label_spec()
    &&& slot.consecutive_count == s.consecutive_count
}

/// Whether `snap` renders all that `s` knows of `proto` at `now`.
pub open spec fn renders_proto(
    snap: ProtoSnapshot,
    s: RunnerState,
    now: Instant,
    proto: ProtoIndex,
) -> bool {
    let slots = proto_slots(s.states, proto, SLOTS as nat);
    &&& snap.proto == proto
    &&& snap.rate == rate_for(s.last_rates, proto)
    &&& snap.baseline == s.baseline.snapshot_spec(proto)
    &&& snap.anomaly == (match snap.rate {
        Some(r) => Some(anomaly_view(snap.baseline, r.pps, r.bps)),
        None => None,
    })
    &&& snap.alerts@.len() == slots.len()
    &&& forall|j: int|
        0 <= j < slots.len() ==> renders_alert(
            #[trigger] snap.alerts@[j],
            slots[j],
            s.states[slots[j]]->0,
        )
    &&& snap.frozen == frozen_list(s.rules, s.states, now, 5).contains(proto)
}

/// Finds anomalies in successive readings of the per-protocol counters.
pub struct AnomalyRunner {
    prev_counters: Option<TrafficCountersSnapshot>,
    baseline: EwmaEstimator,
    emergency_detector: EmergencyDetector,
    alert_manager: AlertManager,
    warmed_up: bool,
    last_rates: Vec<ProtoRate>,
}

impl View for AnomalyRunner {
    type V = RunnerState;

    closed spec fn view(&self) -> RunnerState {
        RunnerState {
            prev: match self.prev_counters {
                Some(s) => Some((s.timestamp, s.stats@)),
                None => None,
            },
            baseline: self.baseline,
            thresholds: self.emergency_detector.thresholds(),
            rules: self.alert_manager.rules(),
            states: self.alert_manager.states(),
            warmed_up: self.warmed_up,
            last_rates: self.last_rates@,
        }
    }
}

impl AnomalyRunner {
    /// Whether the alert manager is well formed.
    pub closed spec fn wf(&self) -> bool {
        self.alert_manager.wf()
    }

    /// A pipeline that has seen nothing.
    pub fn new(
        baseline: EwmaEstimator,
        emergency_detector: EmergencyDetector,
        alert_manager: AlertManager,
    ) -> (r: Self)
        requires
            alert_manager.wf(),
        ensures
            r.wf(),
            r@ == (RunnerState {
                prev: None,
                baseline,
                thresholds: emergency_detector.thresholds(),
                rules: alert_manager.rules(),
                states: alert_manager.states(),
                warmed_up: false,
                last_rates: Seq::empty(),
            }),
    {
        AnomalyRunner {
            prev_counters: None,
            baseline,
            emergency_detector,
            alert_manager,
            warmed_up: false,
            last_rates: Vec::new(),
        }
    }

    /// Processes one reading of the counters.
    ///
    /// The rates since the last reading are held against the baseline and the thresholds, the
    /// alerts are advanced, and the rates of all protocols whose baselines are not frozen by a
    /// hot alert are taken into the baseline.
    pub fn tick(
        &mut self,
        current: &Option<TrafficCountersSnapshot>,
        now: Instant,
        metrics: &mut MetricsHandle,
    ) -> (r: TickAlerts<AlertEvent, Alert>)
        requires
            old(self).wf(),
        ensures
            final(self).wf(),
            ({
                let reading = match *current {
                    Some(c) => Some((c.timestamp, c.stats@)),
                    None => None,
                };
                let t = tick_spec(old(self)@, reading, now);
                &&& final(self)@ == t.state
                &&& r.transitions@ == t.transitions
                &&& r.heartbeats@ == t.heartbeats
                &&& final(metrics).ops() == old(metrics).ops() + t.ops
            }),
    {
        let ghost ops0 = metrics.ops();
        proof {
            assert(ops0 + Seq::<MetricOp>::empty() =~= ops0);
        }
        self.baseline.advance();
        let ghost counted = self@;
        let prev = match prime_or_diff(&mut self.prev_counters, current) {
            Some(p) => p,
            None => {
                return TickAlerts { transitions: Vec::new(), heartbeats: Vec::new() };
            },
        };
        let curr = match current {
            Some(c) => c,
            None => {
                return TickAlerts { transitions: Vec::new(), heartbeats: Vec::new() };
            },
        };
        let ghost t = full_tick(
            counted,
            (prev.timestamp, prev.stats@),
            (curr.timestamp, curr.stats@),
            now,
        );
        let rates: Vec<ProtoRate> = compute_rates(&prev, curr);
        let mut signals: Vec<AlertSignal> = Vec::new();
        let ewma_detector = EwmaDetector::new(&self.baseline);
        let warming_a: bool = collect_signals(
            &mut signals,
            ewma_detector.detect(rates.as_slice()),
        );
        let warming_b: bool = collect_signals(
            &mut signals,
            self.emergency_detector.detect(rates.as_slice()),
        );
        proof {
            assert(signals@ =~= tick_signals(counted.baseline, counted.thresholds, rates@));
        }
        let outcome = evaluate_signals(
            &signals,
            warming_a || warming_b,
            &mut self.alert_manager,
            now,
        );
        let frozen: Vec<ProtoIndex> = self.alert_manager.frozen_protos(curr.timestamp);
        let unfrozen: Vec<ProtoRate> = Self::without_frozen(&rates, &frozen);
        self.baseline.update(unfrozen.as_slice());
        if !warming_a {
            self.warmed_up = true;
        }
        let events: Vec<AlertEvent> = match outcome {
            PipelineOutcome::WarmingUp => Vec::new(),
            PipelineOutcome::NoSignals => Vec::new(),
            PipelineOutcome::Events { events } => events,
        };
        proof {
            assert(events@ =~= t.transitions);
        }
        let heartbeats: Vec<Alert> = self.alert_manager.heartbeats(
            signals.as_slice(),
            events.as_slice(),
        );
        metrics.update_rates(rates.as_slice());
        metrics.update_baseline(&self.baseline);
        metrics.update_anomaly(rates.as_slice(), &self.baseline);
        let snaps: Vec<AlertMetricsSnapshot> = self.alert_manager.metrics_snapshot();
        metrics.update_alerts(snaps.as_slice(), frozen.as_slice());
        let ghost ops1 = metrics.ops();
        proof {
            self.alert_manager.lemma_wf();
            lemma_snap_ops(snaps@, self.alert_manager.states(), SLOTS as nat);
        }
        let mut i: usize = 0;
        while i < events.len()
            invariant
                i <= events@.len(),
                metrics.ops() =~= ops1 + alert_event_ops(events@).take(i as int),
            decreases events@.len() - i,
        {
            let e = events[i];
            metrics.record_alert_event(e.alert.proto, e.alert.kind, e.lifecycle);
            i = i + 1;
        }
        self.last_rates = rates;
        proof {
            let told = alert_event_ops(events@);
            assert(told.take(events@.len() as int) =~= told);
            assert(metrics.ops() =~= ops0 + t.ops);
        }
        TickAlerts { transitions: events, heartbeats }
    }

    /// The rates of the protocols whose baselines are not frozen.
    fn without_frozen(rates: &Vec<ProtoRate>, frozen: &Vec<ProtoIndex>) -> (r: Vec<ProtoRate>)
        ensures
            r@ == unfrozen_rates(rates@, frozen@),
    {
        let mut r: Vec<ProtoRate> = Vec::new();
        let mut i: usize = 0;
        proof {
            assert(rates@.take(0).len() == 0);
        }
        while i < rates.len()
            invariant
                i <= rates@.len(),
                r@ == unfrozen_rates(rates@.take(i as int), frozen@),
            decreases rates@.len() - i,
        {
            let rate = rates[i];
            proof {
                let t = rates@.take(i + 1);
                assert(t.drop_last() =~= rates@.take(i as int));
                assert(t.last() == rate);
            }
            if !contains_proto(frozen.as_slice(), rate.proto) {
                r.push(rate);
            }
            i = i + 1;
        }
        proof {
            assert(rates@.take(rates@.len() as int) =~= rates@);
        }
        r
    }

    /// Whether the EWMA baseline has produced at least one tick without warming up. An
    /// emergency that fires before that does not count.
    pub fn warmed_up(&self) -> (r: bool)
        ensures
            r == self@.warmed_up,
    {
        self.warmed_up
    }

    fn find_rate(&self, proto: ProtoIndex) -> (r: Option<ProtoRate>)
        ensures
            r == rate_for(self@.last_rates, proto),
    {
        let mut i: usize = 0;
        proof {
            assert(self.last_rates@.skip(0) =~= self.last_rates@);
        }
        while i < self.last_rates.len()
            invariant
                i <= self.last_rates@.len(),
                rate_for(self.last_rates@, proto) == rate_for(
                    self.last_rates@.skip(i as int),
                    proto,
                ),
            decreases self.last_rates@.len() - i,
        {
            let rate = self.last_rates[i];
            proof {
                assert(self.last_rates@.skip(i as int)[0] == rate);
                assert(self.last_rates@.skip(i as int).drop_first() =~= self.last_rates@.skip(
                    i + 1,
                ));
            }
            if rate.proto == proto {
                return Some(rate);
            }
            i = i + 1;
        }
        None
    }

    /// The alerts of `proto` among all tracked ones.
    fn alerts_of(snaps: &Vec<AlertMetricsSnapshot>, proto: ProtoIndex, Ghost(states): Ghost<
        Seq<Option<AlertState>>,
    >) -> (r: Vec<AlertSlotSnapshot>)
        requires
            snaps@.len() == tracked_slots(states, SLOTS as nat).len(),
            forall|j: int|
                0 <= j < snaps@.len() ==> renders(
                    #[trigger] snaps@[j],
                    tracked_slots(states, SLOTS as nat)[j],
                    states[tracked_slots(states, SLOTS as nat)[j]]->0,
                ),
        ensures
            ({
                let slots = proto_slots(states, proto, SLOTS as nat);
                &&& r@.len() == slots.len()
                &&& forall|j: int|
                    0 <= j < slots.len() ==> renders_alert(
                        #[trigger] r@[j],
                        slots[j],
                        states[slots[j]]->0,
                    )
            }),
    {
        let mut r: Vec<AlertSlotSnapshot> = Vec::new();
        let mut j: usize = 0;
        let ghost slots = tracked_slots(states, SLOTS as nat);
        let ghost mut kept: Seq<int> = Seq::empty();
        proof {
            assert(slots.take(0).len() == 0);
        }
        while j < snaps.len()
            invariant
                j <= snaps@.len(),
                slots == tracked_slots(states, SLOTS as nat),
                snaps@.len() == slots.len(),
                forall|j: int|
                    0 <= j < snaps@.len() ==> renders(
                        #[trigger] snaps@[j],
                        slots[j],
                        states[slots[j]]->0,
                    ),
                kept == about(slots.take(j as int), proto),
                r@.len() == kept.len(),
                forall|k: int|
                    0 <= k < kept.len() ==> renders_alert(
                        #[trigger] r@[k],
                        kept[k],
                        states[kept[k]]->0,
                    ),
            decreases snaps@.len() - j,
        {
            let s = &snaps[j];
            proof {
                let t = slots.take(j + 1);
                assert(t.drop_last() =~= slots.take(j as int));
                assert(t.last() == slots[j as int]);
                assert(renders(snaps@[j as int], slots[j as int], states[slots[j as int]]->0));
            }
            if s.proto == proto {
                r.push(
                    AlertSlotSnapshot {
                        kind: s.kind,
                        phase_label: s.phase_label,
                        consecutive_count: s.consecutive_count,
                    },
                );
                proof {
                    kept = kept.push(slots[j as int]);
                }
            }
            j = j + 1;
        }
        proof {
            assert(slots.take(slots.len() as int) =~= slots);
            lemma_about_tracked(states, proto, SLOTS as nat);
        }
        r
    }

    /// All that is known of all protocols at `now`, for display.
    pub fn snapshot(&self, now: Instant) -> (r: RunnerSnapshot)
        requires
            self.wf(),
        ensures
            r.protos@.len() == 5,
            forall|i: int|
                0 <= i < 5 ==> renders_proto(#[trigger] r.protos@[i], self@, now, proto_at(i)),
    {
        let frozen: Vec<ProtoIndex> = self.alert_manager.frozen_protos(now);
        let snaps: Vec<AlertMetricsSnapshot> = self.alert_manager.metrics_snapshot();
        let mut protos: Vec<ProtoSnapshot> = Vec::new();
        let mut i: usize = 0;
        while i < 5
            invariant
                i <= 5,
                protos@.len() == i,
                frozen@ == frozen_list(self@.rules, self@.states, now, 5),
                ({
                    let slots = tracked_slots(self@.states, SLOTS as nat);
                    &&& snaps@.len() == slots.len()
                    &&& forall|j: int|
                        0 <= j < snaps@.len() ==> renders(
                            #[trigger] snaps@[j],
                            slots[j],
                            self@.states[slots[j]]->0,
                        )
                }),
                forall|k: int|
                    0 <= k < i ==> renders_proto(#[trigger] protos@[k], self@, now, proto_at(k)),
            decreases 5 - i,
        {
            match ProtoIndex::from_index(i) {
                Some(proto) => {
                    let rate = self.find_rate(proto);
                    let baseline = self.baseline.snapshot(proto);
                    let anomaly = match &rate {
                        Some(r) => Some(compute_anomaly_view(&baseline, r.pps, r.bps)),
                        None => None,
                    };
                    let alerts = Self::alerts_of(&snaps, proto, Ghost(self@.states));
                    protos.push(
                        ProtoSnapshot {
                            proto,
                            rate,
                            baseline,
                            anomaly,
                            alerts,
                            frozen: contains_proto(frozen.as_slice(), proto),
                        },
                    );
                },
                None => {},
            }
            i = i + 1;
        }
        RunnerSnapshot { protos }
    }
}

/// Those of `slots` that are about `proto`.
spec fn about(slots: Seq<int>, proto: ProtoIndex) -> Seq<int>
    decreases slots.len(),
{
    if slots.len() == 0 {
        Seq::empty()
    } else {
        let before = about(slots.drop_last(), proto);
        if key_at(slots.last()).proto == proto {
            before.push(slots.last())
        } else {
            before
        }
    }
}

proof fn lemma_about_tracked(states: Seq<Option<AlertState>>, proto: ProtoIndex, n: nat)
    ensures
        about(tracked_slots(states, n), proto) == proto_slots(states, proto, n),
    decreases n,
{
    if n > 0 {
        let m = (n - 1) as nat;
        lemma_about_tracked(states, proto, m);
        let before = tracked_slots(states, m);
        if states[m as int] is Some {
            assert(tracked_slots(states, n).drop_last() =~= before);
        }
    }
}

/// The time gate of the baselines moves on every tick, with a reading or without one.
pub proof fn law_every_tick_counts(
    s: RunnerState,
    current: Option<(Instant, Seq<TrafficCounters>)>,
    now: Instant,
)
    ensures
        tick_spec(s, current, now).state.baseline.elapsed_ticks
            == s.baseline.advanced().elapsed_ticks,
{
}

/// A first reading changes nothing but what is remembered and counted: no alert is told of,
/// and nothing is exported.
pub proof fn law_first_reading_only_primes(
    s: RunnerState,
    curr: (Instant, Seq<TrafficCounters>),
    now: Instant,
)
    requires
        s.prev is None,
    ensures
        ({
            let t = tick_spec(s, Some(curr), now);
            &&& t.state == (RunnerState {
                prev: Some(curr),
                baseline: s.baseline.advanced(),
                ..s
            })
            &&& t.transitions.len() == 0
            &&& t.heartbeats.len() == 0
            &&& t.ops.len() == 0
        }),
{
}

/// A protocol whose baseline a hot alert freezes keeps it: the tick's rate is not taken in.
pub proof fn law_frozen_baselines_do_not_move(
    s: RunnerState,
    current: Option<(Instant, Seq<TrafficCounters>)>,
    now: Instant,
    proto: ProtoIndex,
)
    requires
        current matches Some(curr) && frozen_list(
            s.rules,
            tick_spec(s, current, now).state.states,
            curr.0,
            5,
        ).contains(proto),
    ensures
        ({
            let after = tick_spec(s, current, now).state.baseline;
            &&& after.pps_ewma.at(proto) == s.baseline.pps_ewma.at(proto)
            &&& after.bps_ewma.at(proto) == s.baseline.bps_ewma.at(proto)
        }),
{
    if let Some(curr) = current {
        if let Some(prev) = s.prev {
            let rates = compute_rates_spec(
                prev.1,
                curr.1,
                curr.0.since(prev.0).as_secs_f64_spec(),
            );
            let frozen = frozen_list(s.rules, tick_spec(s, current, now).state.states, curr.0, 5);
            lemma_unfrozen(rates, frozen);
            law_other_protocols_unchanged(
                s.baseline.advanced(),
                unfrozen_rates(rates, frozen),
                proto,
            );
        }
    }
}

proof fn lemma_unfrozen(rates: Seq<ProtoRate>, frozen: Seq<ProtoIndex>)
    ensures
        forall|i: int|
            0 <= i < unfrozen_rates(rates, frozen).len() ==> !frozen.contains(
                (#[trigger] unfrozen_rates(rates, frozen)[i]).proto,
            ),
    decreases rates.len(),
{
    if rates.len() > 0 {
        lemma_unfrozen(rates.drop_last(), frozen);
    }
}

/// Once warmed up, the pipeline stays so.
pub proof fn law_stays_warmed_up(
    s: RunnerState,
    current: Option<(Instant, Seq<TrafficCounters>)>,
    now: Instant,
)
    ensures
        s.warmed_up ==> tick_spec(s, current, now).state.warmed_up,
{
}

/// Until the baseline has something to say, the pipeline is not warmed up, whatever the
/// emergency thresholds find.
pub proof fn law_emergencies_do_not_warm_up(
    s: RunnerState,
    prev: (Instant, Seq<TrafficCounters>),
    curr: (Instant, Seq<TrafficCounters>),
    now: Instant,
)
    requires
        s.prev == Some(prev),
        !s.warmed_up,
    ensures
        tick_spec(s, Some(curr), now).state.warmed_up == any_ready(
            &s.baseline.advanced(),
            compute_rates_spec(prev.1, curr.1, curr.0.since(prev.0).as_secs_f64_spec()),
        ),
{
}

/// No alert is told of and re-affirmed on the same tick.
pub proof fn law_transitions_and_heartbeats_are_apart(
    s: RunnerState,
    current: Option<(Instant, Seq<TrafficCounters>)>,
    now: Instant,
    i: int,
    j: int,
)
    requires
        0 <= i < tick_spec(s, current, now).transitions.len(),
        0 <= j < tick_spec(s, current, now).heartbeats.len(),
    ensures
        ({
            let e = tick_spec(s, current, now).transitions[i].alert;
            let h = tick_spec(s, current, now).heartbeats[j];
            e.proto != h.proto || e.kind != h.kind
        }),
{
    if let (Some(curr), Some(prev)) = (current, s.prev) {
        let rates = compute_rates_spec(prev.1, curr.1, curr.0.since(prev.0).as_secs_f64_spec());
        let active = active_signals(
            s.rules,
            tick_signals(s.baseline.advanced(), s.thresholds, rates),
        );
        let states = states_after(s.rules, s.states, active, now);
        let events = events_after(s.rules, s.states, active, now);
        law_heartbeats_are_firing_and_unchanged(states, active, events, SLOTS as nat, j);
        let h = tick_spec(s, current, now).heartbeats[j];
        let key = AlertKey { proto: h.proto, kind: h.kind };
        assert(!has_event(events, key));
        assert(events[i].alert.proto == key.proto ==> events[i].alert.kind != key.kind);
    }
}

/// The rates that are taken into the baseline are those of the protocols that are not frozen,
/// in order, and no others: entry `k` is the rate at position `at[k]`.
pub proof fn law_only_frozen_protocols_are_left_out(
    rates: Seq<ProtoRate>,
    frozen: Seq<ProtoIndex>,
) -> (at: Seq<int>)
    ensures
        picks(at, rates.len(), |i: int| !frozen.contains(rates[i].proto)),
        unfrozen_rates(rates, frozen).len() == at.len(),
        forall|k: int|
            0 <= k < at.len() ==> #[trigger] unfrozen_rates(rates, frozen)[k] == rates[at[k]],
{
    assert(rates.take(rates.len() as int) =~= rates);
    lemma_unfrozen_upto(rates, frozen, rates.len())
}

proof fn lemma_unfrozen_upto(rates: Seq<ProtoRate>, frozen: Seq<ProtoIndex>, n: nat) -> (at: Seq<
    int,
>)
    requires
        n <= rates.len(),
    ensures
        picks(at, n, |i: int| !frozen.contains(rates[i].proto)),
        unfrozen_rates(rates.take(n as int), frozen).len() == at.len(),
        forall|k: int|
            0 <= k < at.len() ==> #[trigger] unfrozen_rates(rates.take(n as int), frozen)[k]
                == rates[at[k]],
    decreases n,
{
    let keep = |i: int| !frozen.contains(rates[i].proto);
    if n == 0 {
        lemma_picks_none(keep);
        Seq::empty()
    } else {
        let m = (n - 1) as nat;
        let before = lemma_unfrozen_upto(rates, frozen, m);
        lemma_picks_step(before, m, keep);
        assert(rates.take(n as int).drop_last() =~= rates.take(m as int));
        if keep(m as int) {
            before.push(m as int)
        } else {
            before
        }
    }
}

/// A tick with two readings remembers one rate for every bucket that both have, in the order
/// of the buckets: what the packet and byte counters moved by, per second between them.
pub proof fn law_tick_remembers_the_rates(
    s: RunnerState,
    prev: (Instant, Seq<TrafficCounters>),
    curr: (Instant, Seq<TrafficCounters>),
    now: Instant,
    i: int,
)
    requires
        s.prev == Some(prev),
        0 <= i < 5,
        i < prev.1.len(),
        i < curr.1.len(),
    ensures
        ({
            let rates = tick_spec(s, Some(curr), now).state.last_rates;
            let dt = curr.0.since(prev.0).as_secs_f64_spec();
            &&& rates.len() <= 5 && rates.len() <= prev.1.len() && rates.len() <= curr.1.len()
            &&& i < rates.len()
            &&& rates[i].proto.index_spec() == i
            &&& rates[i].pps == rate_spec(curr.1[i].packets, prev.1[i].packets, dt)
            &&& rates[i].bps == rate_spec(curr.1[i].bytes, prev.1[i].bytes, dt)
        }),
{
}

/// Every protocol that no hot alert freezes takes its rate into its baseline, whatever other
/// protocols are frozen: its packet average the packet rate of the tick, its byte average the
/// byte rate, one sample each.
pub proof fn law_other_baselines_take_their_rates(
    s: RunnerState,
    prev: (Instant, Seq<TrafficCounters>),
    curr: (Instant, Seq<TrafficCounters>),
    now: Instant,
    i: int,
)
    requires
        s.prev == Some(prev),
        0 <= i < tick_spec(s, Some(curr), now).state.last_rates.len(),
        !frozen_list(s.rules, tick_spec(s, Some(curr), now).state.states, curr.0, 5).contains(
            tick_spec(s, Some(curr), now).state.last_rates[i].proto,
        ),
    ensures
        ({
            let t = tick_spec(s, Some(curr), now).state;
            let rate = t.last_rates[i];
            let pps = s.baseline.pps_ewma.at(rate.proto);
            let bps = s.baseline.bps_ewma.at(rate.proto);
            &&& t.baseline.pps_ewma.at(rate.proto) == pps.updated(rate.pps)
            &&& t.baseline.bps_ewma.at(rate.proto) == bps.updated(rate.bps)
            &&& pps.samples < u64::MAX ==> t.baseline.pps_ewma.at(rate.proto).samples
                == pps.samples + 1
            &&& bps.samples < u64::MAX ==> t.baseline.bps_ewma.at(rate.proto).samples
                == bps.samples + 1
        }),
{
    let t = tick_spec(s, Some(curr), now).state;
    let rates = t.last_rates;
    let frozen = frozen_list(s.rules, t.states, curr.0, 5);
    let taken = unfrozen_rates(rates, frozen);
    let at = law_only_frozen_protocols_are_left_out(rates, frozen);
    let keep = |i: int| !frozen.contains(rates[i].proto);
    assert(keep(i));
    let k = choose|k: int| 0 <= k < at.len() && at[k] == i;
    assert(taken[k] == rates[i]);
    assert(one_rate_per_proto(taken)) by {
        assert forall|a: int, b: int| 0 <= a < b < taken.len() implies (#[trigger] taken[a]).proto
            != (#[trigger] taken[b]).proto by {
            assert(at[a] < at[b]);
            assert(taken[a] == rates[at[a]] && taken[b] == rates[at[b]]);
            law_index_round_trip(taken[a].proto, at[a]);
            law_index_round_trip(taken[b].proto, at[b]);
        }
    }
    law_each_protocol_takes_its_rate(s.baseline.advanced(), taken, k);
}

/// Whether `signal` is what `rate` calls for: against the baseline as it was before the tick
/// took any rate in, or against the absolute limits.
pub open spec fn is_called_for(
    signal: AlertSignal,
    rate: ProtoRate,
    baseline: EwmaEstimator,
    thresholds: Seq<EmergencyThreshold>,
) -> bool {
    ||| baseline.snapshot_spec(rate.proto) matches BaselineState::Ready { baseline: b }
        && z_signal(b, rate) == Some(signal)
    ||| emergency_signal(thresholds, rate) == Some(signal)
}

/// What a tick looks at: every signal is called for by one of its rates, held against the
/// baseline before that rate is learnt; and no signal that a rate calls for is missed.
pub proof fn law_detection_comes_before_learning(
    baseline: EwmaEstimator,
    thresholds: Seq<EmergencyThreshold>,
    rates: Seq<ProtoRate>,
    signal: AlertSignal,
)
    ensures
        tick_signals(baseline, thresholds, rates).contains(signal) <==> exists|i: int|
            0 <= i < rates.len() && is_called_for(
                signal,
                #[trigger] rates[i],
                baseline,
                thresholds,
            ),
{
    let detector = EwmaDetector { baseline: &baseline };
    let found = signals_or_none(ewma_found(baseline, rates));
    let all = tick_signals(baseline, thresholds, rates);
    let below = emergency_signals(thresholds, rates);
    let ready = any_ready(&baseline, rates);
    let at = if ready {
        law_signals_are_the_rates_that_stand_out(detector, rates)
    } else {
        Seq::empty()
    };
    let alarms = law_emergencies_are_the_rates_above(thresholds, rates);
    assert(all =~= found + below);
    if all.contains(signal) {
        let k = choose|k: int| 0 <= k < all.len() && all[k] == signal;
        if k < found.len() {
            assert(found[k] == signal);
            assert(is_called_for(signal, rates[at[k]], baseline, thresholds));
        } else {
            let j = k - found.len();
            assert(below[j] == signal);
            assert(is_called_for(signal, rates[alarms[j]], baseline, thresholds));
        }
    }
    assert forall|i: int|
        0 <= i < rates.len() && is_called_for(
            signal,
            #[trigger] rates[i],
            baseline,
            thresholds,
        ) implies all.contains(signal) by {
        if emergency_signal(thresholds, rates[i]) == Some(signal) {
            let keep = |i: int| over_a_limit(thresholds, rates[i]);
            assert(keep(i));
            let j = choose|j: int| 0 <= j < alarms.len() && alarms[j] == i;
            assert(below[j] == signal);
            assert(all[found.len() + j] == signal);
        } else {
            assert(baseline.state(rates[i].proto) is Ready);
            let keep = |i: int| stands_out(detector.baseline, rates[i]);
            assert(keep(i));
            let k = choose|k: int| 0 <= k < at.len() && at[k] == i;
            assert(found[k] == signal);
            assert(all[k] == signal);
        }
    }
}

/// A full tick moves the alerts by the signals of its rates, which it holds against the
/// baseline before it takes them in, and tells what changed; the reading becomes the one to
/// measure the next from.
pub proof fn law_alerts_follow_the_signals_of_the_tick(
    s: RunnerState,
    prev: (Instant, Seq<TrafficCounters>),
    curr: (Instant, Seq<TrafficCounters>),
    now: Instant,
)
    requires
        s.prev == Some(prev),
    ensures
        ({
            let t = tick_spec(s, Some(curr), now);
            let signals = tick_signals(s.baseline.advanced(), s.thresholds, t.state.last_rates);
            let active = active_signals(s.rules, signals);
            &&& t.state.prev == Some(curr)
            &&& t.state.rules == s.rules
            &&& t.state.thresholds == s.thresholds
            &&& t.state.states == states_after(s.rules, s.states, active, now)
            &&& t.transitions == events_after(s.rules, s.states, active, now)
        }),
{
}

/// Without a reading nothing changes but the number of ticks, and nothing is told.
pub proof fn law_no_reading_only_counts(s: RunnerState, now: Instant)
    ensures
        ({
            let t = tick_spec(s, None, now);
            &&& t.state == (RunnerState { baseline: s.baseline.advanced(), ..s })
            &&& t.transitions.len() == 0
            &&& t.heartbeats.len() == 0
            &&& t.ops.len() == 0
        }),
{
}

/// What a pass comes to: events exactly if there are any; without any, still warming up
/// exactly if a detector is.
pub proof fn law_outcome_tells_events_first(
    outcome: PipelineOutcome,
    events: Seq<AlertEvent>,
    warming: bool,
)
    requires
        outcome_is(outcome, events, warming),
    ensures
        events.len() > 0 <==> outcome is Events,
        outcome matches PipelineOutcome::Events { events: told } ==> told@ == events,
        outcome is WarmingUp <==> events.len() == 0 && warming,
        outcome is NoSignals <==> events.len() == 0 && !warming,
{
}

/// A full tick re-affirms the alerts that fire, have a signal and did not change on it, and
/// exports the rates, the baselines with these rates taken in and how the rates stand to
/// them, what is frozen, all alerts, and one count for each event.
pub proof fn law_full_tick_reaffirms_and_exports(
    s: RunnerState,
    prev: (Instant, Seq<TrafficCounters>),
    curr: (Instant, Seq<TrafficCounters>),
    now: Instant,
)
    requires
        s.prev == Some(prev),
    ensures
        ({
            let t = tick_spec(s, Some(curr), now);
            let signals = tick_signals(s.baseline.advanced(), s.thresholds, t.state.last_rates);
            let active = active_signals(s.rules, signals);
            let frozen = frozen_list(s.rules, t.state.states, curr.0, 5);
            &&& t.heartbeats == heartbeats_upto(
                t.state.states,
                active,
                t.transitions,
                SLOTS as nat,
            )
            &&& t.ops =~= rate_ops(t.state.last_rates) + (baseline_ops(t.state.baseline, 5) + (
            anomaly_ops(t.state.last_rates, t.state.baseline) + (frozen_ops(frozen, 5) + (
            state_ops(t.state.states, SLOTS as nat) + alert_event_ops(t.transitions)))))
        }),
{
}

/// Every event of a tick is counted under its protocol, its kind and what happened.
pub proof fn law_events_are_counted_by_label(events: Seq<AlertEvent>, i: int)
    requires
        0 <= i < events.len(),
    ensures
        ({
            let op = alert_event_ops(events)[i];
            &&& alert_event_ops(events).len() == events.len()
            &&& op.metric == Metric::AlertEventsTotal
            &&& op.proto == Some(events[i].alert.proto)
            &&& op.kind == Some(events[i].alert.kind)
            &&& op.lifecycle == Some(events[i].lifecycle)
            &&& op.change == (MetricChange::Increment { by: 1 })
        }),
{
}

/// The rate shown for a protocol is the first one it has, and there is none exactly if it has
/// none.
pub proof fn law_shown_rate_is_the_protocols_own(
    rates: Seq<ProtoRate>,
    proto: ProtoIndex,
    i: int,
)
    requires
        0 <= i <= rates.len(),
        forall|k: int| 0 <= k < i ==> (#[trigger] rates[k]).proto != proto,
        i < rates.len() ==> rates[i].proto == proto,
    ensures
        i < rates.len() ==> rate_for(rates, proto) == Some(rates[i]),
        i == rates.len() ==> rate_for(rates, proto) is None,
    decreases i,
{
    if i > 0 {
        let rest = rates.drop_first();
        assert(rates[0].proto != proto);
        assert forall|k: int| 0 <= k < i - 1 implies (#[trigger] rest[k]).proto != proto by {
            assert(rates[k + 1].proto != proto);
        }
        law_shown_rate_is_the_protocols_own(rest, proto, i - 1);
    }
}

/// The alerts shown for a protocol are those about it that have a state, all of them, in
/// order.
pub proof fn law_shown_alerts_are_the_protocols_own(
    states: Seq<Option<AlertState>>,
    proto: ProtoIndex,
    n: nat,
)
    ensures
        picks(
            proto_slots(states, proto, n),
            n,
            |i: int| states[i] is Some && key_at(i).proto == proto,
        ),
    decreases n,
{
    let keep = |i: int| states[i] is Some && key_at(i).proto == proto;
    if n == 0 {
        lemma_picks_none(keep);
    } else {
        let m = (n - 1) as nat;
        law_shown_alerts_are_the_protocols_own(states, proto, m);
        lemma_picks_step(proto_slots(states, proto, m), m, keep);
    }
}

/// What is shown of a protocol: its own rate and baseline, how the one stands to the other,
/// whether a hot alert freezes it, and its alerts with their phases and counts.
pub proof fn law_snapshot_shows_the_protocol(
    snap: ProtoSnapshot,
    s: RunnerState,
    now: Instant,
    proto: ProtoIndex,
    j: int,
)
    requires
        renders_proto(snap, s, now, proto),
    ensures
        snap.proto == proto,
        snap.rate == rate_for(s.last_rates, proto),
        snap.baseline == s.baseline.snapshot_spec(proto),
        snap.rate matches Some(r) ==> snap.anomaly == Some(
            anomaly_view(s.baseline.snapshot_spec(proto), r.pps, r.bps),
        ),
        snap.rate is None ==> snap.anomaly is None,
        snap.frozen <==> frozen_list(s.rules, s.states, now, 5).contains(proto),
        snap.alerts@.len() == proto_slots(s.states, proto, SLOTS as nat).len(),
        0 <= j < snap.alerts@.len() ==> {
            let i = proto_slots(s.states, proto, SLOTS as nat)[j];
            &&& snap.alerts@[j].kind == key_at(i).kind
            &&& snap.alerts@[j].phase_label@ == s.states[i]->0.phase_label_spec()
            &&& snap.alerts@[j].consecutive_count == s.states[i]->0.consecutive_count
        },
{
    if 0 <= j < snap.alerts@.len() {
        let slots = proto_slots(s.states, proto, SLOTS as nat);
        assert(renders_alert(snap.alerts@[j], slots[j], s.states[slots[j]]->0));
    }
}

} // verus!
