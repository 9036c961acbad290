//! One alert state machine per protocol and kind of anomaly, driven by rules.
use vstd::prelude::*;

use crate::alert::model::{Alert, AlertEvent, AlertKind, AlertSignal};
use crate::alert::state::{AlertLifecycle, AlertPhase, AlertState, AlertTiming};
use crate::alert::view::AlertMetricsSnapshot;
use crate::anomaly::model::AnomalyLevel;
use crate::binary64::Binary64;
use crate::common::{law_index_round_trip, proto_at, ProtoIndex};
use crate::sublist::{lemma_picks_none, lemma_picks_step, picks};
use crate::time::{Duration, Instant};

verus! {

/// What an alert is about.
#[derive(Debug, Clone, Copy, PartialEq, Eq, Hash, Structural)]
pub struct AlertKey {
    pub proto: ProtoIndex,
    pub kind: AlertKind,
}

/// When signals of one kind count, and when their alerts fire and resolve.
#[derive(Debug, Clone, Copy)]
pub struct AlertRule {
    pub kind: AlertKind,
    /// Least severity of a signal that counts.
    pub min_level: AnomalyLevel,
    /// Least confidence, from 0 to 1, of a signal that counts.
    pub min_confidence: Binary64,
    /// Time after firing in which the alert does not fire again.
    pub cooldown: Duration,
    /// Number of consecutive ticks with a signal that it takes to fire.
    pub consecutive_threshold: u32,
    /// Number of consecutive ticks without a signal that it takes to resolve.
    pub resolve_consecutive_threshold: u32,
    /// Whether the protocol's baseline is frozen while the alert is hot.
    pub freezes_baseline: bool,
}

impl AlertRule {
    /// The thresholds that the state machine goes by.
    pub open spec fn timing(self) -> AlertTiming {
        AlertTiming {
            cooldown: self.cooldown,
            consecutive_threshold: self.consecutive_threshold,
            resolve_consecutive_threshold: self.resolve_consecutive_threshold,
        }
    }

    /// Whether `signal` counts under this rule.
    pub open spec fn admits(self, signal: AlertSignal) -> bool {
        &&& signal.kind == self.kind
        &&& signal.level.rank_spec() >= self.min_level.rank_spec()
        &&& !signal.confidence.lt_spec(self.min_confidence)
    }

    /// Whether `signal` counts under this rule.
    fn is_met_by(&self, signal: &AlertSignal) -> (r: bool)
        ensures
            r == self.admits(*signal),
    {
        signal.kind == self.kind && signal.level.rank() >= self.min_level.rank()
            && !signal.confidence.lt(self.min_confidence)
    }
}

/// Number of (protocol, kind) pairs.
pub const SLOTS: usize = 15;

/// Position of a kind.
pub open spec fn kind_index(kind: AlertKind) -> int {
    match kind {
        AlertKind::Spike => 0,
        AlertKind::Drop => 1,
        AlertKind::Emergency => 2,
    }
}

/// The kind at position `i`.
pub open spec fn kind_at(i: int) -> AlertKind {
    if i == 0 {
        AlertKind::Spike
    } else if i == 1 {
        AlertKind::Drop
    } else {
        AlertKind::Emergency
    }
}

/// Position of the alert about `key`.
pub open spec fn slot_of(key: AlertKey) -> int {
    kind_index(key.kind) * 5 + key.proto.index_spec()
}

/// What the alert at position `i` is about.
pub open spec fn key_at(i: int) -> AlertKey {
    AlertKey { proto: proto_at(i % 5), kind: kind_at(i / 5) }
}

/// Positions and (protocol, kind) pairs correspond one to one.
pub proof fn law_slot_round_trip(key: AlertKey, i: int)
    requires
        0 <= i < SLOTS,
    ensures
        0 <= slot_of(key) < SLOTS,
        key_at(slot_of(key)) == key,
        slot_of(key_at(i)) == i,
{
    law_index_round_trip(key.proto, i % 5);
}

fn slot_key(i: usize) -> (r: AlertKey)
    requires
        i < SLOTS,
    ensures
        r == key_at(i as int),
{
    let kind: AlertKind = match i / 5 {
        0 => AlertKind::Spike,
        1 => AlertKind::Drop,
        _ => AlertKind::Emergency,
    };
    let proto: ProtoIndex = match ProtoIndex::from_index(i % 5) {
        Some(p) => p,
        None => ProtoIndex::Other,
    };
    AlertKey { proto, kind }
}

fn key_slot(key: AlertKey) -> (r: usize)
    ensures
        r == slot_of(key),
        r < SLOTS,
{
    let k: usize = match key.kind {
        AlertKind::Spike => 0,
        AlertKind::Drop => 1,
        AlertKind::Emergency => 2,
    };
    k * 5 + key.proto.index()
}

/// The last signal about `key` that counts under `rule`.
pub open spec fn last_admitted(
    rule: AlertRule,
    signals: Seq<AlertSignal>,
    key: AlertKey,
) -> Option<AlertSignal>
    decreases signals.len(),
{
    if signals.len() == 0 {
        None
    } else {
        let s = signals.last();
        if rule.admits(s) && s.proto == key.proto && s.kind == key.kind {
            Some(s)
        } else {
            last_admitted(rule, signals.drop_last(), key)
        }
    }
}

/// The signal about `key` that counts: the last one that the last rule to admit any admits.
pub open spec fn active_signal(
    rules: Seq<AlertRule>,
    signals: Seq<AlertSignal>,
    key: AlertKey,
) -> Option<AlertSignal>
    decreases rules.len(),
{
    if rules.len() == 0 {
        None
    } else {
        match last_admitted(rules.last(), signals, key) {
            Some(s) => Some(s),
            None => active_signal(rules.drop_last(), signals, key),
        }
    }
}

/// For every position, the signal that counts.
pub open spec fn active_signals(
    rules: Seq<AlertRule>,
    signals: Seq<AlertSignal>,
) -> Seq<Option<AlertSignal>> {
    Seq::new(SLOTS as nat, |i: int| active_signal(rules, signals, key_at(i)))
}

/// The state of an alert, before its first signal too.
pub open spec fn or_fresh(s: Option<AlertState>) -> AlertState {
    match s {
        Some(s) => s,
        None => AlertState::fresh(),
    }
}

/// Whether `rule` moves the alert at position `i`: it is of the rule's kind, and is tracked
/// already or has a signal.
pub open spec fn rule_moves(
    rule: AlertRule,
    states: Seq<Option<AlertState>>,
    active: Seq<Option<AlertSignal>>,
    i: int,
) -> bool {
    key_at(i).kind == rule.kind && (states[i] is Some || active[i] is Some)
}

/// All states after `rule` has been applied.
pub open spec fn rule_states(
    rule: AlertRule,
    states: Seq<Option<AlertState>>,
    active: Seq<Option<AlertSignal>>,
    now: Instant,
) -> Seq<Option<AlertState>> {
    Seq::new(
        SLOTS as nat,
        |i: int|
            if rule_moves(rule, states, active, i) {
                Some(or_fresh(states[i]).next(active[i] is Some, now, rule.timing()))
            } else {
                states[i]
            },
    )
}

/// The event, if any, that `rule` brings about at position `i`.
pub open spec fn rule_event_at(
    rule: AlertRule,
    states: Seq<Option<AlertState>>,
    active: Seq<Option<AlertSignal>>,
    now: Instant,
    i: int,
) -> Option<AlertEvent> {
    let key = key_at(i);
    if !rule_moves(rule, states, active, i) {
        None
    } else {
        match or_fresh(states[i]).event(active[i] is Some, now, rule.timing()) {
            None => None,
            Some(AlertLifecycle::Fired) => Some(
                AlertEvent {
                    alert: Alert {
                        proto: key.proto,
                        kind: key.kind,
                        level: active[i]->0.level,
                        confidence: active[i]->0.confidence,
                    },
                    lifecycle: AlertLifecycle::Fired,
                },
            ),
            Some(AlertLifecycle::Resolved) => Some(
                AlertEvent {
                    alert: Alert {
                        proto: key.proto,
                        kind: key.kind,
                        level: rule.min_level,
                        confidence: Binary64::zero(),
                    },
                    lifecycle: AlertLifecycle::Resolved,
                },
            ),
        }
    }
}

/// The events that `rule` brings about at the first `n` positions.
pub open spec fn rule_events(
    rule: AlertRule,
    states: Seq<Option<AlertState>>,
    active: Seq<Option<AlertSignal>>,
    now: Instant,
    n: nat,
) -> Seq<AlertEvent>
    decreases n,
{
    if n == 0 {
        Seq::empty()
    } else {
        let before = rule_events(rule, states, active, now, (n - 1) as nat);
        match rule_event_at(rule, states, active, now, n - 1) {
            Some(e) => before.push(e),
            None => before,
        }
    }
}

/// All states after all of `rules` have been applied, in order.
pub open spec fn states_after(
    rules: Seq<AlertRule>,
    states: Seq<Option<AlertState>>,
    active: Seq<Option<AlertSignal>>,
    now: Instant,
) -> Seq<Option<AlertState>>
    decreases rules.len(),
{
    if rules.len() == 0 {
        states
    } else {
        rule_states(
            rules.last(),
            states_after(rules.drop_last(), states, active, now),
            active,
            now,
        )
    }
}

/// The events that all of `rules` bring about, in order.
pub open spec fn events_after(
    rules: Seq<AlertRule>,
    states: Seq<Option<AlertState>>,
    active: Seq<Option<AlertSignal>>,
    now: Instant,
) -> Seq<AlertEvent>
    decreases rules.len(),
{
    if rules.len() == 0 {
        Seq::empty()
    } else {
        events_after(rules.drop_last(), states, active, now) + rule_events(
            rules.last(),
            states_after(rules.drop_last(), states, active, now),
            active,
            now,
            SLOTS as nat,
        )
    }
}

/// The first rule for `kind`.
pub open spec fn first_rule(rules: Seq<AlertRule>, kind: AlertKind) -> Option<AlertRule>
    decreases rules.len(),
{
    if rules.len() == 0 {
        None
    } else if rules[0].kind == kind {
        Some(rules[0])
    } else {
        first_rule(rules.drop_first(), kind)
    }
}

/// Whether the alert at position `i` freezes its protocol's baseline.
pub open spec fn freezes_at(
    rules: Seq<AlertRule>,
    states: Seq<Option<AlertState>>,
    now: Instant,
    i: int,
) -> bool {
    match (states[i], first_rule(rules, key_at(i).kind)) {
        (Some(s), Some(rule)) => rule.freezes_baseline && s.hot(now, rule.cooldown),
        _ => false,
    }
}

/// Whether some alert of `proto` freezes its baseline.
pub open spec fn frozen(
    rules: Seq<AlertRule>,
    states: Seq<Option<AlertState>>,
    now: Instant,
    proto: ProtoIndex,
) -> bool {
    exists|i: int|
        0 <= i < SLOTS && key_at(i).proto == proto && #[trigger] freezes_at(rules, states, now, i)
}

/// The protocols among the first `n` whose baselines are frozen.
pub open spec fn frozen_list(
    rules: Seq<AlertRule>,
    states: Seq<Option<AlertState>>,
    now: Instant,
    n: nat,
) -> Seq<ProtoIndex>
    decreases n,
{
    if n == 0 {
        Seq::empty()
    } else {
        let before = frozen_list(rules, states, now, (n - 1) as nat);
        if frozen(rules, states, now, proto_at(n - 1)) {
            before.push(proto_at(n - 1))
        } else {
            before
        }
    }
}

/// Whether `events` holds one about `key`.
pub open spec fn has_event(events: Seq<AlertEvent>, key: AlertKey) -> bool {
    exists|j: int|
        0 <= j < events.len() && #[trigger] events[j].alert.proto == key.proto
            && events[j].alert.kind == key.kind
}

/// The alert, if any, that is re-affirmed at position `i`.
pub open spec fn heartbeat_at(
    states: Seq<Option<AlertState>>,
    active: Seq<Option<AlertSignal>>,
    transitions: Seq<AlertEvent>,
    i: int,
) -> Option<Alert> {
    match (states[i], active[i]) {
        (Some(state), Some(s)) => if state.firing() && !has_event(transitions, key_at(i)) {
            Some(
                Alert {
                    proto: key_at(i).proto,
                    kind: key_at(i).kind,
                    level: s.level,
                    confidence: s.confidence,
                },
            )
        } else {
            None
        },
        _ => None,
    }
}

/// The alerts that are re-affirmed at the first `n` positions.
pub open spec fn heartbeats_upto(
    states: Seq<Option<AlertState>>,
    active: Seq<Option<AlertSignal>>,
    transitions: Seq<AlertEvent>,
    n: nat,
) -> Seq<Alert>
    decreases n,
{
    if n == 0 {
        Seq::empty()
    } else {
        let before = heartbeats_upto(states, active, transitions, (n - 1) as nat);
        match heartbeat_at(states, active, transitions, n - 1) {
            Some(a) => before.push(a),
            None => before,
        }
    }
}

/// Whether `snap` renders the state `s` at position `i`.
pub open spec fn renders(snap: AlertMetricsSnapshot, i: int, s: AlertState) -> bool {
    &&& snap.proto == key_at(i).proto
    &&& snap.kind == key_at(i).kind
    &&& snap.phase_value == s.phase_value_spec()
    &&& snap.phase_label@ == s.phase_label_spec()
    &&& snap.consecutive_count == s.consecutive_count
}

/// The tracked positions among the first `n`.
pub open spec fn tracked_slots(states: Seq<Option<AlertState>>, n: nat) -> Seq<int>
    decreases n,
{
    if n == 0 {
        Seq::empty()
    } else {
        let before = tracked_slots(states, (n - 1) as nat);
        if states[n - 1] is Some {
            before.push(n - 1)
        } else {
            before
        }
    }
}

/// Drives one alert state machine per (protocol, kind) pair.
pub struct AlertManager {
    rules: Vec<AlertRule>,
    states: Vec<Option<AlertState>>,
}

/// The manager of the per-protocol alert lifecycle.
pub type AlertLifecycleManager = AlertManager;

impl AlertManager {
    /// The rules, in the order in which they are applied.
    pub closed spec fn rules(&self) -> Seq<AlertRule> {
        self.rules@
    }

    /// The state of every (protocol, kind) pair; `None` where it is not tracked.
    pub closed spec fn states(&self) -> Seq<Option<AlertState>> {
        self.states@
    }

    /// Whether there is one state for each pair, each of them reachable.
    pub closed spec fn wf(&self) -> bool {
        &&& self.states@.len() == SLOTS
        &&& forall|i: int|
            0 <= i < SLOTS ==> ((#[trigger] self.states@[i]) matches Some(s) ==> s.wf())
    }

    /// What `wf` says of the states.
    pub proof fn lemma_wf(&self)
        requires
            self.wf(),
        ensures
            self.states().len() == SLOTS,
            forall|i: int|
                0 <= i < SLOTS ==> ((#[trigger] self.states()[i]) matches Some(s) ==> s.wf()),
    {
    }

    /// A manager with the given rules. With no rules there are no alerts.
    pub fn new(rules: Vec<AlertRule>) -> (r: AlertManager)
        ensures
            r.wf(),
            r.rules() == rules@,
            r.states() == Seq::new(SLOTS as nat, |i: int| None::<AlertState>),
    {
        let mut states: Vec<Option<AlertState>> = Vec::new();
        let mut i: usize = 0;
        while i < SLOTS
            invariant
                i <= SLOTS,
                states@ == Seq::new(i as nat, |j: int| None::<AlertState>),
            decreases SLOTS - i,
        {
            states.push(None);
            i = i + 1;
        }
        AlertManager { rules, states }
    }

    /// Advances all state machines by one tick and returns what changed.
    pub fn evaluate(&mut self, signals: &[AlertSignal], now: Instant) -> (r: Vec<AlertEvent>)
        requires
            old(self).wf(),
        ensures
            final(self).wf(),
            final(self).rules() == old(self).rules(),
            ({
                let active = active_signals(old(self).rules(), signals@);
                &&& final(self).states() == states_after(
                    old(self).rules(),
                    old(self).states(),
                    active,
                    now,
                )
                &&& r@ == events_after(old(self).rules(), old(self).states(), active, now)
            }),
    {
        let active = self.collect_active(signals);
        self.advance_states(&active, now)
    }

    /// The tracked alerts, for metrics.
    pub fn metrics_snapshot(&self) -> (r: Vec<AlertMetricsSnapshot>)
        requires
            self.wf(),
        ensures
            ({
                let slots = tracked_slots(self.states(), SLOTS as nat);
                &&& r@.len() == slots.len()
                &&& forall|j: int|
                    0 <= j < r@.len() ==> renders(
                        #[trigger] r@[j],
                        slots[j],
                        self.states()[slots[j]]->0,
                    )
            }),
    {
        let mut r: Vec<AlertMetricsSnapshot> = Vec::new();
        let mut i: usize = 0;
        while i < SLOTS
            invariant
                i <= SLOTS,
                self.wf(),
                ({
                    let slots = tracked_slots(self.states(), i as nat);
                    &&& r@.len() == slots.len()
                    &&& forall|j: int|
                        0 <= j < r@.len() ==> renders(
                            #[trigger] r@[j],
                            slots[j],
                            self.states()[slots[j]]->0,
                        )
                }),
            decreases SLOTS - i,
        {
            match &self.states[i] {
                Some(state) => {
                    let key = slot_key(i);
                    r.push(
                        AlertMetricsSnapshot {
                            proto: key.proto,
                            kind: key.kind,
                            phase_value: state.phase_value(),
                            phase_label: state.phase_label(),
                            consecutive_count: state.consecutive_count,
                        },
                    );
                },
                None => {},
            }
            i = i + 1;
        }
        r
    }

    /// The protocols whose baselines are frozen, in the order of their buckets.
    pub fn frozen_protos(&self, now: Instant) -> (r: Vec<ProtoIndex>)
        requires
            self.wf(),
        ensures
            r@ == frozen_list(self.rules(), self.states(), now, 5),
    {
        let mut r: Vec<ProtoIndex> = Vec::new();
        let mut p: usize = 0;
        while p < 5
            invariant
                p <= 5,
                self.wf(),
                r@ == frozen_list(self.rules(), self.states(), now, p as nat),
            decreases 5 - p,
        {
            let mut hit: bool = false;
            let mut i: usize = 0;
            while i < SLOTS
                invariant
                    i <= SLOTS,
                    p < 5,
                    self.wf(),
                    hit == exists|k: int|
                        0 <= k < i && key_at(k).proto == proto_at(p as int)
                            && #[trigger] freezes_at(self.rules(), self.states(), now, k),
                decreases SLOTS - i,
            {
                let key = slot_key(i);
                proof {
                    law_index_round_trip(key.proto, i as int % 5);
                    law_index_round_trip(key.proto, p as int);
                }
                if self.freezes(i, now) && key.proto.index() == p {
                    assert(freezes_at(self.rules(), self.states(), now, i as int));
                    hit = true;
                }
                i = i + 1;
            }
            proof {
                assert(hit == frozen(self.rules(), self.states(), now, proto_at(p as int)));
            }
            if hit {
                match ProtoIndex::from_index(p) {
                    Some(proto) => r.push(proto),
                    None => {},
                }
            }
            p = p + 1;
        }
        r
    }

    fn freezes(&self, i: usize, now: Instant) -> (r: bool)
        requires
            self.wf(),
            i < SLOTS,
        ensures
            r == freezes_at(self.rules(), self.states(), now, i as int),
    {
        let key = slot_key(i);
        match &self.states[i] {
            Some(state) => {
                let mut n: usize = 0;
                proof {
                    assert(self.rules@.skip(0) =~= self.rules@);
                }
                while n < self.rules.len()
                    invariant
                        n <= self.rules@.len(),
                        first_rule(self.rules@, key.kind) == first_rule(
                            self.rules@.skip(n as int),
                            key.kind,
                        ),
                        self.wf(),
                        i < SLOTS,
                        key == key_at(i as int),
                        self.states@[i as int] == Some(*state),
                    decreases self.rules@.len() - n,
                {
                    let rule = self.rules[n];
                    proof {
                        assert(self.rules@.skip(n as int)[0] == self.rules@[n as int]);
                        assert(self.rules@.skip(n as int).drop_first() =~= self.rules@.skip(n + 1));
                    }
                    if rule.kind == key.kind {
                        return rule.freezes_baseline && state.is_hot(now, rule.cooldown);
                    }
                    n = n + 1;
                }
                false
            },
            None => false,
        }
    }

    /// Re-affirms every alert that fires, has a signal and is not among `transitions`.
    pub fn heartbeats(&self, signals: &[AlertSignal], transitions: &[AlertEvent]) -> (r: Vec<Alert>)
        requires
            self.wf(),
        ensures
            r@ == heartbeats_upto(
                self.states(),
                active_signals(self.rules(), signals@),
                transitions@,
                SLOTS as nat,
            ),
    {
        let active = self.collect_active(signals);
        let mut r: Vec<Alert> = Vec::new();
        let mut i: usize = 0;
        while i < SLOTS
            invariant
                i <= SLOTS,
                self.wf(),
                active@ == active_signals(self.rules(), signals@),
                r@ == heartbeats_upto(self.states(), active@, transitions@, i as nat),
            decreases SLOTS - i,
        {
            let key = slot_key(i);
            match (&self.states[i], &active[i]) {
                (Some(state), Some(s)) => {
                    if state.is_firing() && !Self::mentions(transitions, key) {
                        r.push(
                            Alert {
                                proto: key.proto,
                                kind: key.kind,
                                level: s.level,
                                confidence: s.confidence,
                            },
                        );
                    }
                },
                _ => {},
            }
            i = i + 1;
        }
        r
    }

    fn mentions(events: &[AlertEvent], key: AlertKey) -> (r: bool)
        ensures
            r == has_event(events@, key),
    {
        let mut j: usize = 0;
        while j < events.len()
            invariant
                j <= events@.len(),
                forall|k: int|
                    0 <= k < j ==> !(#[trigger] events@[k].alert.proto == key.proto
                        && events@[k].alert.kind == key.kind),
            decreases events@.len() - j,
        {
            let e = &events[j];
            if e.alert.proto == key.proto && e.alert.kind == key.kind {
                assert(events@[j as int].alert.proto == key.proto);
                return true;
            }
            j = j + 1;
        }
        false
    }

    /// For every position, the signal that counts.
    fn collect_active(&self, signals: &[AlertSignal]) -> (r: Vec<Option<AlertSignal>>)
        ensures
            r@ == active_signals(self.rules(), signals@),
    {
        let mut active: Vec<Option<AlertSignal>> = Vec::new();
        let mut i: usize = 0;
        while i < SLOTS
            invariant
                i <= SLOTS,
                active@ == Seq::new(i as nat, |j: int| None::<AlertSignal>),
            decreases SLOTS - i,
        {
            active.push(None);
            i = i + 1;
        }
        let mut n: usize = 0;
        proof {
            assert(self.rules@.take(0).len() == 0);
            assert(active@ =~= active_signals(self.rules@.take(0), signals@));
        }
        while n < self.rules.len()
            invariant
                n <= self.rules@.len(),
                active@ =~= active_signals(self.rules@.take(n as int), signals@),
            decreases self.rules@.len() - n,
        {
            let rule = self.rules[n];
            let ghost before = active@;
            let ghost done = self.rules@.take(n as int);
            let mut j: usize = 0;
            proof {
                assert(signals@.take(0).len() == 0);
            }
            while j < signals.len()
                invariant
                    j <= signals@.len(),
                    active@.len() == SLOTS,
                    before == active_signals(done, signals@),
                    forall|k: int|
                        0 <= k < SLOTS ==> #[trigger] active@[k] == (match last_admitted(
                            rule,
                            signals@.take(j as int),
                            key_at(k),
                        ) {
                            Some(s) => Some(s),
                            None => before[k],
                        }),
                decreases signals@.len() - j,
            {
                let signal = signals[j];
                let ghost mid = active@;
                let key = AlertKey { proto: signal.proto, kind: signal.kind };
                proof {
                    let t = signals@.take(j + 1);
                    assert(t.last() == signal);
                    assert(t.drop_last() =~= signals@.take(j as int));
                    law_slot_round_trip(key, 0);
                    assert forall|k: int| 0 <= k < SLOTS implies (key_at(k) == key <==> k
                        == slot_of(key)) by {
                        law_slot_round_trip(key, k);
                    }
                }
                if rule.is_met_by(&signal) {
                    let slot: usize = key_slot(key);
                    active.set(slot, Some(signal));
                }
                j = j + 1;
            }
            proof {
                assert(signals@.take(signals@.len() as int) =~= signals@);
                let next = self.rules@.take(n + 1);
                assert(next.last() == rule);
                assert(next.drop_last() =~= done);
                assert(active@ =~= active_signals(next, signals@));
            }
            n = n + 1;
        }
        proof {
            assert(self.rules@.take(self.rules@.len() as int) =~= self.rules@);
        }
        active
    }

    /// Applies all rules to all state machines.
    fn advance_states(
        &mut self,
        active: &Vec<Option<AlertSignal>>,
        now: Instant,
    ) -> (r: Vec<AlertEvent>)
        requires
            old(self).wf(),
            active@.len() == SLOTS,
        ensures
            final(self).wf(),
            final(self).rules() == old(self).rules(),
            final(self).states() == states_after(
                old(self).rules(),
                old(self).states(),
                active@,
                now,
            ),
            r@ == events_after(old(self).rules(), old(self).states(), active@, now),
    {
        let mut events: Vec<AlertEvent> = Vec::new();
        let mut n: usize = 0;
        let ghost rules = self.rules@;
        let ghost states = self.states@;
        proof {
            assert(rules.take(0).len() == 0);
        }
        while n < self.rules.len()
            invariant
                n <= rules.len(),
                self.wf(),
                self.rules@ == rules,
                active@.len() == SLOTS,
                self.states@ == states_after(rules.take(n as int), states, active@, now),
                events@ == events_after(rules.take(n as int), states, active@, now),
            decreases rules.len() - n,
        {
            let rule = self.rules[n];
            let ghost before = self.states@;
            let ghost told = events@;
            let mut i: usize = 0;
            proof {
                assert(told + Seq::<AlertEvent>::empty() =~= told);
            }
            while i < SLOTS
                invariant
                    i <= SLOTS,
                    self.wf(),
                    self.rules@ == rules,
                    active@.len() == SLOTS,
                    before.len() == SLOTS,
                    forall|k: int|
                        0 <= k < i ==> #[trigger] self.states@[k] == rule_states(
                            rule,
                            before,
                            active@,
                            now,
                        )[k],
                    forall|k: int| i <= k < SLOTS ==> #[trigger] self.states@[k] == before[k],
                    events@ == told + rule_events(rule, before, active@, now, i as nat),
                decreases SLOTS - i,
            {
                let key = slot_key(i);
                let signal = active[i];
                let tracked_state = self.states[i];
                if key.kind == rule.kind && (tracked_state.is_some() || signal.is_some()) {
                    let mut state = match tracked_state {
                        Some(s) => s,
                        None => AlertState::new(),
                    };
                    let event = state.advance(
                        signal.is_some(),
                        now,
                        rule.cooldown,
                        rule.consecutive_threshold,
                        rule.resolve_consecutive_threshold,
                    );
                    self.states.set(i, Some(state));
                    match (event, signal) {
                        (Some(AlertLifecycle::Fired), Some(s)) => {
                            events.push(
                                AlertEvent {
                                    alert: Alert {
                                        proto: key.proto,
                                        kind: key.kind,
                                        level: s.level,
                                        confidence: s.confidence,
                                    },
                                    lifecycle: AlertLifecycle::Fired,
                                },
                            );
                        },
                        (Some(AlertLifecycle::Resolved), _) => {
                            events.push(
                                AlertEvent {
                                    alert: Alert {
                                        proto: key.proto,
                                        kind: key.kind,
                                        level: rule.min_level,
                                        confidence: Binary64::zero(),
                                    },
                                    lifecycle: AlertLifecycle::Resolved,
                                },
                            );
                        },
                        _ => {},
                    }
                }
                proof {
                    let now_told = rule_events(rule, before, active@, now, i as nat);
                    let e = rule_event_at(rule, before, active@, now, i as int);
                    assert(events@ =~= told + rule_events(
                        rule,
                        before,
                        active@,
                        now,
                        (i + 1) as nat,
                    ));
                }
                i = i + 1;
            }
            proof {
                let next = rules.take(n + 1);
                assert(next.last() == rule);
                assert(next.drop_last() =~= rules.take(n as int));
                assert(self.states@ =~= rule_states(rule, before, active@, now));
            }
            n = n + 1;
        }
        proof {
            assert(rules.take(rules.len() as int) =~= rules);
        }
        events
    }
}

/// With no rules nothing is tracked and nothing is told.
pub proof fn law_no_rules_no_events(
    states: Seq<Option<AlertState>>,
    signals: Seq<AlertSignal>,
    now: Instant,
)
    ensures
        ({
            let active = active_signals(Seq::<AlertRule>::empty(), signals);
            &&& events_after(Seq::<AlertRule>::empty(), states, active, now).len() == 0
            &&& states_after(Seq::<AlertRule>::empty(), states, active, now) == states
        }),
{
}

/// A signal counts only if some rule of its kind admits it, by level and by confidence; and
/// where some rule admits a signal about `key`, a signal about `key` counts.
pub proof fn law_counting_signals_are_admitted(
    rules: Seq<AlertRule>,
    signals: Seq<AlertSignal>,
    key: AlertKey,
)
    ensures
        active_signal(rules, signals, key) matches Some(s) ==> s.proto == key.proto && s.kind
            == key.kind && signals.contains(s) && exists|n: int|
            0 <= n < rules.len() && #[trigger] rules[n].admits(s),
        (exists|n: int, j: int|
            0 <= n < rules.len() && 0 <= j < signals.len() && #[trigger] rules[n].admits(
                #[trigger] signals[j],
            ) && signals[j].proto == key.proto && signals[j].kind == key.kind) ==> active_signal(
            rules,
            signals,
            key,
        ) is Some,
    decreases rules.len(),
{
    if rules.len() > 0 {
        let rest = rules.drop_last();
        let last = rules.last();
        law_counting_signals_are_admitted(rest, signals, key);
        lemma_last_admitted(last, signals, key);
        match last_admitted(last, signals, key) {
            Some(s) => {
                assert(rules[rules.len() - 1].admits(s));
            },
            None => {
                if let Some(s) = active_signal(rest, signals, key) {
                    let n = choose|n: int| 0 <= n < rest.len() && #[trigger] rest[n].admits(s);
                    assert(rules[n].admits(s));
                }
                assert forall|n: int, j: int|
                    0 <= n < rules.len() && 0 <= j < signals.len() && #[trigger] rules[n].admits(
                        #[trigger] signals[j],
                    ) && signals[j].proto == key.proto && signals[j].kind
                        == key.kind implies active_signal(rules, signals, key) is Some by {
                    if n < rest.len() {
                        assert(rest[n].admits(signals[j]));
                    }
                }
            },
        }
    }
}

proof fn lemma_last_admitted(rule: AlertRule, signals: Seq<AlertSignal>, key: AlertKey)
    ensures
        last_admitted(rule, signals, key) matches Some(s) ==> s.proto == key.proto && s.kind
            == key.kind && signals.contains(s) && rule.admits(s),
        forall|j: int|
            0 <= j < signals.len() && rule.admits(#[trigger] signals[j]) && signals[j].proto
                == key.proto && signals[j].kind == key.kind ==> last_admitted(
                rule,
                signals,
                key,
            ) is Some,
    decreases signals.len(),
{
    if signals.len() > 0 {
        let rest = signals.drop_last();
        lemma_last_admitted(rule, rest, key);
        if let Some(s) = last_admitted(rule, rest, key) {
            let j = choose|j: int| 0 <= j < rest.len() && rest[j] == s;
            assert(signals[j] == s);
        }
        assert forall|j: int|
            0 <= j < signals.len() && rule.admits(#[trigger] signals[j]) && signals[j].proto
                == key.proto && signals[j].kind == key.kind implies last_admitted(
            rule,
            signals,
            key,
        ) is Some by {
            if j < rest.len() {
                assert(rest[j] == signals[j]);
            }
        }
    }
}

/// Whether no two rules are for the same kind.
pub open spec fn one_rule_per_kind(rules: Seq<AlertRule>) -> bool {
    forall|a: int, b: int|
        0 <= a < b < rules.len() ==> (#[trigger] rules[a]).kind != (#[trigger] rules[b]).kind
}

/// Where no two rules are for the same kind, an alert is told of on a tick exactly if it
/// changes between firing and not firing on it.
pub proof fn law_events_are_transitions(
    rules: Seq<AlertRule>,
    states: Seq<Option<AlertState>>,
    active: Seq<Option<AlertSignal>>,
    now: Instant,
    key: AlertKey,
)
    requires
        states.len() == SLOTS,
        active.len() == SLOTS,
        one_rule_per_kind(rules),
    ensures
        ({
            let before = or_fresh(states[slot_of(key)]).firing();
            let after = or_fresh(states_after(rules, states, active, now)[slot_of(key)]).firing();
            has_event(events_after(rules, states, active, now), key) <==> before != after
        }),
    decreases rules.len(),
{
    law_slot_round_trip(key, 0);
    let i = slot_of(key);
    if rules.len() > 0 {
        let rest = rules.drop_last();
        let rule = rules.last();
        let mid = states_after(rest, states, active, now);
        assert(one_rule_per_kind(rest));
        lemma_states_after_len(rest, states, active, now);
        law_events_are_transitions(rest, states, active, now, key);
        lemma_rule_events(rule, mid, active, now, SLOTS as nat, key);
        let told = events_after(rest, states, active, now);
        let news = rule_events(rule, mid, active, now, SLOTS as nat);
        lemma_has_event_concat(told, news, key);
        if rule.kind == key.kind {
            assert forall|n: int| 0 <= n < rest.len() implies (#[trigger] rest[n]).kind
                != key.kind by {
                assert(rules[n].kind != rules[rules.len() - 1].kind);
            }
            lemma_other_kinds_leave_alone(rest, states, active, now, i);
        }
    }
}

proof fn lemma_has_event_concat(a: Seq<AlertEvent>, b: Seq<AlertEvent>, key: AlertKey)
    ensures
        has_event(a + b, key) <==> has_event(a, key) || has_event(b, key),
{
    let c = a + b;
    if has_event(a, key) {
        let j = choose|j: int|
            0 <= j < a.len() && #[trigger] a[j].alert.proto == key.proto && a[j].alert.kind
                == key.kind;
        assert(c[j].alert.proto == key.proto);
    }
    if has_event(b, key) {
        let j = choose|j: int|
            0 <= j < b.len() && #[trigger] b[j].alert.proto == key.proto && b[j].alert.kind
                == key.kind;
        assert(c[j + a.len()].alert.proto == key.proto);
    }
    if has_event(c, key) {
        let j = choose|j: int|
            0 <= j < c.len() && #[trigger] c[j].alert.proto == key.proto && c[j].alert.kind
                == key.kind;
        if j < a.len() {
            assert(a[j].alert.proto == key.proto);
        } else {
            assert(b[j - a.len()].alert.proto == key.proto);
        }
    }
}

proof fn lemma_states_after_len(
    rules: Seq<AlertRule>,
    states: Seq<Option<AlertState>>,
    active: Seq<Option<AlertSignal>>,
    now: Instant,
)
    requires
        states.len() == SLOTS,
    ensures
        states_after(rules, states, active, now).len() == SLOTS,
{
}

proof fn lemma_rule_events(
    rule: AlertRule,
    states: Seq<Option<AlertState>>,
    active: Seq<Option<AlertSignal>>,
    now: Instant,
    n: nat,
    key: AlertKey,
)
    requires
        n <= SLOTS,
    ensures
        has_event(rule_events(rule, states, active, now, n), key) <==> slot_of(key) < n
            && rule_event_at(rule, states, active, now, slot_of(key)) is Some,
    decreases n,
{
    law_slot_round_trip(key, 0);
    if n > 0 {
        let m = (n - 1) as nat;
        law_slot_round_trip(key, m as int);
        lemma_rule_events(rule, states, active, now, m, key);
        let before = rule_events(rule, states, active, now, m);
        if let Some(e) = rule_event_at(rule, states, active, now, m as int) {
            lemma_has_event_concat(before, seq![e], key);
            assert(before.push(e) =~= before + seq![e]);
            assert(seq![e][0] == e);
            if slot_of(key) == m {
                assert(seq![e][0].alert.proto == key.proto);
            } else {
                assert(!has_event(seq![e], key));
            }
        }
    }
}

proof fn lemma_other_kinds_leave_alone(
    rules: Seq<AlertRule>,
    states: Seq<Option<AlertState>>,
    active: Seq<Option<AlertSignal>>,
    now: Instant,
    i: int,
)
    requires
        states.len() == SLOTS,
        0 <= i < SLOTS,
        forall|n: int| 0 <= n < rules.len() ==> (#[trigger] rules[n]).kind != key_at(i).kind,
    ensures
        states_after(rules, states, active, now)[i] == states[i],
    decreases rules.len(),
{
    if rules.len() > 0 {
        let rest = rules.drop_last();
        assert forall|n: int| 0 <= n < rest.len() implies (#[trigger] rest[n]).kind
            != key_at(i).kind by {
            assert(rules[n].kind != key_at(i).kind);
        }
        lemma_other_kinds_leave_alone(rest, states, active, now, i);
        assert(rules[rules.len() - 1].kind != key_at(i).kind);
    }
}

/// An alert that is re-affirmed is about a (protocol, kind) pair that fires, has a signal,
/// and is not among the tick's transitions: nothing is sent twice.
pub proof fn law_heartbeats_are_firing_and_unchanged(
    states: Seq<Option<AlertState>>,
    active: Seq<Option<AlertSignal>>,
    transitions: Seq<AlertEvent>,
    n: nat,
    j: int,
)
    requires
        n <= SLOTS,
        0 <= j < heartbeats_upto(states, active, transitions, n).len(),
    ensures
        ({
            let a = heartbeats_upto(states, active, transitions, n)[j];
            let key = AlertKey { proto: a.proto, kind: a.kind };
            let i = slot_of(key);
            &&& states[i] is Some && states[i]->0.firing()
            &&& active[i] matches Some(s) && a.level == s.level && a.confidence == s.confidence
            &&& !has_event(transitions, key)
        }),
    decreases n,
{
    let m = (n - 1) as nat;
    law_slot_round_trip(key_at(m as int), m as int);
    if j < heartbeats_upto(states, active, transitions, m).len() {
        law_heartbeats_are_firing_and_unchanged(states, active, transitions, m, j);
    }
}

/// The list of frozen protocols holds exactly the frozen ones among those asked for.
pub proof fn lemma_frozen_list(
    rules: Seq<AlertRule>,
    states: Seq<Option<AlertState>>,
    now: Instant,
    n: nat,
    proto: ProtoIndex,
)
    requires
        n <= 5,
    ensures
        frozen_list(rules, states, now, n).contains(proto) <==> proto.index_spec() < n && frozen(
            rules,
            states,
            now,
            proto,
        ),
    decreases n,
{
    if n > 0 {
        let m = (n - 1) as nat;
        law_index_round_trip(proto, m as int);
        lemma_frozen_list(rules, states, now, m, proto);
        let before = frozen_list(rules, states, now, m);
        if frozen(rules, states, now, proto_at(m as int)) {
            let after = before.push(proto_at(m as int));
            assert(after.last() == proto_at(m as int));
            if before.contains(proto) {
                let k = choose|k: int| 0 <= k < before.len() && before[k] == proto;
                assert(after[k] == proto);
            }
            if after.contains(proto) && proto != proto_at(m as int) {
                let k = choose|k: int| 0 <= k < after.len() && after[k] == proto;
                assert(before[k] == proto);
            }
        }
    }
}

/// A protocol's baseline is frozen exactly while one of its alerts, governed by a rule that
/// freezes baselines, is pending, firing or within its cooldown.
pub proof fn law_frozen_while_hot(
    rules: Seq<AlertRule>,
    states: Seq<Option<AlertState>>,
    now: Instant,
    proto: ProtoIndex,
)
    ensures
        frozen_list(rules, states, now, 5).contains(proto) <==> exists|kind: AlertKind|
            {
                let slot = slot_of(AlertKey { proto, kind });
                &&& states[slot] is Some
                &&& #[trigger] first_rule(rules, kind) matches Some(rule) && rule.freezes_baseline
                    && states[slot]->0.hot(now, rule.cooldown)
            },
{
    lemma_frozen_list(rules, states, now, 5, proto);
    if frozen(rules, states, now, proto) {
        let i = choose|i: int|
            0 <= i < SLOTS && key_at(i).proto == proto && #[trigger] freezes_at(
                rules,
                states,
                now,
                i,
            );
        law_slot_round_trip(key_at(i), i);
        assert(first_rule(rules, key_at(i).kind) is Some);
    }
    assert forall|kind: AlertKind|
        ({
            let slot = slot_of(AlertKey { proto, kind });
            &&& states[slot] is Some
            &&& #[trigger] first_rule(rules, kind) matches Some(rule) && rule.freezes_baseline
                && states[slot]->0.hot(now, rule.cooldown)
        }) implies frozen(rules, states, now, proto) by {
        let key = AlertKey { proto, kind };
        law_slot_round_trip(key, 0);
        assert(freezes_at(rules, states, now, slot_of(key)));
    }
}

/// A rule counts a signal exactly if it is of the rule's kind, at least as severe as the rule
/// asks (severe over suspicious over normal), and not less sure than the rule asks.
pub proof fn law_rule_asks_for_kind_level_and_confidence(rule: AlertRule, signal: AlertSignal)
    ensures
        rule.admits(signal) <==> {
            &&& signal.kind == rule.kind
            &&& match rule.min_level {
                AnomalyLevel::Normal => true,
                AnomalyLevel::Suspicious => signal.level != AnomalyLevel::Normal,
                AnomalyLevel::Severe => signal.level == AnomalyLevel::Severe,
            }
            &&& !signal.confidence.lt_spec(rule.min_confidence)
        },
{
}

/// Where rule `n` counts signal `j` about `key`, no later rule counts any signal about `key`,
/// and rule `n` counts none after `j`, signal `j` is the one that counts.
pub proof fn law_last_counting_signal_counts(
    rules: Seq<AlertRule>,
    signals: Seq<AlertSignal>,
    key: AlertKey,
    n: int,
    j: int,
)
    requires
        0 <= n < rules.len(),
        0 <= j < signals.len(),
        signals[j].proto == key.proto && signals[j].kind == key.kind,
        rules[n].admits(signals[j]),
        forall|m: int, k: int|
            n < m < rules.len() && 0 <= k < signals.len() && signals[k].proto == key.proto
                && signals[k].kind == key.kind ==> !(#[trigger] rules[m].admits(
                #[trigger] signals[k],
            )),
        forall|k: int|
            j < k < signals.len() && signals[k].proto == key.proto && signals[k].kind
                == key.kind ==> !rules[n].admits(#[trigger] signals[k]),
    ensures
        active_signal(rules, signals, key) == Some(signals[j]),
    decreases rules.len(),
{
    let last = rules.len() - 1;
    if n < last {
        lemma_none_admitted(rules[last], signals, key);
        let rest = rules.drop_last();
        assert(rest[n] == rules[n]);
        assert forall|m: int, k: int|
            n < m < rest.len() && 0 <= k < signals.len() && signals[k].proto == key.proto
                && signals[k].kind == key.kind implies !(#[trigger] rest[m].admits(
            #[trigger] signals[k],
        )) by {
            assert(!rules[m].admits(signals[k]));
        }
        law_last_counting_signal_counts(rest, signals, key, n, j);
    } else {
        lemma_last_one_admitted(rules[n], signals, key, j);
    }
}

proof fn lemma_none_admitted(rule: AlertRule, signals: Seq<AlertSignal>, key: AlertKey)
    requires
        forall|k: int|
            0 <= k < signals.len() && signals[k].proto == key.proto && signals[k].kind
                == key.kind ==> !rule.admits(#[trigger] signals[k]),
    ensures
        last_admitted(rule, signals, key) is None,
    decreases signals.len(),
{
    if signals.len() > 0 {
        let rest = signals.drop_last();
        assert forall|k: int|
            0 <= k < rest.len() && rest[k].proto == key.proto && rest[k].kind
                == key.kind implies !rule.admits(#[trigger] rest[k]) by {
            assert(!rule.admits(signals[k]));
        }
        lemma_none_admitted(rule, rest, key);
        assert(signals.last() == signals[signals.len() - 1]);
    }
}

proof fn lemma_last_one_admitted(
    rule: AlertRule,
    signals: Seq<AlertSignal>,
    key: AlertKey,
    j: int,
)
    requires
        0 <= j < signals.len(),
        signals[j].proto == key.proto && signals[j].kind == key.kind,
        rule.admits(signals[j]),
        forall|k: int|
            j < k < signals.len() && signals[k].proto == key.proto && signals[k].kind
                == key.kind ==> !rule.admits(#[trigger] signals[k]),
    ensures
        last_admitted(rule, signals, key) == Some(signals[j]),
    decreases signals.len(),
{
    let last = signals.len() - 1;
    if j < last {
        let rest = signals.drop_last();
        assert(!(signals[last].proto == key.proto && signals[last].kind == key.kind
            && rule.admits(signals[last])));
        assert forall|k: int|
            j < k < rest.len() && rest[k].proto == key.proto && rest[k].kind
                == key.kind implies !rule.admits(#[trigger] rest[k]) by {
            assert(!rule.admits(signals[k]));
        }
        lemma_last_one_admitted(rule, rest, key, j);
    }
}

/// Where rule `n` is the only one for the kind of `key`, it alone moves the alert about `key`:
/// by its own cooldown and thresholds, with a signal exactly if one counts. An alert that is
/// not tracked and has no signal stays untracked; one without a rule stays as it is.
pub proof fn law_alert_moves_by_its_rule(
    rules: Seq<AlertRule>,
    states: Seq<Option<AlertState>>,
    active: Seq<Option<AlertSignal>>,
    now: Instant,
    key: AlertKey,
    n: int,
)
    requires
        states.len() == SLOTS,
        active.len() == SLOTS,
        one_rule_per_kind(rules),
        0 <= n < rules.len(),
        rules[n].kind == key.kind,
    ensures
        ({
            let i = slot_of(key);
            let after = states_after(rules, states, active, now)[i];
            let timing = AlertTiming {
                cooldown: rules[n].cooldown,
                consecutive_threshold: rules[n].consecutive_threshold,
                resolve_consecutive_threshold: rules[n].resolve_consecutive_threshold,
            };
            &&& states[i] matches Some(s) ==> after == Some(
                s.next(active[i] is Some, now, timing),
            )
            &&& states[i] is None && active[i] is Some ==> after == Some(
                AlertState::fresh().next(true, now, timing),
            )
            &&& states[i] is None && active[i] is None ==> after is None
        }),
    decreases rules.len(),
{
    law_slot_round_trip(key, 0);
    let i = slot_of(key);
    let rest = rules.drop_last();
    let last = rules.len() - 1;
    lemma_states_after_len(rest, states, active, now);
    if n < last {
        assert(one_rule_per_kind(rest));
        assert(rules[n].kind != rules[last].kind);
        law_alert_moves_by_its_rule(rest, states, active, now, key, n);
    } else {
        assert forall|m: int| 0 <= m < rest.len() implies (#[trigger] rest[m]).kind
            != key_at(i).kind by {
            assert(rules[m].kind != rules[last].kind);
        }
        lemma_other_kinds_leave_alone(rest, states, active, now, i);
    }
}

/// An alert for whose kind there is no rule stays as it is.
pub proof fn law_no_rule_no_change(
    rules: Seq<AlertRule>,
    states: Seq<Option<AlertState>>,
    active: Seq<Option<AlertSignal>>,
    now: Instant,
    key: AlertKey,
)
    requires
        states.len() == SLOTS,
        forall|n: int| 0 <= n < rules.len() ==> (#[trigger] rules[n]).kind != key.kind,
    ensures
        states_after(rules, states, active, now)[slot_of(key)] == states[slot_of(key)],
{
    law_slot_round_trip(key, 0);
    lemma_other_kinds_leave_alone(rules, states, active, now, slot_of(key));
}

/// What an event says: an alert that fires carries the level and the confidence of the signal
/// that counts, one that resolves the least level of its rule and no confidence.
pub proof fn law_events_carry_their_signal(
    rules: Seq<AlertRule>,
    states: Seq<Option<AlertState>>,
    active: Seq<Option<AlertSignal>>,
    now: Instant,
    j: int,
)
    requires
        0 <= j < events_after(rules, states, active, now).len(),
    ensures
        ({
            let e = events_after(rules, states, active, now)[j];
            let i = slot_of(AlertKey { proto: e.alert.proto, kind: e.alert.kind });
            match e.lifecycle {
                AlertLifecycle::Fired => active[i] matches Some(s) && e.alert.level == s.level
                    && e.alert.confidence == s.confidence,
                AlertLifecycle::Resolved => active[i] is None && e.alert.confidence
                    == Binary64::zero() && exists|n: int|
                    0 <= n < rules.len() && (#[trigger] rules[n]).kind == e.alert.kind
                        && rules[n].min_level == e.alert.level,
            }
        }),
    decreases rules.len(),
{
    let rest = rules.drop_last();
    let mid = states_after(rest, states, active, now);
    let told = events_after(rest, states, active, now);
    if j < told.len() {
        law_events_carry_their_signal(rest, states, active, now, j);
        let e = told[j];
        if e.lifecycle == AlertLifecycle::Resolved {
            let n = choose|n: int|
                0 <= n < rest.len() && (#[trigger] rest[n]).kind == e.alert.kind
                    && rest[n].min_level == e.alert.level;
            assert(rules[n].kind == e.alert.kind);
        }
    } else {
        lemma_event_of_rule(rules.last(), mid, active, now, SLOTS as nat, j - told.len());
        assert(rules[rules.len() - 1] == rules.last());
    }
}

proof fn lemma_event_of_rule(
    rule: AlertRule,
    states: Seq<Option<AlertState>>,
    active: Seq<Option<AlertSignal>>,
    now: Instant,
    n: nat,
    j: int,
)
    requires
        n <= SLOTS,
        0 <= j < rule_events(rule, states, active, now, n).len(),
    ensures
        ({
            let e = rule_events(rule, states, active, now, n)[j];
            let i = slot_of(AlertKey { proto: e.alert.proto, kind: e.alert.kind });
            &&& rule.kind == e.alert.kind
            &&& match e.lifecycle {
                AlertLifecycle::Fired => active[i] matches Some(s) && e.alert.level == s.level
                    && e.alert.confidence == s.confidence,
                AlertLifecycle::Resolved => active[i] is None && e.alert.confidence
                    == Binary64::zero() && rule.min_level == e.alert.level,
            }
        }),
    decreases n,
{
    let m = (n - 1) as nat;
    law_slot_round_trip(key_at(m as int), m as int);
    if j < rule_events(rule, states, active, now, m).len() {
        lemma_event_of_rule(rule, states, active, now, m, j);
    }
}

/// Every alert that fires, has a signal and did not change is re-affirmed: none is missed.
pub proof fn law_no_heartbeat_is_missed(
    states: Seq<Option<AlertState>>,
    active: Seq<Option<AlertSignal>>,
    transitions: Seq<AlertEvent>,
    n: nat,
    key: AlertKey,
) -> (j: int)
    requires
        slot_of(key) < n <= SLOTS,
        states[slot_of(key)] matches Some(s) && s.phase == AlertPhase::Firing,
        active[slot_of(key)] is Some,
        !has_event(transitions, key),
    ensures
        ({
            let told = heartbeats_upto(states, active, transitions, n);
            &&& 0 <= j < told.len()
            &&& told[j].proto == key.proto
            &&& told[j].kind == key.kind
            &&& active[slot_of(key)] matches Some(s) && told[j].level == s.level
                && told[j].confidence == s.confidence
        }),
    decreases n,
{
    law_slot_round_trip(key, 0);
    let m = (n - 1) as nat;
    let before = heartbeats_upto(states, active, transitions, m);
    if slot_of(key) < m {
        law_no_heartbeat_is_missed(states, active, transitions, m, key)
    } else {
        before.len() as int
    }
}

/// The rule that decides whether an alert freezes its baseline is the first one for its kind.
pub proof fn law_first_rule_governs(rules: Seq<AlertRule>, kind: AlertKind, i: int)
    requires
        0 <= i <= rules.len(),
        forall|k: int| 0 <= k < i ==> (#[trigger] rules[k]).kind != kind,
        i < rules.len() ==> rules[i].kind == kind,
    ensures
        i < rules.len() ==> first_rule(rules, kind) == Some(rules[i]),
        i == rules.len() ==> first_rule(rules, kind) is None,
    decreases i,
{
    if i > 0 {
        let rest = rules.drop_first();
        assert(rules[0].kind != kind);
        assert forall|k: int| 0 <= k < i - 1 implies (#[trigger] rest[k]).kind != kind by {
            assert(rules[k + 1].kind != kind);
        }
        law_first_rule_governs(rest, kind, i - 1);
    }
}

/// The tracked positions are those that have a state, all of them, in order.
pub proof fn law_tracked_positions_have_a_state(states: Seq<Option<AlertState>>, n: nat)
    ensures
        picks(tracked_slots(states, n), n, |i: int| states[i] is Some),
    decreases n,
{
    let keep = |i: int| states[i] is Some;
    if n == 0 {
        lemma_picks_none(keep);
    } else {
        let m = (n - 1) as nat;
        law_tracked_positions_have_a_state(states, m);
        lemma_picks_step(tracked_slots(states, m), m, keep);
    }
}

/// The frozen protocols are listed in the order of their buckets, each once.
pub proof fn law_frozen_protocols_are_in_order(
    rules: Seq<AlertRule>,
    states: Seq<Option<AlertState>>,
    now: Instant,
    n: nat,
    i: int,
    j: int,
)
    requires
        n <= 5,
        0 <= i <= j < frozen_list(rules, states, now, n).len(),
    ensures
        ({
            let list = frozen_list(rules, states, now, n);
            &&& i < j ==> list[i].index_spec() < list[j].index_spec()
            &&& list[j].index_spec() < n
        }),
    decreases n,
{
    if n > 0 {
        let m = (n - 1) as nat;
        let before = frozen_list(rules, states, now, m);
        law_index_round_trip(proto_at(m as int), m as int);
        if j < before.len() {
            law_frozen_protocols_are_in_order(rules, states, now, m, i, j);
        } else if i < j {
            law_frozen_protocols_are_in_order(rules, states, now, m, i, i);
        }
    }
}

} // verus!
