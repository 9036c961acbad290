//! The alert state machine: `Inactive -> Pending -> Firing -> Inactive`.
use vstd::prelude::*;

use crate::time::{Duration, Instant};

verus! {

/// Where an alert stands.
#[derive(Debug, Clone, Copy, PartialEq, Eq, Structural)]
pub enum AlertPhase {
    /// No signal, or the last alert has resolved.
    Inactive,
    /// Signals are coming in, not yet enough of them to fire.
    Pending,
    /// The alert is active.
    Firing,
}

/// A change of phase that callers are told of.
#[derive(Debug, Clone, Copy, PartialEq, Eq, Structural)]
pub enum AlertLifecycle {
    Fired,
    Resolved,
}

impl AlertLifecycle {
    /// Lowercase name, for metric labels.
    pub open spec fn label_spec(self) -> Seq<char> {
        match self {
            AlertLifecycle::Fired => "fired"@,
            AlertLifecycle::Resolved => "resolved"@,
        }
    }

    /// Lowercase name, for metric labels.
    pub fn label(self) -> (r: &'static str)
        ensures
            r@ == self.label_spec(),
    {
        match self {
            AlertLifecycle::Fired => "fired",
            AlertLifecycle::Resolved => "resolved",
        }
    }
}

/// When an alert fires and when it resolves.
#[derive(Debug, Clone, Copy, PartialEq, Eq, Structural)]
pub struct AlertTiming {
    /// Time after firing in which the alert does not fire again.
    pub cooldown: Duration,
    /// Number of consecutive ticks with a signal that it takes to fire.
    pub consecutive_threshold: u32,
    /// Number of consecutive ticks without a signal that it takes to resolve.
    pub resolve_consecutive_threshold: u32,
}

/// State machine of one alert.
#[derive(Debug, Clone, Copy, PartialEq, Eq, Structural)]
pub struct AlertState {
    pub phase: AlertPhase,
    /// Consecutive ticks with a signal, counted until the alert fires.
    pub consecutive_count: u32,
    /// Consecutive ticks without a signal, counted while the alert fires.
    pub resolve_consecutive_count: u32,
    pub last_fired: Option<Instant>,
}

/// One more than `n`; the count stays where it is once it cannot grow.
pub open spec fn one_more(n: u32) -> u32 {
    if n < u32::MAX {
        (n + 1) as u32
    } else {
        n
    }
}

impl AlertState {
    /// The state of an alert of which nothing has been seen.
    pub open spec fn fresh() -> AlertState {
        AlertState {
            phase: AlertPhase::Inactive,
            consecutive_count: 0,
            resolve_consecutive_count: 0,
            last_fired: None,
        }
    }

    /// What holds of every state that the machine can reach: quiet ticks are counted
    /// only while firing, signals only while pending or firing, and an alert that
    /// fires has fired.
    pub open spec fn wf(self) -> bool {
        &&& self.phase != AlertPhase::Firing ==> self.resolve_consecutive_count == 0
        &&& self.phase == AlertPhase::Inactive ==> self.consecutive_count == 0
        &&& self.phase != AlertPhase::Inactive ==> self.consecutive_count >= 1
        &&& self.phase == AlertPhase::Firing ==> self.last_fired is Some
    }

    /// Whether the alert is active.
    pub open spec fn firing(self) -> bool {
        self.phase == AlertPhase::Firing
    }

    /// Whether `cooldown` has passed since the alert last fired.
    pub open spec fn cooldown_over(self, now: Instant, cooldown: Duration) -> bool {
        match self.last_fired {
            None => true,
            Some(t) => now.since(t).nanos >= cooldown.nanos,
        }
    }

    /// Consecutive ticks with a signal, this one counted.
    pub open spec fn hits(self) -> u32 {
        if self.phase == AlertPhase::Inactive {
            1
        } else {
            one_more(self.consecutive_count)
        }
    }

    /// Whether a signal now makes the alert fire.
    pub open spec fn fires(self, signal_active: bool, now: Instant, timing: AlertTiming) -> bool {
        &&& signal_active
        &&& !self.firing()
        &&& self.hits() >= timing.consecutive_threshold
        &&& self.cooldown_over(now, timing.cooldown)
    }

    /// Whether a tick without a signal now makes the alert resolve.
    pub open spec fn resolves(self, signal_active: bool, timing: AlertTiming) -> bool {
        &&& !signal_active
        &&& self.firing()
        &&& one_more(self.resolve_consecutive_count) >= timing.resolve_consecutive_threshold
    }

    /// The state after one tick.
    pub open spec fn next(self, signal_active: bool, now: Instant, timing: AlertTiming) -> AlertState {
        if self.fires(signal_active, now, timing) {
            AlertState {
                phase: AlertPhase::Firing,
                consecutive_count: self.hits(),
                last_fired: Some(now),
                ..self
            }
        } else if signal_active && !self.firing() {
            AlertState { phase: AlertPhase::Pending, consecutive_count: self.hits(), ..self }
        } else if signal_active {
            AlertState { resolve_consecutive_count: 0, ..self }
        } else if self.phase == AlertPhase::Inactive {
            self
        } else if self.phase == AlertPhase::Pending || self.resolves(signal_active, timing) {
            AlertState { last_fired: self.last_fired, ..AlertState::fresh() }
        } else {
            AlertState {
                resolve_consecutive_count: one_more(self.resolve_consecutive_count),
                ..self
            }
        }
    }

    /// What one tick tells the caller.
    pub open spec fn event(
        self,
        signal_active: bool,
        now: Instant,
        timing: AlertTiming,
    ) -> Option<AlertLifecycle> {
        if self.fires(signal_active, now, timing) {
            Some(AlertLifecycle::Fired)
        } else if self.resolves(signal_active, timing) {
            Some(AlertLifecycle::Resolved)
        } else {
            None
        }
    }

    /// Whether the alert is pending, firing, or within `cooldown` of its last firing.
    pub open spec fn hot(self, now: Instant, cooldown: Duration) -> bool {
        self.phase != AlertPhase::Inactive || !self.cooldown_over(now, cooldown)
    }

    /// A state machine that has seen nothing.
    pub fn new() -> (r: AlertState)
        ensures
            r == AlertState::fresh(),
            r.wf(),
    {
        AlertState {
            phase: AlertPhase::Inactive,
            consecutive_count: 0,
            resolve_consecutive_count: 0,
            last_fired: None,
        }
    }

    /// Advances the machine by one tick.
    ///
    /// `Some(Fired)` comes on the tick on which the alert fires, `Some(Resolved)` on the
    /// tick on which it resolves, `None` on all others.
    pub fn advance(
        &mut self,
        signal_active: bool,
        now: Instant,
        cooldown: Duration,
        consecutive_threshold: u32,
        resolve_consecutive_threshold: u32,
    ) -> (r: Option<AlertLifecycle>)
        ensures
            ({
                let timing = AlertTiming {
                    cooldown,
                    consecutive_threshold,
                    resolve_consecutive_threshold,
                };
                &&& *final(self) == old(self).next(signal_active, now, timing)
                &&& r == old(self).event(signal_active, now, timing)
            }),
            old(self).wf() ==> final(self).wf(),
    {
        match self.phase {
            AlertPhase::Inactive => {
                if signal_active {
                    self.consecutive_count = 1;
                    if self.try_fire(now, cooldown, consecutive_threshold) {
                        return Some(AlertLifecycle::Fired);
                    }
                    self.phase = AlertPhase::Pending;
                }
                None
            },
            AlertPhase::Pending => {
                if !signal_active {
                    self.reset();
                    None
                } else {
                    self.consecutive_count = self.consecutive_count.saturating_add(1);
                    if self.try_fire(now, cooldown, consecutive_threshold) {
                        Some(AlertLifecycle::Fired)
                    } else {
                        None
                    }
                }
            },
            AlertPhase::Firing => {
                if signal_active {
                    self.resolve_consecutive_count = 0;
                    None
                } else {
                    self.resolve_consecutive_count = self.resolve_consecutive_count.saturating_add(1);
                    if self.resolve_consecutive_count >= resolve_consecutive_threshold {
                        self.reset();
                        Some(AlertLifecycle::Resolved)
                    } else {
                        None
                    }
                }
            },
        }
    }

    /// Number of the phase: 0 inactive, 1 pending, 2 firing.
    pub open spec fn phase_value_spec(self) -> u8 {
        match self.phase {
            AlertPhase::Inactive => 0,
            AlertPhase::Pending => 1,
            AlertPhase::Firing => 2,
        }
    }

    /// Number of the phase, for metrics: 0 inactive, 1 pending, 2 firing.
    pub fn phase_value(&self) -> (r: u8)
        ensures
            r == self.phase_value_spec(),
    {
        match self.phase {
            AlertPhase::Inactive => 0,
            AlertPhase::Pending => 1,
            AlertPhase::Firing => 2,
        }
    }

    /// Lowercase name of the phase.
    pub open spec fn phase_label_spec(self) -> Seq<char> {
        match self.phase {
            AlertPhase::Inactive => "inactive"@,
            AlertPhase::Pending => "pending"@,
            AlertPhase::Firing => "firing"@,
        }
    }

    /// Lowercase name of the phase.
    pub fn phase_label(&self) -> (r: &'static str)
        ensures
            r@ == self.phase_label_spec(),
    {
        match self.phase {
            AlertPhase::Inactive => "inactive",
            AlertPhase::Pending => "pending",
            AlertPhase::Firing => "firing",
        }
    }

    /// Whether the alert is active.
    pub fn is_firing(&self) -> (r: bool)
        ensures
            r == self.firing(),
    {
        self.phase == AlertPhase::Firing
    }

    /// Whether the alert is pending, firing, or within `cooldown` of its last firing.
    pub fn is_hot(&self, now: Instant, cooldown: Duration) -> (r: bool)
        ensures
            r == self.hot(now, cooldown),
    {
        match self.phase {
            AlertPhase::Pending => true,
            AlertPhase::Firing => true,
            AlertPhase::Inactive => match self.last_fired {
                None => false,
                Some(t) => now.duration_since(t).nanos < cooldown.nanos,
            },
        }
    }

    /// Fires if the count has reached the threshold and the cooldown is over.
    pub fn try_fire(
        &mut self,
        now: Instant,
        cooldown: Duration,
        consecutive_threshold: u32,
    ) -> (r: bool)
        ensures
            r == (old(self).consecutive_count >= consecutive_threshold && old(
                self,
            ).cooldown_over(now, cooldown)),
            *final(self) == (if r {
                AlertState { phase: AlertPhase::Firing, last_fired: Some(now), ..*old(self) }
            } else {
                *old(self)
            }),
    {
        if self.consecutive_count >= consecutive_threshold && self.cooldown_passed(now, cooldown) {
            self.phase = AlertPhase::Firing;
            self.last_fired = Some(now);
            true
        } else {
            false
        }
    }

    /// Back to inactive. When the alert last fired is kept.
    pub fn reset(&mut self)
        ensures
            *final(self) == (AlertState {
                last_fired: old(self).last_fired,
                ..AlertState::fresh()
            }),
    {
        self.phase = AlertPhase::Inactive;
        self.consecutive_count = 0;
        self.resolve_consecutive_count = 0;
    }

    /// Whether `cooldown` has passed since the alert last fired.
    pub fn cooldown_passed(&self, now: Instant, cooldown: Duration) -> (r: bool)
        ensures
            r == self.cooldown_over(now, cooldown),
    {
        match self.last_fired {
            None => true,
            Some(t) => now.duration_since(t).nanos >= cooldown.nanos,
        }
    }
}

/// The state after `k` ticks that all bring the same signal, tick `i` at `times(i)`.
pub open spec fn after_ticks(
    s: AlertState,
    k: nat,
    signal_active: bool,
    times: spec_fn(nat) -> Instant,
    timing: AlertTiming,
) -> AlertState
    decreases k,
{
    if k == 0 {
        s
    } else {
        let i = (k - 1) as nat;
        after_ticks(s, i, signal_active, times, timing).next(signal_active, times(i), timing)
    }
}

/// What tick `k` tells the caller, where all ticks up to it bring the same signal.
pub open spec fn event_of_tick(
    s: AlertState,
    k: nat,
    signal_active: bool,
    times: spec_fn(nat) -> Instant,
    timing: AlertTiming,
) -> Option<AlertLifecycle> {
    after_ticks(s, k, signal_active, times, timing).event(signal_active, times(k), timing)
}

/// The machine keeps its invariant.
pub proof fn law_next_keeps_wf(s: AlertState, signal_active: bool, now: Instant, timing: AlertTiming)
    requires
        s.wf(),
    ensures
        s.next(signal_active, now, timing).wf(),
{
}

/// Events are changes between firing and not firing, and nothing else: `Fired` comes
/// exactly when the alert becomes active, `Resolved` exactly when it ceases to be.
pub proof fn law_events_are_transitions(
    s: AlertState,
    signal_active: bool,
    now: Instant,
    timing: AlertTiming,
)
    ensures
        s.event(signal_active, now, timing) == Some(AlertLifecycle::Fired) <==> !s.firing()
            && s.next(signal_active, now, timing).firing(),
        s.event(signal_active, now, timing) == Some(AlertLifecycle::Resolved) <==> s.firing()
            && !s.next(signal_active, now, timing).firing(),
{
}

/// Within the cooldown of its last firing an alert does not fire, whatever the signals.
pub proof fn law_cooldown_blocks_refire(
    s: AlertState,
    signal_active: bool,
    now: Instant,
    timing: AlertTiming,
    fired_at: Instant,
)
    requires
        s.last_fired == Some(fired_at),
        now.since(fired_at).nanos < timing.cooldown.nanos,
    ensures
        s.event(signal_active, now, timing) != Some(AlertLifecycle::Fired),
{
}

/// An alert that has never fired fires on the tick on which the signal has been present
/// `consecutive_threshold` times in a row (on the first one where the threshold is zero),
/// and on none before.
pub proof fn law_fires_exactly_at_threshold(
    k: nat,
    times: spec_fn(nat) -> Instant,
    timing: AlertTiming,
)
    requires
        k + 1 <= timing.consecutive_threshold || k == 0,
    ensures
        event_of_tick(AlertState::fresh(), k, true, times, timing) == (if k + 1
            >= timing.consecutive_threshold {
            Some(AlertLifecycle::Fired)
        } else {
            None
        }),
{
    lemma_pending_counts(k, times, timing);
}

proof fn lemma_pending_counts(k: nat, times: spec_fn(nat) -> Instant, timing: AlertTiming)
    requires
        k < timing.consecutive_threshold || k == 0,
    ensures
        ({
            let s = after_ticks(AlertState::fresh(), k, true, times, timing);
            &&& s.last_fired is None
            &&& s.consecutive_count == k
            &&& k == 0 ==> s == AlertState::fresh()
            &&& k > 0 ==> s.phase == AlertPhase::Pending
        }),
    decreases k,
{
    if k > 0 {
        lemma_pending_counts((k - 1) as nat, times, timing);
    }
}

/// A firing alert resolves on the tick on which the signal has been absent
/// `resolve_consecutive_threshold` times in a row since it was last present (on the first
/// one where the threshold is zero), and on none before.
pub proof fn law_resolves_exactly_at_threshold(
    s: AlertState,
    k: nat,
    times: spec_fn(nat) -> Instant,
    timing: AlertTiming,
)
    requires
        s.firing(),
        s.resolve_consecutive_count == 0,
        k + 1 <= timing.resolve_consecutive_threshold || k == 0,
    ensures
        event_of_tick(s, k, false, times, timing) == (if k + 1
            >= timing.resolve_consecutive_threshold {
            Some(AlertLifecycle::Resolved)
        } else {
            None
        }),
{
    lemma_quiet_counts(s, k, times, timing);
}

proof fn lemma_quiet_counts(
    s: AlertState,
    k: nat,
    times: spec_fn(nat) -> Instant,
    timing: AlertTiming,
)
    requires
        s.firing(),
        s.resolve_consecutive_count == 0,
        k < timing.resolve_consecutive_threshold || k == 0,
    ensures
        after_ticks(s, k, false, times, timing) == (AlertState {
            resolve_consecutive_count: k as u32,
            ..s
        }),
    decreases k,
{
    if k > 0 {
        lemma_quiet_counts(s, (k - 1) as nat, times, timing);
    }
}

/// A signal that is lost before the threshold is reached starts the count over; a signal
/// that comes back while the alert fires keeps it firing and starts the quiet count over.
pub proof fn law_interruptions_start_over(
    s: AlertState,
    now: Instant,
    timing: AlertTiming,
)
    ensures
        s.phase == AlertPhase::Pending ==> {
            let n = s.next(false, now, timing);
            n.phase == AlertPhase::Inactive && n.consecutive_count == 0 && n.last_fired
                == s.last_fired
        },
        s.phase == AlertPhase::Firing ==> {
            let n = s.next(true, now, timing);
            n.firing() && n.resolve_consecutive_count == 0
        },
{
}

/// Whether `cooldown` nanoseconds lie between `fired` and `now`; no time does if `fired` is
/// later.
pub open spec fn has_waited(fired: Option<Instant>, now: Instant, cooldown: Duration) -> bool {
    fired matches Some(t) ==> {
        ||| now.nanos >= t.nanos && now.nanos - t.nanos >= cooldown.nanos
        ||| cooldown.nanos == 0
    }
}

/// What a tick with a signal does to an alert that does not fire: it counts one tick more in a
/// row, starting at 1, and fires exactly if the count has reached the threshold and the
/// cooldown since the last firing is over; otherwise it is pending, and when it last fired is
/// not forgotten.
pub proof fn law_signal_counts_and_fires(s: AlertState, now: Instant, timing: AlertTiming)
    requires
        s.phase != AlertPhase::Firing,
        s.consecutive_count < u32::MAX,
    ensures
        ({
            let n = s.next(true, now, timing);
            let count = if s.phase == AlertPhase::Inactive {
                1
            } else {
                s.consecutive_count + 1
            };
            let fires = count >= timing.consecutive_threshold && has_waited(
                s.last_fired,
                now,
                timing.cooldown,
            );
            &&& n.consecutive_count == count
            &&& n.resolve_consecutive_count == s.resolve_consecutive_count
            &&& fires ==> n.phase == AlertPhase::Firing && n.last_fired == Some(now) && s.event(
                true,
                now,
                timing,
            ) == Some(AlertLifecycle::Fired)
            &&& !fires ==> n.phase == AlertPhase::Pending && n.last_fired == s.last_fired
                && s.event(true, now, timing) is None
        }),
{
}

/// What a tick without a signal does: an inactive alert stays as it is; a pending one becomes
/// inactive without a word; a firing one counts one quiet tick more, and resolves exactly if
/// that reaches the threshold. When it last fired is never forgotten.
pub proof fn law_quiet_counts_and_resolves(s: AlertState, now: Instant, timing: AlertTiming)
    requires
        s.resolve_consecutive_count < u32::MAX,
    ensures
        ({
            let n = s.next(false, now, timing);
            let e = s.event(false, now, timing);
            let resolves = s.resolve_consecutive_count + 1 >= timing.resolve_consecutive_threshold;
            &&& n.last_fired == s.last_fired
            &&& s.phase == AlertPhase::Inactive ==> n == s && e is None
            &&& s.phase == AlertPhase::Pending ==> n.phase == AlertPhase::Inactive
                && n.consecutive_count == 0 && n.resolve_consecutive_count == 0 && e is None
            &&& s.phase == AlertPhase::Firing && resolves ==> n.phase == AlertPhase::Inactive
                && n.consecutive_count == 0 && n.resolve_consecutive_count == 0 && e == Some(
                AlertLifecycle::Resolved,
            )
            &&& s.phase == AlertPhase::Firing && !resolves ==> n.phase == AlertPhase::Firing
                && n.consecutive_count == s.consecutive_count && n.resolve_consecutive_count
                == s.resolve_consecutive_count + 1 && e is None
        }),
{
}

/// What a signal does to an alert that fires: it goes on firing, keeps its count and the time
/// at which it fired, and starts the quiet count over; nothing is told.
pub proof fn law_signal_keeps_firing(s: AlertState, now: Instant, timing: AlertTiming)
    requires
        s.phase == AlertPhase::Firing,
    ensures
        s.next(true, now, timing) == (AlertState { resolve_consecutive_count: 0, ..s }),
        s.event(true, now, timing) is None,
{
}

/// An alert is hot exactly if it is pending or firing, or last fired less than `cooldown` ago.
pub proof fn law_hot_is_active_or_cooling(s: AlertState, now: Instant, cooldown: Duration)
    ensures
        s.hot(now, cooldown) <==> {
            ||| s.phase == AlertPhase::Pending
            ||| s.phase == AlertPhase::Firing
            ||| !has_waited(s.last_fired, now, cooldown)
        },
{
}

/// Phases are numbered and named, each differently: inactive, pending, firing from 0 on.
pub proof fn law_phases_are_told_apart(s: AlertState)
    ensures
        s.phase_value_spec() == 0 <==> s.phase == AlertPhase::Inactive,
        s.phase_value_spec() == 1 <==> s.phase == AlertPhase::Pending,
        s.phase_value_spec() == 2 <==> s.phase == AlertPhase::Firing,
        s.phase_label_spec() == "inactive"@ <==> s.phase == AlertPhase::Inactive,
        s.phase_label_spec() == "pending"@ <==> s.phase == AlertPhase::Pending,
        s.phase_label_spec() == "firing"@ <==> s.phase == AlertPhase::Firing,
{
    reveal_strlit("inactive");
    reveal_strlit("pending");
    reveal_strlit("firing");
    assert("inactive"@.len() == 8);
    assert("pending"@.len() == 7);
    assert("firing"@.len() == 6);
}

} // verus!
