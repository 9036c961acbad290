//! One alert state machine per source address.
use std::marker::PhantomData;

use vstd::prelude::*;

use crate::alert::ip_laws::{law_tick_keeps_wf, slots_wf};
use crate::alert::model::IpAlertEvent;
use crate::alert::state::{AlertPhase, AlertState, AlertTiming};
use crate::alert::view::IpAlertSlotSnapshot;
use crate::time::{Duration, Instant};

verus! {

/// A signal or alert that belongs to one source address.
pub trait IpKeyed: Sized {
    /// The source address.
    spec fn ip(&self) -> u32;

    /// The source address.
    fn src_ip(&self) -> (r: u32)
        ensures
            r == self.ip(),
    ;
}

/// An alert that is made from a signal of the same source address, or from none where
/// the alert resolves without one.
pub trait FromIpSignal<S>: Sized {
    /// The alert for `src_ip`.
    spec fn of_signal(src_ip: u32, signal: Option<S>) -> Self;

    /// The alert for `src_ip`.
    fn from_signal(src_ip: u32, signal: Option<&S>) -> (r: Self)
        ensures
            r == Self::of_signal(
                src_ip,
                match signal {
                    Some(s) => Some(*s),
                    None => None,
                },
            ),
    ;
}

/// The state machine of one source address.
#[derive(Debug, Clone, Copy)]
pub struct IpSlot {
    pub ip: u32,
    pub state: AlertState,
}

/// The last of `signals` that belongs to `ip`.
pub open spec fn last_signal<S: IpKeyed>(signals: Seq<S>, ip: u32) -> Option<S>
    decreases signals.len(),
{
    if signals.len() == 0 {
        None
    } else if signals.last().ip() == ip {
        Some(signals.last())
    } else {
        last_signal(signals.drop_last(), ip)
    }
}

/// The state of `ip`; fresh where it is not tracked.
pub open spec fn state_of(slots: Seq<IpSlot>, ip: u32) -> AlertState
    decreases slots.len(),
{
    if slots.len() == 0 {
        AlertState::fresh()
    } else if slots.last().ip == ip {
        slots.last().state
    } else {
        state_of(slots.drop_last(), ip)
    }
}

/// Number of `slots` whose alert is pending or firing; one that only cools down is not
/// counted.
pub open spec fn alerting_slots(slots: Seq<IpSlot>) -> nat
    decreases slots.len(),
{
    if slots.len() == 0 {
        0
    } else if slots.last().state.phase == AlertPhase::Inactive {
        alerting_slots(slots.drop_last())
    } else {
        alerting_slots(slots.drop_last()) + 1
    }
}

/// The tracked addresses.
pub open spec fn slot_ips(slots: Seq<IpSlot>) -> Seq<u32> {
    Seq::new(slots.len(), |i: int| slots[i].ip)
}

/// `ips`, and behind them the addresses of `signals` that are not among them.
pub open spec fn with_signal_ips<S: IpKeyed>(ips: Seq<u32>, signals: Seq<S>) -> Seq<u32>
    decreases signals.len(),
{
    if signals.len() == 0 {
        ips
    } else {
        let before = with_signal_ips(ips, signals.drop_last());
        if before.contains(signals.last().ip()) {
            before
        } else {
            before.push(signals.last().ip())
        }
    }
}

/// The addresses that a tick goes through: the tracked ones and those with a signal.
pub open spec fn tick_ips<S: IpKeyed>(slots: Seq<IpSlot>, signals: Seq<S>) -> Seq<u32> {
    with_signal_ips(slot_ips(slots), signals)
}

/// The state of `ip` after a tick.
pub open spec fn state_after<S: IpKeyed>(
    slots: Seq<IpSlot>,
    signals: Seq<S>,
    now: Instant,
    timing: AlertTiming,
    ip: u32,
) -> AlertState {
    state_of(slots, ip).next(last_signal(signals, ip) is Some, now, timing)
}

/// Whether `ip` is tracked after a tick: it has a signal or its alert is hot.
pub open spec fn kept<S: IpKeyed>(
    slots: Seq<IpSlot>,
    signals: Seq<S>,
    now: Instant,
    timing: AlertTiming,
    ip: u32,
) -> bool {
    last_signal(signals, ip) is Some || state_after(slots, signals, now, timing, ip).hot(
        now,
        timing.cooldown,
    )
}

/// The event, if any, of `ip` on a tick.
pub open spec fn event_of<S: IpKeyed, A: FromIpSignal<S>>(
    slots: Seq<IpSlot>,
    signals: Seq<S>,
    now: Instant,
    timing: AlertTiming,
    ip: u32,
) -> Option<IpAlertEvent<A>> {
    let signal = last_signal(signals, ip);
    match state_of(slots, ip).event(signal is Some, now, timing) {
        Some(lifecycle) => Some(IpAlertEvent { alert: A::of_signal(ip, signal), lifecycle }),
        None => None,
    }
}

/// The alert, if any, of `ip` that a tick re-affirms: it fires, has a signal, and does not
/// change on this tick.
pub open spec fn heartbeat_of<S: IpKeyed, A: FromIpSignal<S>>(
    slots: Seq<IpSlot>,
    signals: Seq<S>,
    now: Instant,
    timing: AlertTiming,
    ip: u32,
) -> Option<A> {
    let signal = last_signal(signals, ip);
    if signal is Some && state_of(slots, ip).event(true, now, timing) is None && state_after(
        slots,
        signals,
        now,
        timing,
        ip,
    ).firing() {
        Some(A::of_signal(ip, signal))
    } else {
        None
    }
}

/// What is tracked after a tick of the addresses `ips`.
pub open spec fn slots_after<S: IpKeyed>(
    slots: Seq<IpSlot>,
    signals: Seq<S>,
    now: Instant,
    timing: AlertTiming,
    ips: Seq<u32>,
) -> Seq<IpSlot>
    decreases ips.len(),
{
    if ips.len() == 0 {
        Seq::empty()
    } else {
        let before = slots_after(slots, signals, now, timing, ips.drop_last());
        let ip = ips.last();
        if kept(slots, signals, now, timing, ip) {
            before.push(IpSlot { ip, state: state_after(slots, signals, now, timing, ip) })
        } else {
            before
        }
    }
}

/// The events of the addresses `ips` on a tick.
pub open spec fn events_after<S: IpKeyed, A: FromIpSignal<S>>(
    slots: Seq<IpSlot>,
    signals: Seq<S>,
    now: Instant,
    timing: AlertTiming,
    ips: Seq<u32>,
) -> Seq<IpAlertEvent<A>>
    decreases ips.len(),
{
    if ips.len() == 0 {
        Seq::empty()
    } else {
        let before = events_after::<S, A>(slots, signals, now, timing, ips.drop_last());
        match event_of::<S, A>(slots, signals, now, timing, ips.last()) {
            Some(e) => before.push(e),
            None => before,
        }
    }
}

/// The re-affirmed alerts of the addresses `ips` on a tick.
pub open spec fn heartbeats_after<S: IpKeyed, A: FromIpSignal<S>>(
    slots: Seq<IpSlot>,
    signals: Seq<S>,
    now: Instant,
    timing: AlertTiming,
    ips: Seq<u32>,
) -> Seq<A>
    decreases ips.len(),
{
    if ips.len() == 0 {
        Seq::empty()
    } else {
        let before = heartbeats_after::<S, A>(slots, signals, now, timing, ips.drop_last());
        match heartbeat_of::<S, A>(slots, signals, now, timing, ips.last()) {
            Some(a) => before.push(a),
            None => before,
        }
    }
}

/// The alerts of `slots` that fire, have a signal and are not among `just_transitioned`.
pub open spec fn firing_alerts<S: IpKeyed, A: FromIpSignal<S>>(
    slots: Seq<IpSlot>,
    signals: Seq<S>,
    just_transitioned: Seq<u32>,
) -> Seq<A>
    decreases slots.len(),
{
    if slots.len() == 0 {
        Seq::empty()
    } else {
        let before = firing_alerts::<S, A>(slots.drop_last(), signals, just_transitioned);
        let slot = slots.last();
        let signal = last_signal(signals, slot.ip);
        if slot.state.firing() && signal is Some && !just_transitioned.contains(slot.ip) {
            before.push(A::of_signal(slot.ip, signal))
        } else {
            before
        }
    }
}

/// Drives one alert state machine per source address.
///
/// An address is tracked only from a tick on which it has a signal, and no longer than it has
/// one or its alert is hot, so that memory is bounded by the number of signals per tick and
/// of alerts that are still firing or cooling down.
pub struct IpAlertLifecycleManager<S, A> {
    cooldown: Duration,
    consecutive_threshold: u32,
    resolve_consecutive_threshold: u32,
    slots: Vec<IpSlot>,
    _marker: PhantomData<(S, A)>,
}

impl<S: IpKeyed, A: FromIpSignal<S>> IpAlertLifecycleManager<S, A> {
    /// The tracked addresses and their states.
    pub closed spec fn slots(&self) -> Seq<IpSlot> {
        self.slots@
    }

    /// When alerts fire and resolve.
    pub closed spec fn timing(&self) -> AlertTiming {
        AlertTiming {
            cooldown: self.cooldown,
            consecutive_threshold: self.consecutive_threshold,
            resolve_consecutive_threshold: self.resolve_consecutive_threshold,
        }
    }

    /// No address is tracked twice, and every state is reachable.
    pub open spec fn wf(&self) -> bool {
        slots_wf(self.slots())
    }

    /// A manager that tracks no address yet.
    pub fn new(
        cooldown: Duration,
        consecutive_threshold: u32,
        resolve_consecutive_threshold: u32,
    ) -> (r: Self)
        ensures
            r.wf(),
            r.slots() == Seq::<IpSlot>::empty(),
            r.timing() == (AlertTiming {
                cooldown,
                consecutive_threshold,
                resolve_consecutive_threshold,
            }),
    {
        IpAlertLifecycleManager {
            cooldown,
            consecutive_threshold,
            resolve_consecutive_threshold,
            slots: Vec::new(),
            _marker: PhantomData,
        }
    }

    fn find_signal<'a>(signals: &'a [S], ip: u32) -> (r: Option<&'a S>)
        ensures
            match r {
                Some(s) => last_signal(signals@, ip) == Some(*s),
                None => last_signal(signals@, ip) is None,
            },
    {
        let mut i: usize = signals.len();
        proof {
            assert(signals@.take(i as int) =~= signals@);
        }
        while i > 0
            invariant
                i <= signals@.len(),
                last_signal(signals@, ip) == last_signal(signals@.take(i as int), ip),
            decreases i,
        {
            let s = &signals[i - 1];
            proof {
                assert(signals@.take(i as int).drop_last() =~= signals@.take(i - 1));
            }
            if s.src_ip() == ip {
                return Some(s);
            }
            i = i - 1;
        }
        None
    }

    fn find_state(&self, ip: u32) -> (r: AlertState)
        ensures
            r == state_of(self.slots(), ip),
    {
        let mut i: usize = self.slots.len();
        proof {
            assert(self.slots@.take(i as int) =~= self.slots@);
        }
        while i > 0
            invariant
                i <= self.slots@.len(),
                state_of(self.slots@, ip) == state_of(self.slots@.take(i as int), ip),
            decreases i,
        {
            let slot = self.slots[i - 1];
            proof {
                assert(self.slots@.take(i as int).drop_last() =~= self.slots@.take(i - 1));
            }
            if slot.ip == ip {
                return slot.state;
            }
            i = i - 1;
        }
        AlertState::new()
    }

    fn contains(ips: &Vec<u32>, ip: u32) -> (r: bool)
        ensures
            r == ips@.contains(ip),
    {
        let mut i: usize = 0;
        while i < ips.len()
            invariant
                i <= ips@.len(),
                forall|k: int| 0 <= k < i ==> #[trigger] ips@[k] != ip,
            decreases ips@.len() - i,
        {
            if ips[i] == ip {
                return true;
            }
            i = i + 1;
        }
        false
    }

    fn all_ips(&self, signals: &[S]) -> (r: Vec<u32>)
        ensures
            r@ == tick_ips(self.slots(), signals@),
    {
        let mut ips: Vec<u32> = Vec::new();
        let mut i: usize = 0;
        while i < self.slots.len()
            invariant
                i <= self.slots@.len(),
                ips@ =~= slot_ips(self.slots@).take(i as int),
            decreases self.slots@.len() - i,
        {
            ips.push(self.slots[i].ip);
            i = i + 1;
        }
        let mut j: usize = 0;
        proof {
            assert(slot_ips(self.slots@).take(self.slots@.len() as int) =~= slot_ips(self.slots@));
            assert(signals@.take(0).len() == 0);
        }
        while j < signals.len()
            invariant
                j <= signals@.len(),
                ips@ == with_signal_ips(slot_ips(self.slots@), signals@.take(j as int)),
            decreases signals@.len() - j,
        {
            let ip: u32 = signals[j].src_ip();
            proof {
                let t = signals@.take(j + 1);
                assert(t.drop_last() =~= signals@.take(j as int));
                assert(t.last() == signals@[j as int]);
            }
            if !Self::contains(&ips, ip) {
                ips.push(ip);
            }
            j = j + 1;
        }
        proof {
            assert(signals@.take(signals@.len() as int) =~= signals@);
        }
        ips
    }

    /// Advances every state machine by one tick.
    ///
    /// Returns what fired or resolved on this tick, and for every alert that fires with a
    /// signal but did not change, the alert again: receivers that let alerts expire have to
    /// hear of it. Addresses that have no signal and are not hot are forgotten.
    pub fn tick(&mut self, signals: &[S], now: Instant) -> (r: (Vec<IpAlertEvent<A>>, Vec<A>))
        ensures
            old(self).wf() ==> final(self).wf(),
            final(self).timing() == old(self).timing(),
            ({
                let slots = old(self).slots();
                let timing = old(self).timing();
                let ips = tick_ips(slots, signals@);
                &&& final(self).slots() == slots_after(slots, signals@, now, timing, ips)
                &&& r.0@ == events_after::<S, A>(slots, signals@, now, timing, ips)
                &&& r.1@ == heartbeats_after::<S, A>(slots, signals@, now, timing, ips)
            }),
    {
        let ips: Vec<u32> = self.all_ips(signals);
        let mut next: Vec<IpSlot> = Vec::new();
        let mut events: Vec<IpAlertEvent<A>> = Vec::new();
        let mut heartbeats: Vec<A> = Vec::new();
        let ghost timing = self.timing();
        let mut i: usize = 0;
        proof {
            assert(ips@.take(0).len() == 0);
        }
        while i < ips.len()
            invariant
                i <= ips@.len(),
                timing == self.timing(),
                next@ == slots_after(self.slots(), signals@, now, timing, ips@.take(i as int)),
                events@ == events_after::<S, A>(
                    self.slots(),
                    signals@,
                    now,
                    timing,
                    ips@.take(i as int),
                ),
                heartbeats@ == heartbeats_after::<S, A>(
                    self.slots(),
                    signals@,
                    now,
                    timing,
                    ips@.take(i as int),
                ),
            decreases ips@.len() - i,
        {
            let ip: u32 = ips[i];
            proof {
                let t = ips@.take(i + 1);
                assert(t.drop_last() =~= ips@.take(i as int));
                assert(t.last() == ip);
            }
            let signal = Self::find_signal(signals, ip);
            let mut state = self.find_state(ip);
            let event = state.advance(
                signal.is_some(),
                now,
                self.cooldown,
                self.consecutive_threshold,
                self.resolve_consecutive_threshold,
            );
            match event {
                Some(lifecycle) => {
                    events.push(IpAlertEvent { alert: A::from_signal(ip, signal), lifecycle });
                },
                None => {
                    if state.is_firing() && signal.is_some() {
                        heartbeats.push(A::from_signal(ip, signal));
                    }
                },
            }
            if signal.is_some() || state.is_hot(now, self.cooldown) {
                next.push(IpSlot { ip, state });
            }
            i = i + 1;
        }
        proof {
            assert(ips@.take(ips@.len() as int) =~= ips@);
            if self.wf() {
                law_tick_keeps_wf(self.slots(), signals@, now, timing);
            }
        }
        self.slots = next;
        (events, heartbeats)
    }

    /// Advances every state machine by one tick and returns what fired or resolved.
    pub fn evaluate(&mut self, signals: &[S], now: Instant) -> (r: Vec<IpAlertEvent<A>>)
        ensures
            old(self).wf() ==> final(self).wf(),
            final(self).timing() == old(self).timing(),
            ({
                let slots = old(self).slots();
                let timing = old(self).timing();
                let ips = tick_ips(slots, signals@);
                &&& final(self).slots() == slots_after(slots, signals@, now, timing, ips)
                &&& r@ == events_after::<S, A>(slots, signals@, now, timing, ips)
            }),
    {
        let (events, _heartbeats) = self.tick(signals, now);
        events
    }

    /// The alerts that fire, have a signal and are not among `just_transitioned`.
    pub fn heartbeats(&self, signals: &[S], just_transitioned: &Vec<u32>) -> (r: Vec<A>)
        ensures
            r@ == firing_alerts::<S, A>(self.slots(), signals@, just_transitioned@),
    {
        let mut r: Vec<A> = Vec::new();
        let mut i: usize = 0;
        proof {
            assert(self.slots@.take(0).len() == 0);
        }
        while i < self.slots.len()
            invariant
                i <= self.slots@.len(),
                r@ == firing_alerts::<S, A>(
                    self.slots@.take(i as int),
                    signals@,
                    just_transitioned@,
                ),
            decreases self.slots@.len() - i,
        {
            let slot = self.slots[i];
            proof {
                let t = self.slots@.take(i + 1);
                assert(t.drop_last() =~= self.slots@.take(i as int));
                assert(t.last() == slot);
            }
            let signal = Self::find_signal(signals, slot.ip);
            if slot.state.is_firing() && signal.is_some() && !Self::contains(
                just_transitioned,
                slot.ip,
            ) {
                r.push(A::from_signal(slot.ip, signal));
            }
            i = i + 1;
        }
        proof {
            assert(self.slots@.take(self.slots@.len() as int) =~= self.slots@);
        }
        r
    }

    /// Number of tracked addresses.
    pub fn active_count(&self) -> (r: usize)
        ensures
            r == self.slots().len(),
    {
        self.slots.len()
    }

    /// Number of addresses whose alert is pending or firing.
    pub fn alerting_count(&self) -> (r: usize)
        ensures
            r == alerting_slots(self.slots()),
    {
        let mut n: usize = 0;
        let mut i: usize = 0;
        proof {
            assert(self.slots@.take(0).len() == 0);
        }
        while i < self.slots.len()
            invariant
                n <= i <= self.slots@.len(),
                n == alerting_slots(self.slots@.take(i as int)),
            decreases self.slots@.len() - i,
        {
            proof {
                let seen = self.slots@.take(i + 1);
                assert(seen.drop_last() =~= self.slots@.take(i as int));
                assert(seen.last() == self.slots@[i as int]);
            }
            match self.slots[i].state.phase {
                AlertPhase::Inactive => {},
                AlertPhase::Pending => {
                    n = n + 1;
                },
                AlertPhase::Firing => {
                    n = n + 1;
                },
            }
            i = i + 1;
        }
        proof {
            assert(self.slots@.take(self.slots@.len() as int) =~= self.slots@);
        }
        n
    }

    /// The tracked addresses, for display.
    pub fn snapshot(&self) -> (r: Vec<IpAlertSlotSnapshot>)
        ensures
            r@.len() == self.slots().len(),
            forall|i: int|
                0 <= i < r@.len() ==> renders_slot(#[trigger] r@[i], self.slots()[i]),
    {
        let mut r: Vec<IpAlertSlotSnapshot> = Vec::new();
        let mut i: usize = 0;
        while i < self.slots.len()
            invariant
                i <= self.slots@.len(),
                r@.len() == i,
                forall|k: int|
                    0 <= k < i ==> renders_slot(#[trigger] r@[k], self.slots@[k]),
            decreases self.slots@.len() - i,
        {
            let slot = self.slots[i];
            r.push(
                IpAlertSlotSnapshot {
                    src_ip: slot.ip,
                    phase_label: slot.state.phase_label(),
                    consecutive_count: slot.state.consecutive_count,
                },
            );
            i = i + 1;
        }
        r
    }
}

/// Whether `snap` renders `slot`.
pub open spec fn renders_slot(snap: IpAlertSlotSnapshot, slot: IpSlot) -> bool {
    &&& snap.src_ip == slot.ip
    &&& snap.phase_label@ == slot.state.phase_label_spec()
    &&& snap.consecutive_count == slot.state.consecutive_count
}

} // verus!
