//! What holds of every tick of the per-address alert managers.
use vstd::prelude::*;
use vstd::seq_lib::*;
use vstd::set_lib::*;

use crate::alert::ip_manager::{
    alerting_slots, event_of, events_after, firing_alerts, heartbeats_after, kept, last_signal,
    renders_slot, slot_ips, slots_after, state_after, state_of, tick_ips, FromIpSignal, IpKeyed,
    IpSlot,
};
use crate::alert::model::IpAlertEvent;
use crate::alert::state::{law_phases_are_told_apart, AlertPhase, AlertState, AlertTiming};
use crate::alert::view::IpAlertSlotSnapshot;
use crate::sublist::{lemma_picks_none, lemma_picks_step, picks};
use crate::time::Instant;

verus! {

/// Whether no address is tracked twice.
pub open spec fn distinct(slots: Seq<IpSlot>) -> bool {
    slot_ips(slots).no_duplicates()
}

/// What holds of every manager that starts empty: no address is tracked twice, and every
/// state is reachable.
pub open spec fn slots_wf(slots: Seq<IpSlot>) -> bool {
    &&& distinct(slots)
    &&& forall|i: int| 0 <= i < slots.len() ==> (#[trigger] slots[i]).state.wf()
}

/// A tick goes through no address twice, and through exactly the tracked ones and those with
/// a signal.
pub proof fn lemma_tick_ips<S: IpKeyed>(slots: Seq<IpSlot>, signals: Seq<S>)
    requires
        distinct(slots),
    ensures
        tick_ips(slots, signals).no_duplicates(),
        forall|ip: u32| #[trigger]
            tick_ips(slots, signals).contains(ip) <==> slot_ips(slots).contains(ip) || last_signal(
                signals,
                ip,
            ) is Some,
    decreases signals.len(),
{
    if signals.len() > 0 {
        let rest = signals.drop_last();
        lemma_tick_ips(slots, rest);
        let before = tick_ips(slots, rest);
        let ip0 = signals.last().ip();
        let after = tick_ips(slots, signals);
        assert forall|ip: u32| #[trigger] after.contains(ip) <==> slot_ips(slots).contains(ip)
            || last_signal(signals, ip) is Some by {
            if before.contains(ip) && !before.contains(ip0) {
                let k = choose|k: int| 0 <= k < before.len() && before[k] == ip;
                assert(after[k] == ip);
            }
            if !before.contains(ip0) {
                assert(after.last() == ip0);
                if after.contains(ip) && ip != ip0 {
                    let k = choose|k: int| 0 <= k < after.len() && after[k] == ip;
                    assert(before[k] == ip);
                }
            }
            assert(before.contains(ip) <==> slot_ips(slots).contains(ip) || last_signal(
                rest,
                ip,
            ) is Some);
        }
    }
}

/// The addresses tracked after a tick are those of `ips` that are kept, each once.
proof fn lemma_slots_after<S: IpKeyed>(
    slots: Seq<IpSlot>,
    signals: Seq<S>,
    now: Instant,
    timing: AlertTiming,
    ips: Seq<u32>,
)
    requires
        ips.no_duplicates(),
    ensures
        distinct(slots_after(slots, signals, now, timing, ips)),
        forall|ip: u32| #[trigger]
            slot_ips(slots_after(slots, signals, now, timing, ips)).contains(ip) <==> ips.contains(
                ip,
            ) && kept(slots, signals, now, timing, ip),
        forall|i: int|
            0 <= i < slots_after(slots, signals, now, timing, ips).len() ==> (
            #[trigger] slots_after(slots, signals, now, timing, ips)[i]).state == state_after(
                slots,
                signals,
                now,
                timing,
                slots_after(slots, signals, now, timing, ips)[i].ip,
            ),
        slots_after(slots, signals, now, timing, ips).len() <= ips.len(),
    decreases ips.len(),
{
    if ips.len() > 0 {
        let rest = ips.drop_last();
        lemma_slots_after(slots, signals, now, timing, rest);
        let before = slots_after(slots, signals, now, timing, rest);
        let after = slots_after(slots, signals, now, timing, ips);
        let ip0 = ips.last();
        assert(!rest.contains(ip0)) by {
            if rest.contains(ip0) {
                let k = choose|k: int| 0 <= k < rest.len() && rest[k] == ip0;
                assert(ips[k] == ips[ips.len() - 1]);
            }
        }
        assert(!slot_ips(before).contains(ip0));
        assert(distinct(after)) by {
            assert forall|i: int, j: int|
                0 <= i < after.len() && 0 <= j < after.len() && i != j implies slot_ips(after)[i]
                != slot_ips(after)[j] by {
                if i < before.len() && j < before.len() {
                    assert(slot_ips(before)[i] != slot_ips(before)[j]);
                } else if i < before.len() {
                    assert(slot_ips(before)[i] != ip0);
                } else if j < before.len() {
                    assert(slot_ips(before)[j] != ip0);
                }
            }
        }
        assert forall|ip: u32| #[trigger] slot_ips(after).contains(ip) <==> ips.contains(ip)
            && kept(slots, signals, now, timing, ip) by {
            assert(slot_ips(before).contains(ip) <==> rest.contains(ip) && kept(
                slots,
                signals,
                now,
                timing,
                ip,
            ));
            if slot_ips(before).contains(ip) {
                let k = choose|k: int| 0 <= k < before.len() && slot_ips(before)[k] == ip;
                assert(slot_ips(after)[k] == ip);
            }
            if rest.contains(ip) {
                let k = choose|k: int| 0 <= k < rest.len() && rest[k] == ip;
                assert(ips[k] == ip);
            }
            if kept(slots, signals, now, timing, ip0) {
                assert(slot_ips(after)[before.len() as int] == ip0);
            }
            if slot_ips(after).contains(ip) && ip != ip0 {
                let k = choose|k: int| 0 <= k < after.len() && slot_ips(after)[k] == ip;
                assert(k < before.len());
                assert(slot_ips(before)[k] == ip);
            }
            if ips.contains(ip) && ip != ip0 {
                let k = choose|k: int| 0 <= k < ips.len() && ips[k] == ip;
                assert(rest[k] == ip);
            }
            assert(ips.last() == ips[ips.len() - 1]);
        }
    }
}

/// The state of a tracked address is the one in its slot; that of any other is fresh.
proof fn lemma_state_of(slots: Seq<IpSlot>, ip: u32)
    requires
        distinct(slots),
    ensures
        !slot_ips(slots).contains(ip) ==> state_of(slots, ip) == AlertState::fresh(),
        forall|i: int|
            0 <= i < slots.len() && (#[trigger] slots[i]).ip == ip ==> state_of(slots, ip)
                == slots[i].state,
    decreases slots.len(),
{
    if slots.len() > 0 {
        let rest = slots.drop_last();
        assert(distinct(rest)) by {
            assert forall|i: int, j: int|
                0 <= i < rest.len() && 0 <= j < rest.len() && i != j implies slot_ips(rest)[i]
                != slot_ips(rest)[j] by {
                assert(slot_ips(slots)[i] != slot_ips(slots)[j]);
            }
        }
        lemma_state_of(rest, ip);
        let last = slots.len() - 1;
        assert(slot_ips(slots)[last] == slots[last].ip);
        if slot_ips(rest).contains(ip) {
            let k = choose|k: int| 0 <= k < rest.len() && slot_ips(rest)[k] == ip;
            assert(slot_ips(slots)[k] == ip);
        }
        assert forall|i: int|
            0 <= i < slots.len() && (#[trigger] slots[i]).ip == ip implies state_of(slots, ip)
            == slots[i].state by {
            if i < last {
                assert(slot_ips(slots)[i] != slot_ips(slots)[last]);
                assert(rest[i] == slots[i]);
            }
        }
    }
}

/// A tick keeps the tracked addresses distinct and their states reachable.
pub proof fn law_tick_keeps_wf<S: IpKeyed>(
    slots: Seq<IpSlot>,
    signals: Seq<S>,
    now: Instant,
    timing: AlertTiming,
)
    requires
        slots_wf(slots),
    ensures
        slots_wf(slots_after(slots, signals, now, timing, tick_ips(slots, signals))),
{
    let ips = tick_ips(slots, signals);
    let after = slots_after(slots, signals, now, timing, ips);
    lemma_tick_ips(slots, signals);
    lemma_slots_after(slots, signals, now, timing, ips);
    assert forall|i: int| 0 <= i < after.len() implies (#[trigger] after[i]).state.wf() by {
        let ip = after[i].ip;
        lemma_state_of(slots, ip);
        if slot_ips(slots).contains(ip) {
            let k = choose|k: int| 0 <= k < slots.len() && slot_ips(slots)[k] == ip;
            assert(slots[k].ip == ip);
        }
    }
}

/// After a tick exactly those addresses are tracked that had a signal or whose alert is hot,
/// and every address, tracked or not, has moved as its own state machine says.
pub proof fn law_tick_per_address<S: IpKeyed>(
    slots: Seq<IpSlot>,
    signals: Seq<S>,
    now: Instant,
    timing: AlertTiming,
    ip: u32,
)
    requires
        distinct(slots),
    ensures
        ({
            let after = slots_after(slots, signals, now, timing, tick_ips(slots, signals));
            &&& slot_ips(after).contains(ip) <==> kept(slots, signals, now, timing, ip)
            &&& kept(slots, signals, now, timing, ip) ==> state_of(after, ip) == state_after(
                slots,
                signals,
                now,
                timing,
                ip,
            )
            &&& !kept(slots, signals, now, timing, ip) ==> state_of(after, ip)
                == AlertState::fresh()
        }),
{
    let ips = tick_ips(slots, signals);
    let after = slots_after(slots, signals, now, timing, ips);
    lemma_tick_ips(slots, signals);
    lemma_slots_after(slots, signals, now, timing, ips);
    lemma_state_of(slots, ip);
    lemma_state_of(after, ip);
    assert(ips.contains(ip) <==> slot_ips(slots).contains(ip) || last_signal(signals, ip) is Some);
    if slot_ips(after).contains(ip) {
        let k = choose|k: int| 0 <= k < after.len() && slot_ips(after)[k] == ip;
        assert(after[k].ip == ip);
    }
}

/// The addresses without a signal this tick that are tracked all the same.
pub open spec fn quiet_slots<S: IpKeyed>(slots: Seq<IpSlot>, signals: Seq<S>) -> Seq<IpSlot> {
    slots.filter(|slot: IpSlot| last_signal(signals, slot.ip) is None)
}

/// Tracked state is bounded: after a tick there are at most as many tracked addresses as
/// there were signals plus addresses without a signal; and every one of these is either
/// still firing or within its cooldown.
pub proof fn law_state_is_bounded<S: IpKeyed>(
    slots: Seq<IpSlot>,
    signals: Seq<S>,
    now: Instant,
    timing: AlertTiming,
)
    requires
        distinct(slots),
    ensures
        ({
            let after = slots_after(slots, signals, now, timing, tick_ips(slots, signals));
            &&& after.len() <= signals.len() + quiet_slots(after, signals).len()
            &&& forall|i: int|
                0 <= i < after.len() && last_signal(signals, (#[trigger] after[i]).ip)
                    is None ==> after[i].state.hot(now, timing.cooldown) && after[i].state.phase
                    != AlertPhase::Pending
        }),
{
    let ips = tick_ips(slots, signals);
    let after = slots_after(slots, signals, now, timing, ips);
    lemma_tick_ips(slots, signals);
    lemma_slots_after(slots, signals, now, timing, ips);
    assert forall|i: int|
        0 <= i < after.len() && last_signal(signals, (#[trigger] after[i]).ip) is None implies
        after[i].state.hot(now, timing.cooldown) && after[i].state.phase
        != AlertPhase::Pending by {
        assert(slot_ips(after)[i] == after[i].ip);
        assert(slot_ips(after).contains(after[i].ip));
    }
    lemma_loud_count(after, signals);
}

/// How many of `slots` have a signal.
proof fn lemma_loud_count<S: IpKeyed>(slots: Seq<IpSlot>, signals: Seq<S>)
    requires
        distinct(slots),
    ensures
        slots.len() <= signals.len() + quiet_slots(slots, signals).len(),
{
    let quiet = |slot: IpSlot| last_signal(signals, slot.ip) is None;
    let loud = |slot: IpSlot| !quiet(slot);
    lemma_filter_split(slots, quiet);
    let chosen = slots.filter(loud);
    let chosen_ips = slot_ips(chosen);
    lemma_filter_distinct(slots, loud);
    let signal_ips = Seq::new(signals.len(), |i: int| signals[i].ip());
    assert forall|ip: u32| chosen_ips.to_set().contains(ip) implies signal_ips.to_set().contains(
        ip,
    ) by {
        let k = choose|k: int| 0 <= k < chosen_ips.len() && chosen_ips[k] == ip;
        assert(chosen[k].ip == ip);
        lemma_filter_member(slots, loud, k);
        lemma_last_signal_index(signals, ip);
        let j = choose|j: int| 0 <= j < signals.len() && (#[trigger] signals[j]).ip() == ip;
        assert(signal_ips[j] == ip);
    }
    chosen_ips.unique_seq_to_set();
    lemma_seq_set_len(signal_ips);
    lemma_len_subset(chosen_ips.to_set(), signal_ips.to_set());
}

proof fn lemma_seq_set_len(s: Seq<u32>)
    ensures
        s.to_set().finite(),
        s.to_set().len() <= s.len(),
{
    seq_to_set_is_finite(s);
    s.lemma_cardinality_of_set();
}

proof fn lemma_last_signal_index<S: IpKeyed>(signals: Seq<S>, ip: u32)
    requires
        last_signal(signals, ip) is Some,
    ensures
        exists|j: int| 0 <= j < signals.len() && (#[trigger] signals[j]).ip() == ip,
    decreases signals.len(),
{
    if signals.len() > 0 {
        if signals.last().ip() == ip {
            assert(signals[signals.len() - 1].ip() == ip);
        } else {
            let rest = signals.drop_last();
            lemma_last_signal_index(rest, ip);
            let j = choose|j: int| 0 <= j < rest.len() && (#[trigger] rest[j]).ip() == ip;
            assert(signals[j].ip() == ip);
        }
    }
}

proof fn lemma_filter_split(slots: Seq<IpSlot>, pred: spec_fn(IpSlot) -> bool)
    ensures
        slots.len() == slots.filter(pred).len() + slots.filter(|s: IpSlot| !pred(s)).len(),
    decreases slots.len(),
{
    reveal(Seq::filter);
    if slots.len() > 0 {
        lemma_filter_split(slots.drop_last(), pred);
    }
}

proof fn lemma_filter_member(slots: Seq<IpSlot>, pred: spec_fn(IpSlot) -> bool, k: int)
    requires
        0 <= k < slots.filter(pred).len(),
    ensures
        pred(slots.filter(pred)[k]),
        slots.contains(slots.filter(pred)[k]),
    decreases slots.len(),
{
    reveal(Seq::filter);
    if slots.len() > 0 {
        let rest = slots.drop_last();
        if k < rest.filter(pred).len() {
            lemma_filter_member(rest, pred, k);
            let x = rest.filter(pred)[k];
            let j = choose|j: int| 0 <= j < rest.len() && rest[j] == x;
            assert(slots[j] == x);
        } else {
            assert(slots[slots.len() - 1] == slots.filter(pred)[k]);
        }
    }
}

proof fn lemma_filter_distinct(slots: Seq<IpSlot>, pred: spec_fn(IpSlot) -> bool)
    requires
        distinct(slots),
    ensures
        distinct(slots.filter(pred)),
    decreases slots.len(),
{
    reveal(Seq::filter);
    if slots.len() > 0 {
        let rest = slots.drop_last();
        assert(distinct(rest)) by {
            assert forall|i: int, j: int|
                0 <= i < rest.len() && 0 <= j < rest.len() && i != j implies slot_ips(rest)[i]
                != slot_ips(rest)[j] by {
                assert(slot_ips(slots)[i] != slot_ips(slots)[j]);
            }
        }
        lemma_filter_distinct(rest, pred);
        let before = rest.filter(pred);
        let after = slots.filter(pred);
        let last = slots.len() - 1;
        assert forall|i: int, j: int|
            0 <= i < after.len() && 0 <= j < after.len() && i != j implies slot_ips(after)[i]
            != slot_ips(after)[j] by {
            if i < before.len() && j < before.len() {
                assert(slot_ips(before)[i] != slot_ips(before)[j]);
            } else if i < before.len() || j < before.len() {
                let k = if i < before.len() {
                    i
                } else {
                    j
                };
                lemma_filter_member(rest, pred, k);
                let x = before[k];
                let m = choose|m: int| 0 <= m < rest.len() && rest[m] == x;
                assert(slots[m] == x);
                assert(slot_ips(slots)[m] != slot_ips(slots)[last]);
            }
        }
    }
}

/// The addresses of `events`.
pub open spec fn event_ips<A: IpKeyed>(events: Seq<IpAlertEvent<A>>) -> Seq<u32> {
    Seq::new(events.len(), |i: int| events[i].alert.ip())
}

/// The alerts that a tick re-affirms are those that fire after it, have a signal, and did not
/// fire or resolve on it: no address is told of twice.
pub proof fn law_heartbeats_follow_state<S: IpKeyed, A: FromIpSignal<S> + IpKeyed>(
    slots: Seq<IpSlot>,
    signals: Seq<S>,
    now: Instant,
    timing: AlertTiming,
)
    requires
        distinct(slots),
        forall|ip: u32, signal: Option<S>| (#[trigger] A::of_signal(ip, signal)).ip() == ip,
    ensures
        ({
            let ips = tick_ips(slots, signals);
            let events = events_after::<S, A>(slots, signals, now, timing, ips);
            let after = slots_after(slots, signals, now, timing, ips);
            heartbeats_after::<S, A>(slots, signals, now, timing, ips) == firing_alerts::<S, A>(
                after,
                signals,
                event_ips(events),
            )
        }),
{
    let ips = tick_ips(slots, signals);
    let events = events_after::<S, A>(slots, signals, now, timing, ips);
    lemma_tick_ips(slots, signals);
    assert forall|ip: u32| ips.contains(ip) implies (#[trigger] event_ips(events).contains(ip)
        <==> event_of::<S, A>(slots, signals, now, timing, ip) is Some) by {
        lemma_event_ips::<S, A>(slots, signals, now, timing, ips, ip);
    }
    lemma_heartbeats_upto::<S, A>(slots, signals, now, timing, ips, event_ips(events));
}

proof fn lemma_event_ips<S: IpKeyed, A: FromIpSignal<S> + IpKeyed>(
    slots: Seq<IpSlot>,
    signals: Seq<S>,
    now: Instant,
    timing: AlertTiming,
    ips: Seq<u32>,
    ip: u32,
)
    requires
        forall|ip: u32, signal: Option<S>| (#[trigger] A::of_signal(ip, signal)).ip() == ip,
    ensures
        event_ips(events_after::<S, A>(slots, signals, now, timing, ips)).contains(ip) <==> ips.contains(
            ip,
        ) && event_of::<S, A>(slots, signals, now, timing, ip) is Some,
    decreases ips.len(),
{
    if ips.len() > 0 {
        let rest = ips.drop_last();
        lemma_event_ips::<S, A>(slots, signals, now, timing, rest, ip);
        let before = events_after::<S, A>(slots, signals, now, timing, rest);
        let after = events_after::<S, A>(slots, signals, now, timing, ips);
        let ip0 = ips.last();
        assert(ips[ips.len() - 1] == ip0);
        if event_ips(before).contains(ip) {
            let k = choose|k: int| 0 <= k < before.len() && event_ips(before)[k] == ip;
            assert(event_ips(after)[k] == ip);
        }
        if rest.contains(ip) {
            let k = choose|k: int| 0 <= k < rest.len() && rest[k] == ip;
            assert(ips[k] == ip);
        }
        if event_of::<S, A>(slots, signals, now, timing, ip0) is Some {
            assert(event_ips(after)[before.len() as int] == ip0);
        }
        if event_ips(after).contains(ip) && ip != ip0 {
            let k = choose|k: int| 0 <= k < after.len() && event_ips(after)[k] == ip;
            assert(k < before.len());
            assert(event_ips(before)[k] == ip);
        }
        if ips.contains(ip) && ip != ip0 {
            let k = choose|k: int| 0 <= k < ips.len() && ips[k] == ip;
            assert(rest[k] == ip);
        }
        if event_ips(after).contains(ip) && !event_ips(before).contains(ip) {
            let k = choose|k: int| 0 <= k < after.len() && event_ips(after)[k] == ip;
            if k < before.len() {
                assert(event_ips(before)[k] == ip);
            }
        }
    }
}

proof fn lemma_heartbeats_upto<S: IpKeyed, A: FromIpSignal<S> + IpKeyed>(
    slots: Seq<IpSlot>,
    signals: Seq<S>,
    now: Instant,
    timing: AlertTiming,
    ips: Seq<u32>,
    told: Seq<u32>,
)
    requires
        forall|ip: u32|
            ips.contains(ip) ==> (#[trigger] told.contains(ip) <==> event_of::<S, A>(
                slots,
                signals,
                now,
                timing,
                ip,
            ) is Some),
    ensures
        heartbeats_after::<S, A>(slots, signals, now, timing, ips) == firing_alerts::<S, A>(
            slots_after(slots, signals, now, timing, ips),
            signals,
            told,
        ),
    decreases ips.len(),
{
    if ips.len() > 0 {
        let rest = ips.drop_last();
        assert forall|ip: u32| rest.contains(ip) implies (#[trigger] told.contains(ip)
            <==> event_of::<S, A>(slots, signals, now, timing, ip) is Some) by {
            let k = choose|k: int| 0 <= k < rest.len() && rest[k] == ip;
            assert(ips[k] == ip);
        }
        lemma_heartbeats_upto::<S, A>(slots, signals, now, timing, rest, told);
        let ip0 = ips.last();
        assert(ips[ips.len() - 1] == ip0);
        assert(told.contains(ip0) <==> event_of::<S, A>(slots, signals, now, timing, ip0) is Some);
        let before = slots_after(slots, signals, now, timing, rest);
        let after = slots_after(slots, signals, now, timing, ips);
        if kept(slots, signals, now, timing, ip0) {
            assert(after.drop_last() =~= before);
        }
    }
}

/// The signal of an address is the last one that belongs to it; it has none exactly if none
/// belongs to it.
pub proof fn law_last_signal_of_the_address<S: IpKeyed>(signals: Seq<S>, ip: u32, j: int)
    requires
        -1 <= j < signals.len(),
        j >= 0 ==> signals[j].ip() == ip,
        forall|k: int| j < k < signals.len() ==> (#[trigger] signals[k]).ip() != ip,
    ensures
        j >= 0 ==> last_signal(signals, ip) == Some(signals[j]),
        j < 0 ==> last_signal(signals, ip) is None,
    decreases signals.len(),
{
    let last = signals.len() - 1;
    if signals.len() > 0 && j < last {
        assert(signals[last].ip() != ip);
        let rest = signals.drop_last();
        assert forall|k: int| j < k < rest.len() implies (#[trigger] rest[k]).ip() != ip by {
            assert(signals[k].ip() != ip);
        }
        law_last_signal_of_the_address(rest, ip, j);
    }
}

/// The state of a tracked address is the one that is tracked for it; that of any other is
/// that of an alert of which nothing has been seen.
pub proof fn law_state_of_the_address(slots: Seq<IpSlot>, ip: u32)
    requires
        distinct(slots),
    ensures
        forall|i: int|
            0 <= i < slots.len() && (#[trigger] slots[i]).ip == ip ==> state_of(slots, ip)
                == slots[i].state,
        (forall|i: int| 0 <= i < slots.len() ==> (#[trigger] slots[i]).ip != ip) ==> state_of(
            slots,
            ip,
        ) == AlertState::fresh(),
{
    lemma_state_of(slots, ip);
    if slot_ips(slots).contains(ip) {
        let k = choose|k: int| 0 <= k < slots.len() && slot_ips(slots)[k] == ip;
        assert(slots[k].ip == ip);
    }
}

/// What a tick does to every address, on its own: its alert moves by one tick, with a signal
/// exactly if one of the signals belongs to it; and it is tracked afterwards exactly if it has
/// a signal or its alert is hot.
pub proof fn law_address_moves_by_its_signals<S: IpKeyed>(
    slots: Seq<IpSlot>,
    signals: Seq<S>,
    now: Instant,
    timing: AlertTiming,
    ip: u32,
)
    requires
        distinct(slots),
    ensures
        ({
            let after = slots_after(slots, signals, now, timing, tick_ips(slots, signals));
            let signalled = exists|j: int|
                0 <= j < signals.len() && (#[trigger] signals[j]).ip() == ip;
            let next = state_of(slots, ip).next(signalled, now, timing);
            let held = exists|i: int| 0 <= i < after.len() && (#[trigger] after[i]).ip == ip;
            &&& held <==> signalled || next.hot(now, timing.cooldown)
            &&& held ==> state_of(after, ip) == next
        }),
{
    law_tick_per_address(slots, signals, now, timing, ip);
    let after = slots_after(slots, signals, now, timing, tick_ips(slots, signals));
    lemma_has_signal(signals, ip);
    if slot_ips(after).contains(ip) {
        let k = choose|k: int| 0 <= k < after.len() && slot_ips(after)[k] == ip;
        assert(after[k].ip == ip);
    }
    assert forall|i: int| 0 <= i < after.len() && (#[trigger] after[i]).ip == ip implies slot_ips(
        after,
    ).contains(ip) by {
        assert(slot_ips(after)[i] == ip);
    }
}

proof fn lemma_has_signal<S: IpKeyed>(signals: Seq<S>, ip: u32)
    ensures
        last_signal(signals, ip) is Some <==> exists|j: int|
            0 <= j < signals.len() && (#[trigger] signals[j]).ip() == ip,
    decreases signals.len(),
{
    if signals.len() > 0 {
        let rest = signals.drop_last();
        lemma_has_signal(rest, ip);
        if last_signal(signals, ip) is Some {
            lemma_last_signal_index(signals, ip);
        }
        assert forall|j: int| 0 <= j < signals.len() && (#[trigger] signals[j]).ip() == ip implies
            last_signal(signals, ip) is Some by {
            if j < rest.len() {
                assert(rest[j].ip() == ip);
            }
        }
    }
}

/// A tick first goes through the tracked addresses, in their order.
pub proof fn law_tracked_addresses_come_first<S: IpKeyed>(slots: Seq<IpSlot>, signals: Seq<S>)
    ensures
        tick_ips(slots, signals).len() >= slots.len(),
        forall|i: int|
            0 <= i < slots.len() ==> #[trigger] tick_ips(slots, signals)[i] == slots[i].ip,
    decreases signals.len(),
{
    if signals.len() > 0 {
        law_tracked_addresses_come_first(slots, signals.drop_last());
    }
}

/// The events of a tick are those of the addresses whose alert fires or resolves on it, in
/// order, and no others: event `k` is about the address at position `at[k]`, says what its
/// alert did, and is made from the address's signal.
pub proof fn law_events_are_of_the_addresses_that_change<S: IpKeyed, A: FromIpSignal<S>>(
    slots: Seq<IpSlot>,
    signals: Seq<S>,
    now: Instant,
    timing: AlertTiming,
    ips: Seq<u32>,
) -> (at: Seq<int>)
    ensures
        picks(
            at,
            ips.len(),
            |i: int|
                state_of(slots, ips[i]).event(
                    last_signal(signals, ips[i]) is Some,
                    now,
                    timing,
                ) is Some,
        ),
        events_after::<S, A>(slots, signals, now, timing, ips).len() == at.len(),
        forall|k: int|
            0 <= k < at.len() ==> {
                let e = #[trigger] events_after::<S, A>(slots, signals, now, timing, ips)[k];
                let ip = ips[at[k]];
                let signal = last_signal(signals, ip);
                &&& e.alert == A::of_signal(ip, signal)
                &&& state_of(slots, ip).event(signal is Some, now, timing) == Some(e.lifecycle)
            },
    decreases ips.len(),
{
    assert(ips.take(ips.len() as int) =~= ips);
    lemma_changes_upto::<S, A>(slots, signals, now, timing, ips, ips.len())
}

proof fn lemma_changes_upto<S: IpKeyed, A: FromIpSignal<S>>(
    slots: Seq<IpSlot>,
    signals: Seq<S>,
    now: Instant,
    timing: AlertTiming,
    ips: Seq<u32>,
    n: nat,
) -> (at: Seq<int>)
    requires
        n <= ips.len(),
    ensures
        picks(
            at,
            n,
            |i: int|
                state_of(slots, ips[i]).event(
                    last_signal(signals, ips[i]) is Some,
                    now,
                    timing,
                ) is Some,
        ),
        events_after::<S, A>(slots, signals, now, timing, ips.take(n as int)).len() == at.len(),
        forall|k: int|
            0 <= k < at.len() ==> {
                let e = #[trigger] events_after::<S, A>(
                    slots,
                    signals,
                    now,
                    timing,
                    ips.take(n as int),
                )[k];
                let ip = ips[at[k]];
                let signal = last_signal(signals, ip);
                &&& e.alert == A::of_signal(ip, signal)
                &&& state_of(slots, ip).event(signal is Some, now, timing) == Some(e.lifecycle)
            },
    decreases n,
{
    let keep = |i: int|
        state_of(slots, ips[i]).event(last_signal(signals, ips[i]) is Some, now, timing) is Some;
    if n == 0 {
        lemma_picks_none(keep);
        Seq::empty()
    } else {
        let m = (n - 1) as nat;
        let before = lemma_changes_upto::<S, A>(slots, signals, now, timing, ips, m);
        lemma_picks_step(before, m, keep);
        assert(ips.take(n as int).drop_last() =~= ips.take(m as int));
        if keep(m as int) {
            before.push(m as int)
        } else {
            before
        }
    }
}

/// The alerts that are re-affirmed are those of the tracked addresses that fire, have a signal
/// and are not among `told`, in order, and no others: alert `k` is made from the address at
/// position `at[k]` and its signal.
pub proof fn law_firing_addresses_are_reaffirmed<S: IpKeyed, A: FromIpSignal<S>>(
    slots: Seq<IpSlot>,
    signals: Seq<S>,
    told: Seq<u32>,
) -> (at: Seq<int>)
    ensures
        picks(
            at,
            slots.len(),
            |i: int|
                slots[i].state.phase == AlertPhase::Firing && last_signal(signals, slots[i].ip)
                    is Some && !told.contains(slots[i].ip),
        ),
        firing_alerts::<S, A>(slots, signals, told).len() == at.len(),
        forall|k: int|
            0 <= k < at.len() ==> {
                let ip = slots[at[k]].ip;
                #[trigger] firing_alerts::<S, A>(slots, signals, told)[k] == A::of_signal(
                    ip,
                    last_signal(signals, ip),
                )
            },
{
    assert(slots.take(slots.len() as int) =~= slots);
    lemma_firing_upto::<S, A>(slots, signals, told, slots.len())
}

proof fn lemma_firing_upto<S: IpKeyed, A: FromIpSignal<S>>(
    slots: Seq<IpSlot>,
    signals: Seq<S>,
    told: Seq<u32>,
    n: nat,
) -> (at: Seq<int>)
    requires
        n <= slots.len(),
    ensures
        picks(
            at,
            n,
            |i: int|
                slots[i].state.phase == AlertPhase::Firing && last_signal(signals, slots[i].ip)
                    is Some && !told.contains(slots[i].ip),
        ),
        firing_alerts::<S, A>(slots.take(n as int), signals, told).len() == at.len(),
        forall|k: int|
            0 <= k < at.len() ==> {
                let ip = slots[at[k]].ip;
                #[trigger] firing_alerts::<S, A>(slots.take(n as int), signals, told)[k]
                    == A::of_signal(ip, last_signal(signals, ip))
            },
    decreases n,
{
    let keep = |i: int|
        slots[i].state.phase == AlertPhase::Firing && last_signal(signals, slots[i].ip) is Some
            && !told.contains(slots[i].ip);
    if n == 0 {
        lemma_picks_none(keep);
        Seq::empty()
    } else {
        let m = (n - 1) as nat;
        let before = lemma_firing_upto::<S, A>(slots, signals, told, m);
        lemma_picks_step(before, m, keep);
        assert(slots.take(n as int).drop_last() =~= slots.take(m as int));
        if keep(m as int) {
            before.push(m as int)
        } else {
            before
        }
    }
}

/// The number of alerting addresses is the number of positions whose alert is pending or
/// firing, and of no others.
pub proof fn law_pending_and_firing_addresses_are_counted(slots: Seq<IpSlot>) -> (at: Seq<int>)
    ensures
        picks(
            at,
            slots.len(),
            |i: int|
                slots[i].state.phase == AlertPhase::Pending || slots[i].state.phase
                    == AlertPhase::Firing,
        ),
        alerting_slots(slots) == at.len(),
{
    assert(slots.take(slots.len() as int) =~= slots);
    lemma_alerting_upto(slots, slots.len())
}

proof fn lemma_alerting_upto(slots: Seq<IpSlot>, n: nat) -> (at: Seq<int>)
    requires
        n <= slots.len(),
    ensures
        picks(
            at,
            n,
            |i: int|
                slots[i].state.phase == AlertPhase::Pending || slots[i].state.phase
                    == AlertPhase::Firing,
        ),
        alerting_slots(slots.take(n as int)) == at.len(),
    decreases n,
{
    let keep = |i: int|
        slots[i].state.phase == AlertPhase::Pending || slots[i].state.phase == AlertPhase::Firing;
    if n == 0 {
        lemma_picks_none(keep);
        Seq::empty()
    } else {
        let m = (n - 1) as nat;
        let before = lemma_alerting_upto(slots, m);
        lemma_picks_step(before, m, keep);
        assert(slots.take(n as int).drop_last() =~= slots.take(m as int));
        if keep(m as int) {
            before.push(m as int)
        } else {
            before
        }
    }
}

/// The signal of an address is one of the signals, and belongs to it.
pub proof fn law_signal_is_listed<S: IpKeyed>(signals: Seq<S>, ip: u32) -> (j: int)
    requires
        last_signal(signals, ip) is Some,
    ensures
        0 <= j < signals.len(),
        signals[j].ip() == ip,
        last_signal(signals, ip) == Some(signals[j]),
    decreases signals.len(),
{
    if signals.last().ip() == ip {
        signals.len() - 1
    } else {
        law_signal_is_listed(signals.drop_last(), ip)
    }
}

/// What is shown of an address's alert is its own address, phase and count.
pub proof fn law_snapshot_shows_the_address(snap: IpAlertSlotSnapshot, slot: IpSlot)
    requires
        renders_slot(snap, slot),
    ensures
        snap.src_ip == slot.ip,
        snap.consecutive_count == slot.state.consecutive_count,
        snap.phase_label@ == "inactive"@ <==> slot.state.phase == AlertPhase::Inactive,
        snap.phase_label@ == "pending"@ <==> slot.state.phase == AlertPhase::Pending,
        snap.phase_label@ == "firing"@ <==> slot.state.phase == AlertPhase::Firing,
{
    law_phases_are_told_apart(slot.state);
}

} // verus!
