//! The alert state machine.
use ebpf_xdp_program::alert::model::AlertKind;
use ebpf_xdp_program::alert::state::{AlertLifecycle, AlertState};
use ebpf_xdp_program::time::{Duration, Instant};

fn t0() -> Instant {
    Instant { nanos: 1_000_000_000_000 }
}

const NO_COOLDOWN: Duration = Duration { nanos: 0 };

// Helper: advance with threshold=3, resolve_threshold=2, no cooldown
fn advance(state: &mut AlertState, signal: bool) -> Option<AlertLifecycle> {
    state.advance(signal, t0(), NO_COOLDOWN, 3, 2)
}

#[test]
fn state_inactive_no_signal_stays_inactive() {
    let mut s = AlertState::new();
    let result = advance(&mut s, false);
    assert!(result.is_none());
    assert_eq!(s.phase_value(), 0); // Inactive
}

#[test]
fn state_inactive_signal_goes_pending() {
    let mut s = AlertState::new();
    // threshold=3, one signal → Pending (not enough to fire)
    let result = advance(&mut s, true);
    assert!(result.is_none());
    assert_eq!(s.phase_value(), 1); // Pending
}

#[test]
fn state_inactive_threshold_1_fires_directly() {
    let mut s = AlertState::new();
    let result = s.advance(true, t0(), NO_COOLDOWN, 1, 2);
    assert_eq!(result, Some(AlertLifecycle::Fired));
    assert_eq!(s.phase_value(), 2); // Firing
}

#[test]
fn state_pending_lost_signal_resets() {
    let mut s = AlertState::new();
    advance(&mut s, true); // → Pending
    let result = advance(&mut s, false); // signal lost
    assert!(result.is_none());
    assert_eq!(s.phase_value(), 0); // back to Inactive
}

#[test]
fn state_pending_accumulates_consecutive() {
    let mut s = AlertState::new();
    advance(&mut s, true); // count=1, Pending
    let result = advance(&mut s, true); // count=2, still Pending (need 3)
    assert!(result.is_none());
    assert_eq!(s.phase_value(), 1); // Pending
    assert_eq!(s.consecutive_count, 2);
}

#[test]
fn state_pending_reaches_threshold_fires() {
    let mut s = AlertState::new();
    advance(&mut s, true); // count=1
    advance(&mut s, true); // count=2
    let result = advance(&mut s, true); // count=3 → Fired
    assert_eq!(result, Some(AlertLifecycle::Fired));
    assert_eq!(s.phase_value(), 2); // Firing
}

#[test]
fn state_firing_signal_stays_firing() {
    let mut s = AlertState::new();
    // Fire it first (threshold=1)
    s.advance(true, t0(), NO_COOLDOWN, 1, 2);
    assert_eq!(s.phase_value(), 2);
    // Signal still present → stays Firing, no event
    let result = advance(&mut s, true);
    assert!(result.is_none());
    assert_eq!(s.phase_value(), 2);
}

#[test]
fn state_firing_resolves_after_threshold() {
    let mut s = AlertState::new();
    s.advance(true, t0(), NO_COOLDOWN, 1, 2);
    // resolve_threshold=2 → need 2 consecutive quiet ticks
    let r1 = advance(&mut s, false);
    assert!(r1.is_none(), "first quiet tick should not resolve");
    let r2 = advance(&mut s, false);
    assert_eq!(r2, Some(AlertLifecycle::Resolved));
    assert_eq!(s.phase_value(), 0); // back to Inactive
}

#[test]
fn state_is_hot_inactive_within_cooldown() {
    let mut s = AlertState::new();
    let now = t0();
    // Fire (threshold=1), then resolve (resolve_threshold=1)
    s.advance(true, now, Duration::zero(), 1, 1); // → Firing, last_fired=Some(now)
    s.advance(false, now, Duration::zero(), 1, 1); // → Inactive, last_fired preserved
    // is_hot() with large cooldown should return true
    assert!(
        s.is_hot(now, Duration::from_secs(120)),
        "should be hot within cooldown window"
    );
    // is_hot() after cooldown expires should return false
    let after_cooldown = Instant {
        nanos: now.nanos + 121 * 1_000_000_000,
    };
    assert!(
        !s.is_hot(after_cooldown, Duration::from_secs(120)),
        "should not be hot after cooldown"
    );
}

#[test]
fn state_cooldown_blocks_refire() {
    let long_cooldown = Duration::from_secs(3600);
    let mut s = AlertState::new();
    // Fire with threshold=1
    s.advance(true, t0(), long_cooldown, 1, 1);
    assert_eq!(s.phase_value(), 2); // Firing
    // Resolve (resolve_threshold=1, one quiet tick)
    s.advance(false, t0(), long_cooldown, 1, 1);
    assert_eq!(s.phase_value(), 0); // Inactive but within cooldown
    // Try to fire again — cooldown blocks it
    let result = s.advance(true, t0(), long_cooldown, 1, 1);
    assert!(result.is_none(), "cooldown should block refire");
    // Still in Pending (count=1, cooldown not passed)
    assert_eq!(s.phase_value(), 1);
}

#[test]
fn alert_kind_label_all_variants() {
    assert_eq!(AlertKind::Spike.label(), "spike");
    assert_eq!(AlertKind::Drop.label(), "drop");
    assert_eq!(AlertKind::Emergency.label(), "emergency");
}
