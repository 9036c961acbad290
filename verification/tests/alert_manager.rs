//! Alerts per protocol and kind.
use ebpf_xdp_program::alert::manager::{AlertManager, AlertRule};
use ebpf_xdp_program::alert::model::{AlertKind, AlertSignal};
use ebpf_xdp_program::alert::state::AlertLifecycle;
use ebpf_xdp_program::anomaly::model::AnomalyLevel;
use ebpf_xdp_program::binary64::Binary64;
use ebpf_xdp_program::common::ProtoIndex;
use ebpf_xdp_program::time::{Duration, Instant};

/// A double as the library holds it.
fn b(x: f64) -> Binary64 {
    Binary64::from_bits(x.to_bits())
}

fn t0() -> Instant {
    Instant { nanos: 1_000_000_000_000 }
}

fn spike_signal(proto: ProtoIndex, level: AnomalyLevel, confidence: f64) -> AlertSignal {
    AlertSignal { proto, level, kind: AlertKind::Spike, confidence: b(confidence) }
}

fn spike_rule(min_level: AnomalyLevel, min_confidence: f64, threshold: u32) -> AlertRule {
    AlertRule {
        kind: AlertKind::Spike,
        min_level,
        min_confidence: b(min_confidence),
        cooldown: Duration::zero(),
        consecutive_threshold: threshold,
        resolve_consecutive_threshold: 1,
        freezes_baseline: false,
    }
}

fn spike_rule_freezing(threshold: u32) -> AlertRule {
    AlertRule {
        kind: AlertKind::Spike,
        min_level: AnomalyLevel::Suspicious,
        min_confidence: b(0.0),
        cooldown: Duration::zero(),
        consecutive_threshold: threshold,
        resolve_consecutive_threshold: 1,
        freezes_baseline: true,
    }
}

#[test]
fn manager_no_rules_no_events() {
    let mut mgr = AlertManager::new(vec![]);
    let events = mgr.evaluate(
        &[spike_signal(ProtoIndex::Tcp, AnomalyLevel::Severe, 1.0)],
        t0(),
    );
    assert!(events.is_empty());
}

#[test]
fn manager_signal_below_min_level() {
    let mut mgr = AlertManager::new(vec![spike_rule(AnomalyLevel::Suspicious, 0.0, 1)]);
    // Normal level signal — below Suspicious threshold
    let events = mgr.evaluate(
        &[spike_signal(ProtoIndex::Tcp, AnomalyLevel::Normal, 1.0)],
        t0(),
    );
    assert!(events.is_empty());
}

#[test]
fn manager_signal_below_confidence() {
    let mut mgr = AlertManager::new(vec![spike_rule(AnomalyLevel::Suspicious, 0.6, 1)]);
    let events = mgr.evaluate(
        &[spike_signal(ProtoIndex::Tcp, AnomalyLevel::Suspicious, 0.3)],
        t0(),
    );
    assert!(events.is_empty());
}

#[test]
fn manager_fires_after_consecutive() {
    let mut mgr = AlertManager::new(vec![spike_rule(AnomalyLevel::Suspicious, 0.0, 3)]);
    let signal = || spike_signal(ProtoIndex::Tcp, AnomalyLevel::Suspicious, 1.0);
    let now = t0();

    let e1 = mgr.evaluate(&[signal()], now);
    let e2 = mgr.evaluate(&[signal()], now);
    let e3 = mgr.evaluate(&[signal()], now);

    assert!(e1.is_empty(), "should not fire on tick 1");
    assert!(e2.is_empty(), "should not fire on tick 2");
    assert_eq!(e3.len(), 1, "should fire on tick 3");
    assert!(matches!(e3[0].lifecycle, AlertLifecycle::Fired));
}

#[test]
fn manager_resolves_after_quiet() {
    let mut mgr = AlertManager::new(vec![spike_rule(AnomalyLevel::Suspicious, 0.0, 1)]);
    let signal = || spike_signal(ProtoIndex::Tcp, AnomalyLevel::Suspicious, 1.0);
    let now = t0();

    // Fire
    let fired = mgr.evaluate(&[signal()], now);
    assert_eq!(fired.len(), 1);
    assert!(matches!(fired[0].lifecycle, AlertLifecycle::Fired));

    // Quiet tick → resolve (resolve_threshold=1)
    let resolved = mgr.evaluate(&[], now);
    assert_eq!(resolved.len(), 1);
    assert!(matches!(resolved[0].lifecycle, AlertLifecycle::Resolved));
}

#[test]
fn manager_kind_mismatch_signal_ignored() {
    // Rule is Spike-only; a Drop signal should be filtered out entirely.
    let mut mgr = AlertManager::new(vec![spike_rule(AnomalyLevel::Suspicious, 0.0, 1)]);
    let drop_signal = AlertSignal {
        proto: ProtoIndex::Tcp,
        level: AnomalyLevel::Suspicious,
        kind: AlertKind::Drop,
        confidence: b(1.0),
    };
    let events = mgr.evaluate(&[drop_signal], t0());
    assert!(events.is_empty(), "Drop signal should be ignored by Spike-only rule");
}

#[test]
fn manager_frozen_protos_during_hot() {
    let mut mgr = AlertManager::new(vec![spike_rule_freezing(1)]);
    let signal = spike_signal(ProtoIndex::Tcp, AnomalyLevel::Suspicious, 1.0);
    let now = t0();

    mgr.evaluate(&[signal], now);

    let frozen = mgr.frozen_protos(now);
    assert!(frozen.contains(&ProtoIndex::Tcp), "TCP should be frozen after firing");
}
