//! The SYN-flood pipeline.
use ebpf_xdp_program::alert::synflood_manager::SynFloodAlertLifecycleManager;
use ebpf_xdp_program::anomaly::synflood::SynFloodDetector;
use ebpf_xdp_program::binary64::Binary64;
use ebpf_xdp_program::common::SynCounter;
use ebpf_xdp_program::metrics::{Metric, MetricChange, MetricsHandle};
use ebpf_xdp_program::pipeline::synflood_runner::SynFloodRunner;
use ebpf_xdp_program::rate::model::SynCountersSnapshot;
use ebpf_xdp_program::time::{Duration, Instant};

/// A double as the library holds it.
fn b(x: f64) -> Binary64 {
    Binary64::from_bits(x.to_bits())
}

/// A number of the library as a double.
fn v(x: Binary64) -> f64 {
    f64::from_bits(x.to_bits())
}

fn start() -> Instant {
    Instant {
        nanos: 1_000_000_000_000,
    }
}

fn later(t: Instant, secs: u64) -> Instant {
    Instant {
        nanos: t.nanos + secs * 1_000_000_000,
    }
}


fn snap(t: Instant, entries: &[(u32, u64)]) -> SynCountersSnapshot {
    let counters = entries
        .iter()
        .map(|&(ip, packets)| {
            (
                ip,
                SynCounter {
                    packets,
                    bytes: packets * 60,
                },
            )
        })
        .collect();
    SynCountersSnapshot {
        timestamp: t,
        counters,
    }
}

fn make_runner(max_syn_pps: f64, top_n: usize) -> SynFloodRunner {
    SynFloodRunner::new(
        SynFloodDetector::new(b(max_syn_pps), top_n),
        SynFloodAlertLifecycleManager::new(Duration::zero(), 1, 1),
    )
}

#[test]
fn synflood_runner_tick_none_input_is_noop() {
    let mut runner = make_runner(100.0, 10);
    runner.tick(&None, start(), &mut MetricsHandle::new());
    assert!(runner.snapshot().top_offenders.is_empty());
}

#[test]
fn synflood_runner_first_snapshot_primes_prev() {
    let mut runner = make_runner(100.0, 10);
    let s = snap(start(), &[(1, 10)]);
    runner.tick(&Some(s), start(), &mut MetricsHandle::new());
    assert!(runner.snapshot().top_offenders.is_empty());
}

#[test]
fn synflood_runner_second_snapshot_detects_over_threshold() {
    let mut runner = make_runner(100.0, 10);
    let t1 = start();
    let t2 = later(t1, 1);
    runner.tick(&Some(snap(t1, &[(1, 0)])), t1, &mut MetricsHandle::new());
    runner.tick(&Some(snap(t2, &[(1, 200)])), t2, &mut MetricsHandle::new());

    let snapshot = runner.snapshot();
    assert_eq!(snapshot.top_offenders.len(), 1);
    assert_eq!(snapshot.top_offenders[0].src_ip, 1);
    assert!((v(snapshot.top_offenders[0].pps) - 200.0).abs() < 1.0);
}

#[test]
fn synflood_runner_snapshot_before_any_tick_is_empty() {
    let runner = make_runner(100.0, 10);
    let snapshot = runner.snapshot();
    assert!(snapshot.top_offenders.is_empty());
    assert!(snapshot.alerts.is_empty());
}

#[test]
fn synflood_runner_fires_after_consecutive_ticks_over_threshold() {
    // consecutive_threshold=1 (see make_runner), so a single over-threshold
    // tick is enough to reach Firing - no baseline warmup needed, unlike
    // AnomalyRunner's EWMA equivalent.
    let mut runner = make_runner(100.0, 10);
    let mut t = start();
    runner.tick(&Some(snap(t, &[(1, 0)])), t, &mut MetricsHandle::new()); // prime

    t = later(t, 1);
    runner.tick(&Some(snap(t, &[(1, 500)])), t, &mut MetricsHandle::new());

    let snapshot = runner.snapshot();
    assert_eq!(snapshot.alerts.len(), 1);
    assert_eq!(snapshot.alerts[0].phase_label, "firing");
    assert_eq!(snapshot.alerts[0].consecutive_count, 1);
    assert_eq!(snapshot.alerts[0].src_ip, 1);
}

#[test]
fn synflood_runner_tick_heartbeats_still_firing_alert() {
    let mut runner = make_runner(100.0, 10);
    let mut t = start();
    runner.tick(&Some(snap(t, &[(1, 0)])), t, &mut MetricsHandle::new()); // prime

    t = later(t, 1);
    let fired = runner.tick(&Some(snap(t, &[(1, 500)])), t, &mut MetricsHandle::new());
    assert_eq!(fired.transitions.len(), 1);
    assert!(
        fired.heartbeats.is_empty(),
        "should not double-send an alert that just fired this tick"
    );

    t = later(t, 1);
    // Cumulative counter delta must itself stay over threshold (500 -> 1000
    // over 1s = 500 pps), not just be numerically larger than 500.
    let alerts = runner.tick(&Some(snap(t, &[(1, 1000)])), t, &mut MetricsHandle::new());
    assert!(
        alerts.transitions.is_empty(),
        "still firing, no new transition"
    );
    assert_eq!(alerts.heartbeats.len(), 1);
    assert_eq!(alerts.heartbeats[0].src_ip, 1);
}

/// What the metrics set the number of active alerts to.
fn active_alerts(metrics: &mut MetricsHandle) -> Vec<f64> {
    metrics
        .take_ops()
        .iter()
        .filter(|op| op.metric == Metric::SynFloodActiveAlerts)
        .map(|op| match op.change {
            MetricChange::Assign { value } => v(value),
            MetricChange::Increment { .. } => panic!("the metric is a gauge"),
        })
        .collect()
}

#[test]
fn an_alert_that_cools_down_is_not_exported_as_active() {
    let manager = SynFloodAlertLifecycleManager::new(Duration::from_secs(3600), 1, 1);
    let mut runner = SynFloodRunner::new(SynFloodDetector::new(b(100.0), 10), manager);
    let mut metrics = MetricsHandle::new();
    let t = start();
    runner.tick(&Some(snap(t, &[(1, 0)])), t, &mut metrics);
    assert!(active_alerts(&mut metrics).is_empty());

    let t = later(t, 1);
    runner.tick(&Some(snap(t, &[(1, 500)])), t, &mut metrics);
    assert_eq!(active_alerts(&mut metrics), vec![1.0]);

    let t = later(t, 1);
    let told = runner.tick(&Some(snap(t, &[(1, 500)])), t, &mut metrics);
    assert_eq!(told.transitions.len(), 1, "the alert resolves");
    assert_eq!(active_alerts(&mut metrics), vec![0.0]);
    // The address is still tracked until the cooldown is over.
    assert_eq!(runner.snapshot().alerts.len(), 1);
    assert_eq!(runner.snapshot().alerts[0].phase_label, "inactive");
}

#[test]
fn a_pending_alert_is_exported_as_active() {
    let manager = SynFloodAlertLifecycleManager::new(Duration::zero(), 2, 1);
    let mut runner = SynFloodRunner::new(SynFloodDetector::new(b(100.0), 10), manager);
    let mut metrics = MetricsHandle::new();
    let t = start();
    runner.tick(&Some(snap(t, &[(1, 0), (2, 0)])), t, &mut metrics);
    let t = later(t, 1);
    let told = runner.tick(&Some(snap(t, &[(1, 500), (2, 900)])), t, &mut metrics);
    assert!(told.transitions.is_empty());
    assert_eq!(active_alerts(&mut metrics), vec![2.0]);
}
