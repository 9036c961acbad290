//! The port-scan pipeline.
use ebpf_xdp_program::alert::port_scan_manager::PortScanAlertLifecycleManager;
use ebpf_xdp_program::anomaly::port_scan_detector::PortScanDetector;
use ebpf_xdp_program::common::{PortScanKey, PortTouch};
use ebpf_xdp_program::metrics::MetricsHandle;
use ebpf_xdp_program::pipeline::port_scan_runner::PortScanRunner;
use ebpf_xdp_program::rate::model::PortScanCountersSnapshot;
use ebpf_xdp_program::time::{Duration, Instant};

fn start() -> Instant {
    Instant {
        nanos: 1_000_000_000_000,
    }
}


fn snap(now_ns: u64, entries: &[(u32, u16, u64)]) -> PortScanCountersSnapshot {
    let mut snap = PortScanCountersSnapshot::new(now_ns);
    for &(ip, port, last_seen_ns) in entries {
        snap.insert(PortScanKey::new(ip, port), PortTouch { last_seen_ns });
    }
    snap
}

fn make_runner(max_distinct_ports: u32, top_n: usize) -> PortScanRunner {
    PortScanRunner::new(
        PortScanDetector::new(max_distinct_ports, top_n, 30_000_000_000),
        PortScanAlertLifecycleManager::new(Duration::zero(), 1, 1),
    )
}

#[test]
fn port_scan_runner_tick_none_input_is_noop() {
    let mut runner = make_runner(20, 10);
    runner.tick(&None, start(), &mut MetricsHandle::new());
    assert!(runner.snapshot().top_scanners.is_empty());
}

#[test]
fn port_scan_runner_snapshot_before_any_tick_is_empty() {
    let runner = make_runner(20, 10);
    let snapshot = runner.snapshot();
    assert!(snapshot.top_scanners.is_empty());
    assert!(snapshot.alerts.is_empty());
}

#[test]
fn port_scan_runner_single_tick_detects_over_threshold() {
    // Unlike SynFloodRunner, no priming tick is needed: a single tick
    // with data is enough to detect, since this is a live gauge.
    let mut runner = make_runner(2, 10);
    let s = snap(
        1_000_000_000,
        &[
            (1, 80, 999_000_000),
            (1, 443, 999_000_000),
            (1, 22, 999_000_000),
        ],
    );
    runner.tick(&Some(s), start(), &mut MetricsHandle::new());

    let snapshot = runner.snapshot();
    assert_eq!(snapshot.top_scanners.len(), 1);
    assert_eq!(snapshot.top_scanners[0].src_ip, 1);
    assert_eq!(snapshot.top_scanners[0].distinct_ports, 3);
}

#[test]
fn port_scan_runner_window_excludes_stale_touches() {
    let mut runner = make_runner(1, 10);
    // Only one touch falls within the 30s window; the other is 40s stale.
    let s = snap(
        50_000_000_000,
        &[(1, 80, 49_000_000_000), (1, 443, 5_000_000_000)],
    );
    runner.tick(&Some(s), start(), &mut MetricsHandle::new());

    let snapshot = runner.snapshot();
    assert_eq!(snapshot.top_scanners.len(), 1);
    assert_eq!(snapshot.top_scanners[0].distinct_ports, 1);
}

#[test]
fn port_scan_runner_fires_after_consecutive_ticks_over_threshold() {
    // consecutive_threshold=1 (see make_runner), so a single over-threshold
    // tick is enough to reach Firing - no baseline warmup needed.
    let mut runner = make_runner(2, 10);
    let s = snap(
        1_000_000_000,
        &[
            (1, 80, 999_000_000),
            (1, 443, 999_000_000),
            (1, 22, 999_000_000),
        ],
    );
    runner.tick(&Some(s), start(), &mut MetricsHandle::new());

    let snapshot = runner.snapshot();
    assert_eq!(snapshot.alerts.len(), 1);
    assert_eq!(snapshot.alerts[0].phase_label, "firing");
    assert_eq!(snapshot.alerts[0].consecutive_count, 1);
    assert_eq!(snapshot.alerts[0].src_ip, 1);
}

#[test]
fn port_scan_runner_tick_heartbeats_still_firing_alert() {
    let mut runner = make_runner(2, 10);
    let s = snap(
        1_000_000_000,
        &[
            (1, 80, 999_000_000),
            (1, 443, 999_000_000),
            (1, 22, 999_000_000),
        ],
    );
    let fired = runner.tick(&Some(s), start(), &mut MetricsHandle::new());
    assert_eq!(fired.transitions.len(), 1);
    assert!(
        fired.heartbeats.is_empty(),
        "should not double-send an alert that just fired this tick"
    );

    // Same offending IP, still over threshold, later timestamp: still Firing.
    let s2 = snap(
        2_000_000_000,
        &[
            (1, 80, 1_999_000_000),
            (1, 443, 1_999_000_000),
            (1, 22, 1_999_000_000),
        ],
    );
    let alerts = runner.tick(&Some(s2), start(), &mut MetricsHandle::new());
    assert!(
        alerts.transitions.is_empty(),
        "still firing, no new transition"
    );
    assert_eq!(alerts.heartbeats.len(), 1);
    assert_eq!(alerts.heartbeats[0].src_ip, 1);
}
