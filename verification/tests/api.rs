//! What the read-only interface answers.
use ebpf_xdp_program::alert::manager::AlertLifecycleManager;
use ebpf_xdp_program::alert::model::AlertKind;
use ebpf_xdp_program::alert::view::{PortScanAlertSlotSnapshot, SynFloodAlertSlotSnapshot};
use ebpf_xdp_program::anomaly::detector::AnomalyView;
use ebpf_xdp_program::anomaly::model::AnomalyLevel;
use ebpf_xdp_program::api::anomalies::{alert_slot_view, anomalies, proto_view};
use ebpf_xdp_program::api::health::health;
use ebpf_xdp_program::api::port_scan::port_scan;
use ebpf_xdp_program::api::synflood::synflood;
use ebpf_xdp_program::api::ApiState;
use ebpf_xdp_program::baseline::estimator::{BaselineState, BaselineStats, ProtoBaseline};
use ebpf_xdp_program::binary64::Binary64;
use ebpf_xdp_program::common::ProtoIndex;
use ebpf_xdp_program::config::{
    default_alert_rules, default_baseline_estimator, default_emergency_detector,
};
use ebpf_xdp_program::metrics::MetricsHandle;
use ebpf_xdp_program::pipeline::runner::AnomalyRunner;
use ebpf_xdp_program::pipeline::view::{
    AlertSlotSnapshot, PortScanSnapshot, ProtoSnapshot, SynFloodSnapshot,
};
use ebpf_xdp_program::rate::model::{
    PortScanIpBreadth, ProtoRate, SynIpRate, TrafficCounters, TrafficCountersSnapshot,
};
use ebpf_xdp_program::time::Instant;

/// A double as the library holds it.
fn b(x: f64) -> Binary64 {
    Binary64::from_bits(x.to_bits())
}

/// A number of the library as a double.
fn v(x: Binary64) -> f64 {
    f64::from_bits(x.to_bits())
}

fn start() -> Instant {
    Instant {
        nanos: 1_000_000_000_000,
    }
}

fn later(t: Instant, millis: u64) -> Instant {
    Instant {
        nanos: t.nanos + millis * 1_000_000,
    }
}

#[test]
fn health_reports_ok_with_no_ticks_yet() {
    let answer = health(&ApiState::new(start()), start());
    assert_eq!(answer.status, "ok");
    assert_eq!(answer.uptime_secs, 0);
    assert!(!answer.baseline_warmed_up);
    assert!(answer.last_stats_age_secs.is_none());
}

#[test]
fn health_reflects_warmed_up_and_stats_freshness() {
    let mut state = ApiState::new(start());
    state.warmed_up = true;
    state.last_stats_at = Some(later(start(), 2_000));
    let answer = health(&state, later(start(), 3_500));
    assert!(answer.baseline_warmed_up);
    assert_eq!(answer.uptime_secs, 3);
    assert_eq!(answer.last_stats_age_secs.map(v), Some(1.5));
}

#[test]
fn anomalies_empty_before_any_tick() {
    assert!(anomalies(&ApiState::new(start())).protocols.is_empty());
}

fn counters(t: Instant, packets: u64, bytes: u64) -> TrafficCountersSnapshot {
    TrafficCountersSnapshot {
        timestamp: t,
        stats: (0..ProtoIndex::COUNT as usize)
            .map(|_| TrafficCounters { packets, bytes })
            .collect(),
    }
}

#[test]
fn anomalies_reflects_runner_snapshot_after_a_tick() {
    let mut runner = AnomalyRunner::new(
        default_baseline_estimator(),
        default_emergency_detector(),
        AlertLifecycleManager::new(default_alert_rules()),
    );
    let t1 = start();
    let t2 = later(t1, 1_000);
    let mut metrics = MetricsHandle::new();
    runner.tick(&Some(counters(t1, 100, 10_000)), t1, &mut metrics);
    runner.tick(&Some(counters(t2, 200, 20_000)), t2, &mut metrics);

    let mut state = ApiState::new(t1);
    state.runner_snapshot = Some(runner.snapshot(t2));
    let answer = anomalies(&state);
    assert_eq!(answer.protocols.len(), ProtoIndex::COUNT as usize);
    let tcp = answer
        .protocols
        .iter()
        .find(|p| p.proto == "tcp")
        .expect("tcp entry present");
    assert_eq!(tcp.pps.map(v), Some(100.0), "rate should be populated");
    assert_eq!(tcp.bps.map(v), Some(10_000.0));
    assert!(!tcp.baseline_ready);
}

#[test]
fn alert_slot_view_maps_fields() {
    let slot = AlertSlotSnapshot {
        kind: AlertKind::Spike,
        phase_label: "firing",
        consecutive_count: 5,
    };
    let view = alert_slot_view(&slot);
    assert_eq!(view.kind, "spike");
    assert_eq!(view.phase, "firing");
    assert_eq!(view.consecutive_count, 5);
}

#[test]
fn proto_view_warming_has_no_anomaly_when_rate_absent() {
    let snapshot = ProtoSnapshot {
        proto: ProtoIndex::Tcp,
        rate: None,
        baseline: BaselineState::Warming,
        anomaly: None,
        alerts: vec![],
        frozen: false,
    };
    let view = proto_view(&snapshot);
    assert_eq!(view.proto, "tcp");
    assert!(view.pps.is_none());
    assert!(!view.baseline_ready);
    assert!(view.level.is_none());
}

#[test]
fn a_ready_protocol_is_shown_whole() {
    let snapshot = ProtoSnapshot {
        proto: ProtoIndex::Ipv6,
        rate: Some(ProtoRate { proto: ProtoIndex::Ipv6, pps: b(140.0), bps: b(10_000.0) }),
        baseline: BaselineState::Ready {
            baseline: ProtoBaseline {
                pps: BaselineStats { mean: b(100.0), stddev: b(10.0) },
                bps: BaselineStats { mean: b(10_000.0), stddev: b(1_000.0) },
            },
        },
        anomaly: Some(AnomalyView {
            z_pps: b(4.0),
            z_bps: b(0.0),
            level: AnomalyLevel::Suspicious,
            confidence: b(0.4),
        }),
        alerts: vec![AlertSlotSnapshot {
            kind: AlertKind::Drop,
            phase_label: "pending",
            consecutive_count: 2,
        }],
        frozen: true,
    };
    let view = proto_view(&snapshot);
    assert_eq!(view.proto, "ipv6");
    assert_eq!(view.pps.map(v), Some(140.0));
    assert!(view.baseline_ready);
    assert_eq!(view.baseline_pps_mean.map(v), Some(100.0));
    assert_eq!(view.baseline_pps_stddev.map(v), Some(10.0));
    assert_eq!(view.baseline_bps_mean.map(v), Some(10_000.0));
    assert_eq!(view.baseline_bps_stddev.map(v), Some(1_000.0));
    assert_eq!(view.z_score_pps.map(v), Some(4.0));
    assert_eq!(view.z_score_bps.map(v), Some(0.0));
    assert_eq!(view.level, Some("suspicious"));
    assert_eq!(view.confidence.map(v), Some(0.4));
    assert!(view.frozen);
    assert_eq!(view.alerts[0].kind, "drop");
}

#[test]
fn synflood_empty_before_any_tick() {
    let answer = synflood(&ApiState::new(start()));
    assert!(answer.top_offenders.is_empty());
    assert_eq!(answer.active_alert_count, 0);
}

#[test]
fn synflood_reflects_runner_snapshot_after_a_tick() {
    let mut state = ApiState::new(start());
    state.synflood_snapshot = Some(SynFloodSnapshot {
        top_offenders: vec![SynIpRate { src_ip: 1, pps: b(250.0) }],
        alerts: vec![SynFloodAlertSlotSnapshot {
            src_ip: 1,
            phase_label: "firing",
            consecutive_count: 3,
        }],
    });
    let answer = synflood(&state);
    assert_eq!(answer.top_offenders.len(), 1);
    assert_eq!(answer.top_offenders[0].src_ip, "0.0.0.1");
    assert_eq!(v(answer.top_offenders[0].pps), 250.0);
    assert_eq!(answer.top_offenders[0].alert_phase, Some("firing"));
    assert_eq!(answer.top_offenders[0].alert_consecutive_count, Some(3));
    assert_eq!(answer.active_alert_count, 1);
}

#[test]
fn synflood_offender_view_maps_alert_phase_when_present() {
    let snapshot = SynFloodSnapshot {
        top_offenders: vec![
            SynIpRate { src_ip: 1, pps: b(50.0) },
            SynIpRate { src_ip: 2, pps: b(300.0) },
        ],
        alerts: vec![SynFloodAlertSlotSnapshot {
            src_ip: 2,
            phase_label: "pending",
            consecutive_count: 1,
        }],
    };
    let view = ebpf_xdp_program::api::synflood::to_view(&snapshot);
    assert_eq!(view.active_alert_count, 1);
    let ip1 = view.top_offenders.iter().find(|o| o.src_ip == "0.0.0.1").unwrap();
    assert!(ip1.alert_phase.is_none());
    assert!(ip1.alert_consecutive_count.is_none());
    let ip2 = view.top_offenders.iter().find(|o| o.src_ip == "0.0.0.2").unwrap();
    assert_eq!(ip2.alert_phase, Some("pending"));
    assert_eq!(ip2.alert_consecutive_count, Some(1));
}

#[test]
fn port_scan_empty_before_any_tick() {
    let answer = port_scan(&ApiState::new(start()));
    assert!(answer.top_scanners.is_empty());
    assert_eq!(answer.active_alert_count, 0);
}

#[test]
fn port_scan_reflects_runner_snapshot_after_a_tick() {
    let mut state = ApiState::new(start());
    state.port_scan_snapshot = Some(PortScanSnapshot {
        top_scanners: vec![PortScanIpBreadth { src_ip: 1, distinct_ports: 42 }],
        alerts: vec![PortScanAlertSlotSnapshot {
            src_ip: 1,
            phase_label: "firing",
            consecutive_count: 3,
        }],
    });
    let answer = port_scan(&state);
    assert_eq!(answer.top_scanners.len(), 1);
    assert_eq!(answer.top_scanners[0].src_ip, "0.0.0.1");
    assert_eq!(answer.top_scanners[0].distinct_ports, 42);
    assert_eq!(answer.top_scanners[0].alert_phase, Some("firing"));
    assert_eq!(answer.top_scanners[0].alert_consecutive_count, Some(3));
    assert_eq!(answer.active_alert_count, 1);
}

#[test]
fn port_scan_offender_view_maps_alert_phase_when_present() {
    let snapshot = PortScanSnapshot {
        top_scanners: vec![
            PortScanIpBreadth { src_ip: 1, distinct_ports: 5 },
            PortScanIpBreadth { src_ip: 2, distinct_ports: 30 },
        ],
        alerts: vec![PortScanAlertSlotSnapshot {
            src_ip: 2,
            phase_label: "pending",
            consecutive_count: 1,
        }],
    };
    let view = ebpf_xdp_program::api::port_scan::to_view(&snapshot);
    assert_eq!(view.active_alert_count, 1);
    let ip1 = view.top_scanners.iter().find(|o| o.src_ip == "0.0.0.1").unwrap();
    assert!(ip1.alert_phase.is_none());
    assert!(ip1.alert_consecutive_count.is_none());
    let ip2 = view.top_scanners.iter().find(|o| o.src_ip == "0.0.0.2").unwrap();
    assert_eq!(ip2.alert_phase, Some("pending"));
    assert_eq!(ip2.alert_consecutive_count, Some(1));
}
