//! Alerts in the form that Alertmanager takes.
use ebpf_xdp_program::alert::manager::{AlertLifecycleManager, AlertRule};
use ebpf_xdp_program::alert::model::{Alert, AlertKind, PortScanAlert, SynFloodAlert};
use ebpf_xdp_program::alert::state::AlertLifecycle;
use ebpf_xdp_program::alertmanager::{
    alert_to_wire, dispatch_tick_alerts, has_room, is_writable, port_scan_alert_to_wire,
    post_with_retry, push_target, settle_push, synflood_alert_to_wire, PushOutcome, Reply,
    RetryStep, RETRY_ATTEMPTS,
};
use ebpf_xdp_program::anomaly::model::AnomalyLevel;
use ebpf_xdp_program::baseline::estimator::EwmaEstimator;
use ebpf_xdp_program::binary64::Binary64;
use ebpf_xdp_program::common::ProtoIndex;
use ebpf_xdp_program::config::{build_alertmanager, default_emergency_detector};
use ebpf_xdp_program::metrics::MetricsHandle;
use ebpf_xdp_program::pipeline::runner::AnomalyRunner;
use ebpf_xdp_program::rate::model::{TrafficCounters, TrafficCountersSnapshot};
use ebpf_xdp_program::time::{Duration, Instant, UnixTime};

/// A double as the library holds it.
fn b(x: f64) -> Binary64 {
    Binary64::from_bits(x.to_bits())
}

fn noon() -> UnixTime {
    UnixTime { secs: 1_700_000_000, nanos: 1 }
}

#[test]
fn alert_to_wire_fired_has_no_ends_at() {
    let alert = Alert {
        proto: ProtoIndex::Tcp,
        kind: AlertKind::Spike,
        level: AnomalyLevel::Severe,
        confidence: b(1.0),
    };
    let wire = alert_to_wire(&alert, noon(), None, None);
    assert_eq!(wire.ends_at, None);
    assert_eq!(wire.labels.get("alertname").unwrap(), "XdpTrafficAnomaly");
    assert_eq!(wire.labels.get("proto").unwrap(), "TCP");
    assert_eq!(wire.labels.get("kind").unwrap(), "spike");
}

#[test]
fn alert_to_wire_resolved_has_ends_at() {
    let alert = Alert {
        proto: ProtoIndex::Tcp,
        kind: AlertKind::Spike,
        level: AnomalyLevel::Suspicious,
        confidence: b(0.0),
    };
    let now = noon();
    let wire = alert_to_wire(&alert, now, Some(now), None);
    assert!(wire.ends_at.is_some());
}

/// Alertmanager correlates Fired<->Resolved purely by exact label-set
/// equality. A `Resolved` event's `level`/`confidence` come from the
/// rule's `min_level`/`0.0`, not the firing signal, so if these fields leaked into
/// labels, Fired and Resolved would get different fingerprints and
/// Alertmanager would never actually resolve the alert.
#[test]
fn alert_to_wire_labels_stable_across_fired_and_resolved() {
    let fired = Alert {
        proto: ProtoIndex::Tcp,
        kind: AlertKind::Spike,
        level: AnomalyLevel::Severe,
        confidence: b(1.0),
    };
    let resolved = Alert {
        proto: ProtoIndex::Tcp,
        kind: AlertKind::Spike,
        level: AnomalyLevel::Suspicious, // rule.min_level placeholder
        confidence: b(0.0),
    };
    let now = noon();
    let fired_wire = alert_to_wire(&fired, now, None, None);
    let resolved_wire = alert_to_wire(&resolved, now, Some(now), None);
    assert_eq!(fired_wire.labels, resolved_wire.labels);
}

#[test]
fn synflood_alert_to_wire_labels_stable_across_pps_change() {
    let ip = 0x0a00_0001;
    let a = SynFloodAlert {
        src_ip: ip,
        pps: b(5000.0),
        confidence: b(1.0),
    };
    let after = SynFloodAlert {
        src_ip: ip,
        pps: b(0.0),
        confidence: b(0.0),
    };
    let now = noon();
    let wire_a = synflood_alert_to_wire(&a, now, None, None);
    let wire_b = synflood_alert_to_wire(&after, now, Some(now), None);
    assert_eq!(wire_a.labels, wire_b.labels);
    assert_eq!(wire_a.labels.get("src_ip").unwrap(), "10.0.0.1");
}

#[test]
fn port_scan_alert_to_wire_labels_stable_across_distinct_ports_change() {
    let ip = 0x0a00_0002;
    let a = PortScanAlert {
        src_ip: ip,
        distinct_ports: 50,
        confidence: b(1.0),
    };
    let after = PortScanAlert {
        src_ip: ip,
        distinct_ports: 0,
        confidence: b(0.0),
    };
    let now = noon();
    let wire_a = port_scan_alert_to_wire(&a, now, None, None);
    let wire_b = port_scan_alert_to_wire(&after, now, Some(now), None);
    assert_eq!(wire_a.labels, wire_b.labels);
}

#[test]
fn generator_url_none_omits_field_from_json() {
    let alert = Alert {
        proto: ProtoIndex::Tcp,
        kind: AlertKind::Emergency,
        level: AnomalyLevel::Severe,
        confidence: b(1.0),
    };
    let wire = alert_to_wire(&alert, noon(), None, None);
    assert!(wire.generator_url.is_none());
    assert!(wire.ends_at.is_none());
}

#[test]
fn generator_url_some_is_included_in_json() {
    let alert = Alert {
        proto: ProtoIndex::Tcp,
        kind: AlertKind::Emergency,
        level: AnomalyLevel::Severe,
        confidence: b(1.0),
    };
    let wire = alert_to_wire(
        &alert,
        noon(),
        None,
        Some("http://localhost:8080/anomalies"),
    );
    assert_eq!(wire.generator_url.as_deref(), Some("http://localhost:8080/anomalies"));
}

#[test]
fn dispatch_tick_alerts_is_noop_when_sink_none() {
    let alert = Alert {
        proto: ProtoIndex::Tcp,
        kind: AlertKind::Spike,
        level: AnomalyLevel::Severe,
        confidence: b(1.0),
    };
    let pushed = dispatch_tick_alerts(
        false,
        None,
        &[(alert, AlertLifecycle::Fired)],
        &[alert],
        noon(),
    );
    assert!(pushed.is_empty());
}

#[test]
fn dispatch_tick_alerts_marks_only_resolved_transitions_with_ends_at() {
    let fired = Alert {
        proto: ProtoIndex::Tcp,
        kind: AlertKind::Spike,
        level: AnomalyLevel::Severe,
        confidence: b(1.0),
    };
    let resolved = Alert {
        proto: ProtoIndex::Udp,
        kind: AlertKind::Drop,
        level: AnomalyLevel::Suspicious,
        confidence: b(0.0),
    };

    let pushed = dispatch_tick_alerts(
        true,
        None,
        &[
            (fired, AlertLifecycle::Fired),
            (resolved, AlertLifecycle::Resolved),
        ],
        &[],
        noon(),
    );

    assert_eq!(pushed[0].ends_at, None);
    assert!(pushed[1].ends_at.is_some());
    assert_eq!(pushed.len(), 2, "no further alerts expected");
}

#[test]
fn dispatch_tick_alerts_heartbeats_never_have_ends_at() {
    let alert = Alert {
        proto: ProtoIndex::Tcp,
        kind: AlertKind::Spike,
        level: AnomalyLevel::Severe,
        confidence: b(1.0),
    };

    let pushed = dispatch_tick_alerts(true, None, &[], &[alert], noon());

    assert_eq!(pushed[0].ends_at, None);
    assert_eq!(pushed.len(), 1, "no further alerts expected");
}


#[test]
fn post_with_retry_gives_up_after_max_attempts_on_500() {
    let mut attempts = 0;
    let mut waits = vec![];
    let result = loop {
        let step = post_with_retry(attempts, Reply::Status { code: 500 });
        attempts += 1;
        match step {
            RetryStep::Wait { millis } => waits.push(millis),
            other => break other,
        }
    };
    assert_eq!(result, RetryStep::GiveUp, "should give up after exhausting retries");
    assert_eq!(
        attempts, RETRY_ATTEMPTS,
        "should have attempted exactly RETRY_ATTEMPTS times, no more no less"
    );
    assert_eq!(waits, vec![300, 600]);
}

#[test]
fn post_with_retry_delivers_batch_on_success() {
    assert_eq!(post_with_retry(0, Reply::Status { code: 200 }), RetryStep::Delivered);
    assert_eq!(post_with_retry(2, Reply::Status { code: 299 }), RetryStep::Delivered);
}

#[test]
fn refused_requests_are_not_sent_again() {
    assert_eq!(post_with_retry(0, Reply::Status { code: 400 }), RetryStep::Rejected);
    assert_eq!(post_with_retry(0, Reply::Status { code: 499 }), RetryStep::Rejected);
    assert_eq!(post_with_retry(0, Reply::Status { code: 302 }), RetryStep::Wait { millis: 300 });
    assert_eq!(post_with_retry(1, Reply::TransportError), RetryStep::Wait { millis: 600 });
    assert_eq!(post_with_retry(2, Reply::TransportError), RetryStep::GiveUp);
}

#[test]
fn dates_are_written_as_rfc_3339() {
    let alert = Alert {
        proto: ProtoIndex::Udp,
        kind: AlertKind::Drop,
        level: AnomalyLevel::Suspicious,
        confidence: b(0.25),
    };
    let whole = UnixTime { secs: 951_782_400, nanos: 0 };
    let wire = alert_to_wire(&alert, whole, Some(noon()), None);
    assert_eq!(wire.starts_at, "2000-02-29T00:00:00Z");
    assert_eq!(wire.ends_at.as_deref(), Some("2023-11-14T22:13:20.000000001Z"));
}

#[test]
fn alerts_say_what_happened() {
    let alert = Alert {
        proto: ProtoIndex::Tcp,
        kind: AlertKind::Spike,
        level: AnomalyLevel::Severe,
        confidence: b(0.6666666),
    };
    let wire = alert_to_wire(&alert, noon(), None, None);
    assert_eq!(wire.annotations.get("level").unwrap(), "severe");
    assert_eq!(wire.annotations.get("confidence").unwrap(), "0.667");
    assert_eq!(
        wire.annotations.get("summary").unwrap(),
        "severe spike anomaly on TCP traffic"
    );
    assert_eq!(wire.annotations.get("proto"), None);

    let flood = SynFloodAlert { src_ip: 0xc0a8_01fe, pps: b(1234.56), confidence: b(1.0) };
    let wire = synflood_alert_to_wire(&flood, noon(), None, None);
    assert_eq!(wire.labels.get("alertname").unwrap(), "XdpSynFlood");
    assert_eq!(wire.annotations.get("pps").unwrap(), "1234.6");
    assert_eq!(wire.annotations.get("confidence").unwrap(), "1.000");
    assert_eq!(wire.annotations.get("summary").unwrap(), "SYN-flood from 192.168.1.254");

    let scan = PortScanAlert { src_ip: 0x0a00_0002, distinct_ports: 120, confidence: b(0.5) };
    let wire = port_scan_alert_to_wire(&scan, noon(), None, None);
    assert_eq!(wire.labels.get("alertname").unwrap(), "XdpPortScan");
    assert_eq!(wire.labels.get("src_ip").unwrap(), "10.0.0.2");
    assert_eq!(wire.annotations.get("distinct_ports").unwrap(), "120");
    assert_eq!(wire.annotations.get("summary").unwrap(), "Port scan from 10.0.0.2");
}

#[test]
fn names_are_in_order_and_occur_once() {
    let alert = Alert {
        proto: ProtoIndex::Tcp,
        kind: AlertKind::Spike,
        level: AnomalyLevel::Severe,
        confidence: b(1.0),
    };
    let wire = alert_to_wire(&alert, noon(), None, None);
    let names: Vec<&str> = wire.labels.entries.iter().map(|e| e.0.as_str()).collect();
    assert_eq!(names, vec!["alertname", "kind", "proto"]);
    let names: Vec<&str> = wire.annotations.entries.iter().map(|e| e.0.as_str()).collect();
    assert_eq!(names, vec!["confidence", "level", "summary"]);
}

#[test]
fn labels_tell_alerts_apart() {
    let alert = |proto, kind| Alert {
        proto,
        kind,
        level: AnomalyLevel::Severe,
        confidence: b(1.0),
    };
    let one = alert_to_wire(&alert(ProtoIndex::Tcp, AlertKind::Spike), noon(), None, None);
    let two = alert_to_wire(&alert(ProtoIndex::Tcp, AlertKind::Drop), noon(), None, None);
    let three = alert_to_wire(&alert(ProtoIndex::Udp, AlertKind::Spike), noon(), None, None);
    assert_ne!(one.labels, two.labels);
    assert_ne!(one.labels, three.labels);
}

#[test]
fn times_without_a_date_are_told_apart() {
    assert!(is_writable(UnixTime { secs: 253_402_300_799, nanos: 999_999_999 }));
    assert!(!is_writable(UnixTime { secs: 253_402_300_800, nanos: 0 }));
    assert!(!is_writable(UnixTime { secs: 0, nanos: 1_000_000_000 }));
}

#[test]
fn only_alerts_lost_to_a_full_queue_are_counted() {
    let mut metrics = MetricsHandle::new();
    settle_push(PushOutcome::Queued, &mut metrics);
    settle_push(PushOutcome::Closed, &mut metrics);
    assert!(metrics.take_ops().is_empty());
    settle_push(PushOutcome::Full, &mut metrics);
    assert_eq!(metrics.take_ops().len(), 1);
}

#[test]
fn batches_hold_at_most_sixty_four() {
    assert!(has_room(63));
    assert!(!has_room(64));
}

#[test]
fn nothing_is_pushed_unless_enabled() {
    let mut cfg = build_alertmanager(None).unwrap();
    assert!(push_target(&cfg).is_none());
    cfg.enabled = true;
    cfg.url = Some("http://am:9093".to_string());
    assert_eq!(push_target(&cfg).unwrap(), "http://am:9093");
}

fn counters(
    t: Instant,
    other_pkts: u64,
    other_bytes: u64,
    tcp_pkts: u64,
    tcp_bytes: u64,
) -> TrafficCountersSnapshot {
    let stats = (0..ProtoIndex::COUNT as usize)
        .map(|i| {
            if ProtoIndex::from_index(i) == Some(ProtoIndex::Tcp) {
                TrafficCounters {
                    packets: tcp_pkts,
                    bytes: tcp_bytes,
                }
            } else {
                TrafficCounters {
                    packets: other_pkts,
                    bytes: other_bytes,
                }
            }
        })
        .collect();
    TrafficCountersSnapshot {
        timestamp: t,
        stats,
    }
}

/// The pipeline warms up its baseline and fires on a spike, and what it tells goes into what
/// Alertmanager is told.
#[test]
fn pipeline_to_alertmanager_end_to_end() {
    let estimator = EwmaEstimator::new(b(0.4), 10, b(1e-3), 0);
    let mut runner = AnomalyRunner::new(
        estimator,
        default_emergency_detector(),
        AlertLifecycleManager::new(vec![AlertRule {
            kind: AlertKind::Spike,
            min_level: AnomalyLevel::Suspicious,
            min_confidence: b(0.0),
            cooldown: Duration::zero(),
            consecutive_threshold: 1,
            resolve_consecutive_threshold: 1,
            freezes_baseline: false,
        }]),
    );
    let mut metrics = MetricsHandle::new();
    let mut t = Instant { nanos: 1_000_000_000 };
    let mut pkts = 100u64;
    let mut bytes = 10_000u64;
    runner.tick(&Some(counters(t, pkts, bytes, pkts, bytes)), t, &mut metrics);

    for i in 0..20 {
        t.nanos += 1_000_000_000;
        if i % 2 == 0 {
            pkts += 100;
            bytes += 10_000;
        } else {
            pkts += 50;
            bytes += 5_000;
        }
        runner.tick(&Some(counters(t, pkts, bytes, pkts, bytes)), t, &mut metrics);
    }
    assert!(runner.warmed_up(), "baseline should be ready by now");

    t.nanos += 1_000_000_000;
    let tcp_pkts = pkts + 10_000_000;
    let tcp_bytes = bytes + 1_000_000_000;
    pkts += 100;
    bytes += 10_000;
    let alerts = runner.tick(
        &Some(counters(t, pkts, bytes, tcp_pkts, tcp_bytes)),
        t,
        &mut metrics,
    );
    assert!(
        !alerts.transitions.is_empty(),
        "expected the injected spike to fire an alert"
    );

    let transitions: Vec<(Alert, AlertLifecycle)> =
        alerts.transitions.iter().map(|e| (e.alert, e.lifecycle)).collect();
    let pushed = dispatch_tick_alerts(
        true,
        Some("http://test-host:8080/anomalies"),
        &transitions,
        &alerts.heartbeats,
        noon(),
    );
    let posted = &pushed[0];
    assert_eq!(posted.labels.get("alertname").unwrap(), "XdpTrafficAnomaly");
    assert_eq!(posted.labels.get("proto").unwrap(), "TCP");
    assert_eq!(posted.labels.get("kind").unwrap(), "spike");
    assert_eq!(
        posted.generator_url.as_deref(),
        Some("http://test-host:8080/anomalies")
    );
    assert!(posted.ends_at.is_none(), "a Fired transition must not carry endsAt");
}

#[test]
fn labels_tell_addresses_apart() {
    let flood = |src_ip| SynFloodAlert { src_ip, pps: b(1.0), confidence: b(1.0) };
    let scan = PortScanAlert { src_ip: 0x0101_0b01, distinct_ports: 1, confidence: b(1.0) };
    let one = synflood_alert_to_wire(&flood(0x0101_0b01), noon(), None, None);
    let two = synflood_alert_to_wire(&flood(0x010b_0101), noon(), None, None);
    let three = port_scan_alert_to_wire(&scan, noon(), None, None);
    assert_ne!(one.labels, two.labels);
    assert_ne!(one.labels, three.labels);
}
