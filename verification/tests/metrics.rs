//! What is exported as metrics.
use ebpf_xdp_program::alert::model::AlertKind;
use ebpf_xdp_program::alert::state::AlertLifecycle;
use ebpf_xdp_program::alert::view::AlertMetricsSnapshot;
use ebpf_xdp_program::baseline::estimator::EwmaEstimator;
use ebpf_xdp_program::binary64::Binary64;
use ebpf_xdp_program::common::ProtoIndex;
use ebpf_xdp_program::metrics::{
    register_descriptions, Metric, MetricChange, MetricOp, MetricType, MetricUnit, MetricsHandle,
};
use ebpf_xdp_program::pipeline::mix::{checked_total_bytes, report_mix};
use ebpf_xdp_program::rate::model::{PortScanIpBreadth, ProtoRate, SynIpRate, TrafficCounters};

fn b(x: f64) -> Binary64 {
    Binary64::from_bits(x.to_bits())
}

fn v(x: Binary64) -> f64 {
    f64::from_bits(x.to_bits())
}

/// What an operation says, in plain values.
fn plain(op: &MetricOp) -> (&'static str, Option<&'static str>, f64) {
    let value = match op.change {
        MetricChange::Assign { value } => v(value),
        MetricChange::Increment { by } => by as f64,
    };
    (op.metric.name(), op.proto.map(|p| p.label()), value)
}

fn rate(proto: ProtoIndex, pps: f64, bps: f64) -> ProtoRate {
    ProtoRate {
        proto,
        pps: b(pps),
        bps: b(bps),
    }
}

#[test]
fn metrics_are_described() {
    let all = register_descriptions();
    assert_eq!(all.len(), 19);
    assert_eq!(all[0].metric.name(), "xdp_traffic_pps");
    assert_eq!(all[0].metric_type, MetricType::Gauge);
    assert_eq!(all[0].unit, MetricUnit::CountPerSecond);
    assert_eq!(all[0].help, "Packets per second per protocol");
    assert_eq!(all[15].metric.name(), "xdp_alert_events_total");
    assert_eq!(all[15].metric_type, MetricType::Counter);
    assert_eq!(all[18].metric.name(), "xdp_synflood_alert_events_total");
}

#[test]
fn rates_and_mix_are_exported() {
    let mut m = MetricsHandle::new();
    m.update_rates(&[rate(ProtoIndex::Tcp, 5.0, 50.0)]);
    m.update_mix(&[(ProtoIndex::Udp, b(12.5))]);
    let ops = m.take_ops();
    let said: Vec<_> = ops.iter().map(plain).collect();
    assert_eq!(
        said,
        vec![
            ("xdp_traffic_pps", Some("TCP"), 5.0),
            ("xdp_traffic_bps", Some("TCP"), 50.0),
            ("xdp_traffic_mix_pct", Some("UDP"), 12.5),
        ]
    );
    assert!(m.take_ops().is_empty());
}

#[test]
fn baselines_are_exported_once_ready() {
    let mut e = EwmaEstimator::new(b(0.4), 2, b(1e-3), 0);
    let mut m = MetricsHandle::new();
    m.update_baseline(&e);
    let warming = m.take_ops();
    assert_eq!(warming.len(), 5);
    assert!(warming.iter().all(|op| op.metric == Metric::BaselineReady && plain(op).2 == 0.0));
    for x in [100.0, 200.0, 100.0] {
        e.update(&[rate(ProtoIndex::Tcp, x, x)]);
    }
    m.update_baseline(&e);
    let ops = m.take_ops();
    assert_eq!(ops.len(), 9);
    assert_eq!(plain(&ops[1]), ("xdp_baseline_ready", Some("TCP"), 1.0));
    assert_eq!(ops[2].metric, Metric::BaselinePpsMean);
}

#[test]
fn anomalies_are_exported_as_zero_while_warming() {
    let e = EwmaEstimator::new(b(0.4), 2, b(1e-3), 0);
    let mut m = MetricsHandle::new();
    m.update_anomaly(&[rate(ProtoIndex::Icmp, 1e6, 1e6)], &e);
    let ops = m.take_ops();
    let said: Vec<_> = ops.iter().map(plain).collect();
    assert_eq!(
        said,
        vec![
            ("xdp_anomaly_z_score_pps", Some("ICMP"), 0.0),
            ("xdp_anomaly_z_score_bps", Some("ICMP"), 0.0),
            ("xdp_anomaly_level", Some("ICMP"), 0.0),
            ("xdp_anomaly_confidence", Some("ICMP"), 0.0),
        ]
    );
}

#[test]
fn alerts_are_exported() {
    let mut m = MetricsHandle::new();
    let snap = AlertMetricsSnapshot {
        proto: ProtoIndex::Udp,
        kind: AlertKind::Spike,
        phase_value: 2,
        phase_label: "firing",
        consecutive_count: 7,
    };
    m.update_alerts(&[snap], &[ProtoIndex::Udp]);
    let ops = m.take_ops();
    assert_eq!(ops.len(), 7);
    assert_eq!(plain(&ops[1]), ("xdp_alert_baseline_frozen", Some("TCP"), 0.0));
    assert_eq!(plain(&ops[2]), ("xdp_alert_baseline_frozen", Some("UDP"), 1.0));
    assert_eq!(plain(&ops[5]), ("xdp_alert_phase", Some("UDP"), 2.0));
    assert_eq!(plain(&ops[6]), ("xdp_alert_consecutive_count", Some("UDP"), 7.0));
    assert_eq!(ops[6].kind, Some(AlertKind::Spike));
    m.record_alert_event(ProtoIndex::Tcp, AlertKind::Drop, AlertLifecycle::Resolved);
    let ops = m.take_ops();
    assert_eq!(plain(&ops[0]), ("xdp_alert_events_total", Some("TCP"), 1.0));
    assert_eq!(ops[0].lifecycle, Some(AlertLifecycle::Resolved));
}

#[test]
fn addresses_are_never_exported() {
    let mut m = MetricsHandle::new();
    m.update_synflood(&[SynIpRate { src_ip: 9, pps: b(250.0) }], 3);
    m.record_synflood_event(AlertLifecycle::Fired);
    m.update_port_scan(&[PortScanIpBreadth { src_ip: 9, distinct_ports: 30 }], 2);
    m.record_port_scan_event(AlertLifecycle::Fired);
    m.update_synflood(&[], 0);
    m.record_alertmanager_push(true);
    m.record_alertmanager_push(false);
    m.record_alertmanager_dropped();
    let ops = m.take_ops();
    assert!(ops.iter().all(|op| op.proto.is_none()));
    let values: Vec<f64> = ops.iter().map(|op| plain(op).2).collect();
    assert_eq!(values, vec![250.0, 3.0, 1.0, 30.0, 2.0, 1.0, 0.0, 0.0, 1.0, 1.0, 1.0]);
    assert_eq!(ops[8].metric, Metric::AlertmanagerPushesTotal);
    assert_eq!(ops[9].metric, Metric::AlertmanagerFailuresTotal);
    assert_eq!(ops[10].metric, Metric::AlertmanagerDroppedTotal);
}

fn c(packets: u64, bytes: u64) -> TrafficCounters {
    TrafficCounters { packets, bytes }
}

#[test]
fn the_mix_is_reported_and_exported() {
    let prev = vec![c(0, 0); 5];
    let curr = vec![c(10, 100), c(60, 600), c(20, 200), c(10, 100), c(0, 0)];
    let mut m = MetricsHandle::new();
    let report = report_mix(&curr, &prev, &mut m).unwrap();
    let shares: Vec<f64> = report.mix.iter().map(|(_, x)| v(*x)).collect();
    assert_eq!(shares, vec![10.0, 60.0, 20.0, 10.0, 0.0]);
    let (ipv6, ipv4) = report.byte_shares.unwrap();
    assert_eq!((v(ipv6), v(ipv4)), (10.0, 90.0));
    assert_eq!(m.take_ops().len(), 5);
}

#[test]
fn no_traffic_has_no_mix() {
    let same = vec![c(5, 5); 5];
    let mut m = MetricsHandle::new();
    let report = report_mix(&same, &same, &mut m).unwrap();
    assert!(report.mix.is_empty());
    assert!(report.byte_shares.is_none());
    assert!(m.take_ops().is_empty());
}

#[test]
fn more_traffic_than_can_be_counted_has_no_mix() {
    let prev = vec![c(0, 0); 5];
    let mut m = MetricsHandle::new();
    assert!(report_mix(&vec![c(u64::MAX, 0); 5], &prev, &mut m).is_none());
    assert!(report_mix(&vec![c(0, u64::MAX); 5], &prev, &mut m).is_none());
    assert!(m.take_ops().is_empty());
    assert_eq!(checked_total_bytes(&[c(0, 3), c(0, 4)]), Some(7));
    assert_eq!(checked_total_bytes(&[c(0, u64::MAX), c(0, 1)]), None);
}
