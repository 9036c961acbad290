//! The per-protocol pipeline.
use ebpf_xdp_program::alert::manager::{AlertManager, AlertRule};
use ebpf_xdp_program::alert::model::{AlertKind, AlertSignal};
use ebpf_xdp_program::alert::state::AlertLifecycle;
use ebpf_xdp_program::anomaly::detector::{AnomalyDetector, DetectResult};
use ebpf_xdp_program::anomaly::emergency::EmergencyDetector;
use ebpf_xdp_program::anomaly::ewma::EwmaDetector;
use ebpf_xdp_program::anomaly::model::AnomalyLevel;
use ebpf_xdp_program::baseline::estimator::{BaselineState, EwmaEstimator};
use ebpf_xdp_program::binary64::Binary64;
use ebpf_xdp_program::common::ProtoIndex;
use ebpf_xdp_program::config::{
    default_alert_rules, default_baseline_estimator, default_emergency_detector,
};
use ebpf_xdp_program::metrics::MetricsHandle;
use ebpf_xdp_program::pipeline::runner::{run_anomaly_pipeline, AnomalyRunner, PipelineOutcome};
use ebpf_xdp_program::rate::model::{ProtoRate, TrafficCounters, TrafficCountersSnapshot};
use ebpf_xdp_program::time::{Duration, Instant};

/// A double as the library holds it.
fn b(x: f64) -> Binary64 {
    Binary64::from_bits(x.to_bits())
}

/// A number of the library as a double.
fn v(x: Binary64) -> f64 {
    f64::from_bits(x.to_bits())
}

fn start() -> Instant {
    Instant {
        nanos: 1_000_000_000_000,
    }
}

fn later(t: Instant, secs: u64) -> Instant {
    Instant {
        nanos: t.nanos + secs * 1_000_000_000,
    }
}


struct WarmingDetector;
impl AnomalyDetector for WarmingDetector {
    fn detect(&self, _: &[ProtoRate]) -> DetectResult {
        DetectResult::WarmingUp
    }
}

struct SignalDetector(Vec<AlertSignal>);
impl AnomalyDetector for SignalDetector {
    fn detect(&self, _: &[ProtoRate]) -> DetectResult {
        DetectResult::Signals(self.0.clone())
    }
}

fn make_rates() -> Vec<ProtoRate> {
    vec![ProtoRate {
        proto: ProtoIndex::Tcp,
        pps: b(100.0),
        bps: b(10_000.0),
    }]
}

fn immediate_spike_rule() -> AlertRule {
    AlertRule {
        kind: AlertKind::Spike,
        min_level: AnomalyLevel::Suspicious,
        min_confidence: b(0.0),
        cooldown: Duration::zero(),
        consecutive_threshold: 1,
        resolve_consecutive_threshold: 1,
        freezes_baseline: false,
    }
}



fn make_runner() -> AnomalyRunner {
    AnomalyRunner::new(
        default_baseline_estimator(),
        default_emergency_detector(),
        AlertManager::new(default_alert_rules()),
    )
}

fn make_counter_snapshot(t: Instant, pkts: u64, bytes: u64) -> TrafficCountersSnapshot {
    let stats = (0..ProtoIndex::COUNT as usize)
        .map(|_| TrafficCounters {
            packets: pkts,
            bytes,
        })
        .collect();
    TrafficCountersSnapshot {
        timestamp: t,
        stats,
    }
}

#[test]
fn runner_tick_none_input_is_noop() {
    let mut runner = make_runner();
    runner.tick(&None, start(), &mut MetricsHandle::new()); // should return immediately without panic
}

#[test]
fn runner_tick_first_snapshot_primes_prev_counters() {
    let mut runner = make_runner();
    let snap = make_counter_snapshot(start(), 100, 10_000);
    runner.tick(&Some(snap), start(), &mut MetricsHandle::new()); // stores prev and returns early
}

#[test]
fn runner_tick_second_snapshot_runs_full_pipeline() {
    let mut runner = make_runner();
    let t1 = start();
    let t2 = later(t1, 1);
    let snap1 = make_counter_snapshot(t1, 100, 10_000);
    let snap2 = make_counter_snapshot(t2, 200, 20_000);
    runner.tick(&Some(snap1), t1, &mut MetricsHandle::new()); // prime prev_counters
    runner.tick(&Some(snap2), t2, &mut MetricsHandle::new()); // runs compute_rates -> pipeline -> baseline.update
    // baseline is Warming after 1 sample -> WarmingUp outcome, no panic
}

#[test]
fn snapshot_before_any_tick_has_no_rates() {
    let runner = make_runner();
    let snapshot = runner.snapshot(start());
    assert_eq!(snapshot.protos.len(), ProtoIndex::COUNT as usize);
    assert!(snapshot.protos.iter().all(|p| p.rate.is_none()));
    assert!(!runner.warmed_up());
}

#[test]
fn snapshot_after_second_tick_has_rates_for_every_proto() {
    let mut runner = make_runner();
    let t1 = start();
    let t2 = later(t1, 1);
    let snap1 = make_counter_snapshot(t1, 100, 10_000);
    let snap2 = make_counter_snapshot(t2, 200, 20_000);
    runner.tick(&Some(snap1), t1, &mut MetricsHandle::new());
    runner.tick(&Some(snap2), t2, &mut MetricsHandle::new());

    let snapshot = runner.snapshot(t2);
    assert_eq!(snapshot.protos.len(), ProtoIndex::COUNT as usize);
    let tcp = snapshot
        .protos
        .iter()
        .find(|p| p.proto == ProtoIndex::Tcp)
        .expect("TCP entry present");
    assert!(tcp.rate.is_some(), "rate should be populated after a full tick");
    assert!(
        matches!(tcp.baseline, BaselineState::Warming),
        "single sample isn't enough to leave Warming"
    );
    // Baseline is still warming, so the anomaly view is the zeroed/Normal default.
    let anomaly = tcp.anomaly.expect("anomaly view computed whenever a rate is present");
    assert_eq!(v(anomaly.z_pps), 0.0);
    assert!(matches!(anomaly.level, AnomalyLevel::Normal));
}

#[test]
fn an_emergency_does_not_end_the_warm_up() {
    let mut runner = make_runner();
    let t1 = start();
    let t2 = later(t1, 1);
    let snap1 = make_counter_snapshot(t1, 100, 10_000);
    let snap2 = make_counter_snapshot(t2, 200, 20_000);
    runner.tick(&Some(snap1), t1, &mut MetricsHandle::new());
    let told = runner.tick(&Some(snap2), t2, &mut MetricsHandle::new());
    assert_eq!(told.transitions.len(), 1);
    assert_eq!(told.transitions[0].alert.proto, ProtoIndex::Icmp);
    assert_eq!(told.transitions[0].lifecycle, AlertLifecycle::Fired);
    assert!(!runner.warmed_up(), "the baseline has seen a single sample");
}

#[test]
fn pipeline_warming_up() {
    let det = WarmingDetector;
    let mut mgr = AlertManager::new(vec![immediate_spike_rule()]);
    let outcome = run_anomaly_pipeline(&make_rates(), &det, &det, &mut mgr, start());
    assert!(matches!(outcome, PipelineOutcome::WarmingUp));
}

#[test]
fn pipeline_no_signals_when_ready() {
    let det = SignalDetector(vec![]);
    let mut mgr = AlertManager::new(vec![immediate_spike_rule()]);
    let outcome = run_anomaly_pipeline(&make_rates(), &det, &det, &mut mgr, start());
    assert!(matches!(outcome, PipelineOutcome::NoSignals));
}

#[test]
fn pipeline_events_when_signal_matches_rule() {
    let signal = AlertSignal {
        proto: ProtoIndex::Tcp,
        level: AnomalyLevel::Suspicious,
        kind: AlertKind::Spike,
        confidence: b(1.0),
    };
    let det = SignalDetector(vec![signal]);
    let empty = SignalDetector(vec![]);
    let mut mgr = AlertManager::new(vec![immediate_spike_rule()]);
    let outcome = run_anomaly_pipeline(&make_rates(), &det, &empty, &mut mgr, start());
    assert!(matches!(outcome, PipelineOutcome::Events { .. }));
}

/// End-to-end: warm up a real EWMA baseline, then inject a massive traffic spike.
///
/// This exercises the full path: `EwmaEstimator` -> `EwmaDetector` -> Z-score
/// computation -> `AlertManager` FSM -> `AlertEvent::Fired`. No mocked detectors.
#[test]
fn end_to_end_spike_fires_after_baseline_warms_up() {
    // No time gate so the test doesn't have to advance ticks.
    let mut estimator = EwmaEstimator::new(b(0.4), 10, b(1e-3), 0);

    // Alternating 100/200 pps builds stddev above min_stddev quickly.
    for i in 0..20 {
        let pps = if i % 2 == 0 { 100.0_f64 } else { 200.0 };
        estimator.update(&[ProtoRate {
            proto: ProtoIndex::Tcp,
            pps: b(pps),
            bps: b(pps * 100.0),
        }]);
    }
    assert!(
        matches!(
            estimator.snapshot(ProtoIndex::Tcp),
            BaselineState::Ready { .. }
        ),
        "baseline must be ready before the end-to-end test can proceed"
    );

    let ewma_detector = EwmaDetector::new(&estimator);
    let emergency = EmergencyDetector::new(vec![]);
    let mut alert_manager = AlertManager::new(vec![AlertRule {
        kind: AlertKind::Spike,
        min_level: AnomalyLevel::Suspicious,
        min_confidence: b(0.0),
        cooldown: Duration::zero(),
        consecutive_threshold: 1,
        resolve_consecutive_threshold: 1,
        freezes_baseline: false,
    }]);

    // 100 000 pps is far more than 6 deviations above a ~150 pps baseline -> Severe spike.
    let spike = vec![ProtoRate {
        proto: ProtoIndex::Tcp,
        pps: b(100_000.0),
        bps: b(10_000_000.0),
    }];

    let outcome = run_anomaly_pipeline(&spike, &ewma_detector, &emergency, &mut alert_manager, start());

    let PipelineOutcome::Events { events } = outcome else {
        panic!("expected PipelineOutcome::Events, got a non-event outcome");
    };
    assert!(!events.is_empty(), "expected at least one alert event");
    assert!(matches!(events[0].lifecycle, AlertLifecycle::Fired));
    assert_eq!(events[0].alert.proto, ProtoIndex::Tcp);
    assert!(matches!(events[0].alert.level, AnomalyLevel::Severe));
}
