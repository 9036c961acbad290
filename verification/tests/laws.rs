//! What holds of the library as a whole, on concrete values.
use std::collections::HashMap;

use ebpf_xdp_program::alert::manager::{AlertManager, AlertRule};
use ebpf_xdp_program::alert::model::{AlertKind, AlertSignal, SynFloodSignal};
use ebpf_xdp_program::alert::state::{AlertLifecycle, AlertState};
use ebpf_xdp_program::alert::synflood_manager::SynFloodAlertManager;
use ebpf_xdp_program::anomaly::classifier::{observe_anomaly, AnalyzeResult};
use ebpf_xdp_program::anomaly::detector::{AnomalyDetector, DetectResult};
use ebpf_xdp_program::anomaly::emergency::{EmergencyDetector, EmergencyThreshold};
use ebpf_xdp_program::anomaly::model::AnomalyLevel;
use ebpf_xdp_program::baseline::estimator::{BaselineState, EwmaEstimator};
use ebpf_xdp_program::baseline::proto::{
    BaselineState as ProtoBaselineState, ProtoEwmaBaselineEstimator, Readiness,
};
use ebpf_xdp_program::binary64::Binary64;
use ebpf_xdp_program::common::{
    PortScanKey, PortTouch, ProtoIndex, ProtoStats, ProtoTable, SynCounter,
};
use ebpf_xdp_program::metrics::MetricsHandle;
use ebpf_xdp_program::pipeline::runner::AnomalyRunner;
use ebpf_xdp_program::rate::compute::{checked_total_packets, sum_over_cpus};
use ebpf_xdp_program::rate::{dt_secs, rate as rate_of};
use ebpf_xdp_program::rate::model::{
    PortScanCountersSnapshot, ProtoRate, ProtoRateSnapshot, SynCountersSnapshot, TrafficCounters,
    TrafficCountersSnapshot,
};
use ebpf_xdp_program::rate::port_scan_compute::compute_port_scan_breadth;
use ebpf_xdp_program::rate::ranking::{entries, top_n};
use ebpf_xdp_program::rate::synflood_compute::{compute_syn_rates_top_n, sum_syn_over_cpus};
use ebpf_xdp_program::report::{log_api_exit, read_or_skip, ApiExit, LogLevel};
use ebpf_xdp_program::text::{decimal_text, ipv4_text};
use ebpf_xdp_program::time::{Duration, Instant};

fn b(x: f64) -> Binary64 {
    Binary64::from_bits(x.to_bits())
}

fn v(x: Binary64) -> f64 {
    f64::from_bits(x.to_bits())
}

fn at(secs: u64) -> Instant {
    Instant {
        nanos: secs * 1_000_000_000,
    }
}

fn rate(proto: ProtoIndex, pps: f64, bps: f64) -> ProtoRate {
    ProtoRate {
        proto,
        pps: b(pps),
        bps: b(bps),
    }
}

fn signal(proto: ProtoIndex, kind: AlertKind) -> AlertSignal {
    AlertSignal {
        proto,
        level: AnomalyLevel::Severe,
        kind,
        confidence: b(1.0),
    }
}

fn rule(kind: AlertKind, fire: u32, resolve: u32, freezes: bool) -> AlertRule {
    AlertRule {
        kind,
        min_level: AnomalyLevel::Suspicious,
        min_confidence: b(0.0),
        cooldown: Duration::from_secs(60),
        consecutive_threshold: fire,
        resolve_consecutive_threshold: resolve,
        freezes_baseline: freezes,
    }
}

#[test]
fn an_alert_fires_and_resolves_exactly_at_its_thresholds() {
    let mut s = AlertState::new();
    let zero = Duration::zero();
    for i in 0..4 {
        assert_eq!(s.advance(true, at(i), zero, 5, 3), None);
    }
    assert_eq!(s.advance(true, at(4), zero, 5, 3), Some(AlertLifecycle::Fired));
    assert!(s.is_firing());
    assert_eq!(s.phase_label(), "firing");
    assert_eq!(s.advance(false, at(5), zero, 5, 3), None);
    assert_eq!(s.advance(false, at(6), zero, 5, 3), None);
    // A signal in between starts the count over.
    assert_eq!(s.advance(true, at(7), zero, 5, 3), None);
    assert_eq!(s.advance(false, at(8), zero, 5, 3), None);
    assert_eq!(s.advance(false, at(9), zero, 5, 3), None);
    assert_eq!(s.advance(false, at(10), zero, 5, 3), Some(AlertLifecycle::Resolved));
    assert_eq!(s.phase_label(), "inactive");
}

#[test]
fn a_quiet_tick_starts_the_count_to_firing_over() {
    let mut s = AlertState::new();
    let zero = Duration::zero();
    assert_eq!(s.advance(true, at(0), zero, 2, 1), None);
    assert_eq!(s.advance(false, at(1), zero, 2, 1), None);
    assert_eq!(s.advance(true, at(2), zero, 2, 1), None);
    assert_eq!(s.advance(true, at(3), zero, 2, 1), Some(AlertLifecycle::Fired));
}

#[test]
fn an_alert_fires_again_once_its_cooldown_is_over() {
    let mut s = AlertState::new();
    let minute = Duration::from_secs(60);
    assert_eq!(s.advance(true, at(0), minute, 1, 1), Some(AlertLifecycle::Fired));
    assert_eq!(s.advance(false, at(1), minute, 1, 1), Some(AlertLifecycle::Resolved));
    assert_eq!(s.advance(true, at(59), minute, 1, 1), None);
    assert!(!s.cooldown_passed(at(59), minute));
    assert!(s.cooldown_passed(at(60), minute));
    assert_eq!(s.advance(true, at(60), minute, 1, 1), Some(AlertLifecycle::Fired));
    s.reset();
    assert_eq!(s.phase_value(), 0);
    assert_eq!(s.last_fired, Some(at(60)));
    assert!(!s.try_fire(at(200), minute, 1));
}

#[test]
fn heartbeats_are_firing_and_unchanged() {
    let mut mgr = AlertManager::new(vec![rule(AlertKind::Spike, 1, 2, false)]);
    let tcp = [signal(ProtoIndex::Tcp, AlertKind::Spike)];
    let fired = mgr.evaluate(&tcp, at(0));
    assert_eq!(fired.len(), 1);
    assert!(mgr.heartbeats(&tcp, &fired).is_empty());
    let both = [tcp[0], signal(ProtoIndex::Udp, AlertKind::Spike)];
    let fired = mgr.evaluate(&both, at(1));
    assert_eq!(fired.len(), 1);
    assert_eq!(fired[0].alert.proto, ProtoIndex::Udp);
    let beats = mgr.heartbeats(&both, &fired);
    assert_eq!(beats.len(), 1);
    assert_eq!(beats[0].proto, ProtoIndex::Tcp);
    let snaps = mgr.metrics_snapshot();
    assert!(snaps.iter().any(|s| s.proto == ProtoIndex::Tcp && s.phase_value == 2));
}

#[test]
fn only_rules_that_freeze_freeze() {
    let mut mgr = AlertManager::new(vec![
        rule(AlertKind::Spike, 1, 1, false),
        rule(AlertKind::Drop, 2, 1, true),
    ]);
    mgr.evaluate(&[signal(ProtoIndex::Tcp, AlertKind::Spike)], at(0));
    assert!(mgr.frozen_protos(at(0)).is_empty());
    mgr.evaluate(&[signal(ProtoIndex::Udp, AlertKind::Drop)], at(1));
    assert_eq!(mgr.frozen_protos(at(1)), vec![ProtoIndex::Udp]);
}

#[test]
fn addresses_do_not_disturb_each_other() {
    let syn = |src_ip, pps: f64| SynFloodSignal { src_ip, pps: b(pps), confidence: b(1.0) };
    let mut mgr = SynFloodAlertManager::new(Duration::zero(), 2, 1);
    let (events, beats) = mgr.tick(&[syn(1, 200.0)], at(0));
    assert!(events.is_empty() && beats.is_empty());
    let (events, beats) = mgr.tick(&[syn(1, 200.0), syn(2, 300.0)], at(1));
    assert_eq!(events.len(), 1);
    assert_eq!(events[0].alert.src_ip, 1);
    assert!(beats.is_empty());
    let (events, beats) = mgr.tick(&[syn(1, 250.0), syn(2, 300.0)], at(2));
    assert_eq!(events.len(), 1);
    assert_eq!(events[0].alert.src_ip, 2);
    assert_eq!(beats.len(), 1);
    assert_eq!((beats[0].src_ip, v(beats[0].pps)), (1, 250.0));
    let rows = mgr.snapshot();
    assert_eq!(rows.len(), 2);
    assert!(rows.iter().all(|r| r.phase_label == "firing"));
}

fn counters(t: Instant, packets: u64) -> TrafficCountersSnapshot {
    TrafficCountersSnapshot {
        timestamp: t,
        stats: vec![TrafficCounters { packets, bytes: 10 * packets }; 5],
    }
}

/// Feeds a runner a reading per second, with the given packets in each second.
fn feed(runner: &mut AnomalyRunner, t: &mut u64, total: &mut u64, packets: &[u64]) -> usize {
    let mut fired = 0;
    for p in packets {
        *t += 1;
        *total += p;
        let mut m = MetricsHandle::new();
        let r = runner.tick(&Some(counters(at(*t), *total)), at(*t), &mut m);
        fired += r.transitions.len();
    }
    fired
}

#[test]
fn a_frozen_baseline_does_not_move_and_stays_ready() {
    let mut runner = AnomalyRunner::new(
        EwmaEstimator::new(b(0.4), 5, b(1e-3), 0),
        EmergencyDetector::new(vec![]),
        AlertManager::new(vec![rule(AlertKind::Spike, 1, 3, true)]),
    );
    let (mut t, mut total) = (0, 0);
    feed(&mut runner, &mut t, &mut total, &[0, 100, 110, 100, 110, 100, 110, 100]);
    assert!(runner.warmed_up());
    assert_eq!(feed(&mut runner, &mut t, &mut total, &[1_000_000]), 5);
    let mean = |r: &AnomalyRunner, t: u64| match r.snapshot(at(t)).protos[1].baseline {
        BaselineState::Ready { baseline } => v(baseline.pps.mean),
        BaselineState::Warming => panic!("the baseline should be ready"),
    };
    let before = mean(&runner, t);
    assert!(runner.snapshot(at(t)).protos.iter().all(|p| p.frozen));
    feed(&mut runner, &mut t, &mut total, &[1_000_000, 1_000_000]);
    assert_eq!(mean(&runner, t), before);
    assert!(runner.warmed_up());
}

#[test]
fn readiness_takes_samples_deviation_and_ticks() {
    let mut e = EwmaEstimator::new(b(0.4), 3, b(1.0), 2);
    let feed = |e: &mut EwmaEstimator, x: f64| e.update(&[rate(ProtoIndex::Tcp, x, x)]);
    feed(&mut e, 100.0);
    feed(&mut e, 300.0);
    e.advance();
    e.advance();
    assert!(matches!(e.snapshot(ProtoIndex::Tcp), BaselineState::Warming), "two samples");
    for _ in 0..40 {
        feed(&mut e, 100.0);
    }
    for i in 0..10 {
        feed(&mut e, if i % 2 == 0 { 50.0 } else { 150.0 });
    }
    assert!(matches!(e.snapshot(ProtoIndex::Tcp), BaselineState::Ready { .. }));
    assert!(matches!(e.snapshot(ProtoIndex::Udp), BaselineState::Warming));
    assert_eq!(e.pps_ewma.get(ProtoIndex::Udp).samples, 0);
}

#[test]
fn a_baseline_tells_what_it_lacks() {
    let mut e =
        ProtoEwmaBaselineEstimator::new(b(0.4), 2, b(0.5), Duration::from_secs(30), at(0));
    assert_eq!(e.readiness(ProtoIndex::Tcp, at(1)), Readiness::WarmupTime);
    assert_eq!(e.readiness(ProtoIndex::Tcp, at(30)), Readiness::NotEnoughSamples);
    let reason = |e: &ProtoEwmaBaselineEstimator, t| match e.snapshot(ProtoIndex::Tcp, t) {
        ProtoBaselineState::Warming { reason } => reason,
        ProtoBaselineState::Ready { .. } => Readiness::Ready,
    };
    assert_eq!(reason(&e, at(30)), Readiness::NotEnoughSamples);
    e.update(&[rate(ProtoIndex::Tcp, 0.0, 0.0)]);
    e.update(&[rate(ProtoIndex::Tcp, 0.0, 0.0)]);
    assert_eq!(reason(&e, at(30)), Readiness::LowVariance);
    for x in [100.0, 300.0, 100.0, 300.0, 100.0, 300.0, 100.0, 300.0] {
        for _ in 0..8 {
            e.update(&[rate(ProtoIndex::Tcp, x, x)]);
        }
    }
    assert_eq!(reason(&e, at(29)), Readiness::WarmupTime);
    assert_eq!(reason(&e, at(30)), Readiness::Ready);
    assert_eq!(e.readiness(ProtoIndex::Tcp, at(30)), Readiness::Ready);
}

#[test]
fn observations_wait_for_a_ready_baseline() {
    let mut e = ProtoEwmaBaselineEstimator::new(b(0.4), 2, b(0.5), Duration::zero(), at(0));
    let snap = |pps| ProtoRateSnapshot {
        timestamp: at(9),
        rates: vec![rate(ProtoIndex::Tcp, pps, 100.0)],
    };
    let r = observe_anomaly(&snap(100.0), &e, at(9));
    assert!(r.is_warming_up());
    assert!(r.observations().is_empty());
    for i in 0..40 {
        let x = if i % 2 == 0 { 90.0 } else { 110.0 };
        e.update(&[rate(ProtoIndex::Tcp, x, x)]);
    }
    let r = observe_anomaly(&snap(100_000.0), &e, at(9));
    assert!(!r.is_warming_up());
    assert_eq!(r.observations().len(), 1);
    let o = r.observations()[0];
    assert_eq!(o.anomaly_level, AnomalyLevel::Severe);
    assert_eq!(v(o.confidence()), 1.0);
    assert!(v(o.dominant_z().unwrap()) > 6.0);
    assert!(matches!(r, AnalyzeResult::Normal(_)));
}

#[test]
fn seconds_pass_exactly_if_the_clock_moves() {
    let t = Instant { nanos: 5 };
    assert!(dt_secs(t, t).is_none());
    assert!(dt_secs(t, Instant { nanos: 4 }).is_none());
    assert_eq!(dt_secs(t, Instant { nanos: 6 }).map(v), Some(1e-9));
    assert_eq!(dt_secs(at(1), at(3)).map(v), Some(2.0));
}

#[test]
fn counters_of_all_cpus_are_summed() {
    let s = |packets, bytes| ProtoStats { packets, bytes };
    let sum = sum_over_cpus(&[s(1, 10), s(2, 20), s(3, 30)]).unwrap();
    assert_eq!((sum.packets, sum.bytes), (6, 60));
    assert!(sum_over_cpus(&[s(u64::MAX, 0), s(1, 0)]).is_none());
    let c = |packets, bytes| SynCounter { packets, bytes };
    let sum = sum_syn_over_cpus(&[c(1, 10), c(2, 20)]).unwrap();
    assert_eq!((sum.packets, sum.bytes), (3, 30));
    assert!(sum_syn_over_cpus(&[c(0, u64::MAX), c(0, 1)]).is_none());
    let t = |packets| TrafficCounters { packets, bytes: 0 };
    assert_eq!(checked_total_packets(&[t(2), t(3)]), Some(5));
    assert_eq!(checked_total_packets(&[t(u64::MAX), t(1)]), None);
}

#[test]
fn ranking_puts_the_largest_first() {
    let ranked = top_n(&vec![5, 9, 1, 7], 3);
    assert_eq!(ranked, vec![1, 3, 0]);
    assert!(top_n(&vec![5, 9], 0).is_empty());
    assert_eq!(top_n(&vec![5, 9], 5), vec![1, 0]);
}

#[test]
fn every_entry_of_a_map_is_listed_once() {
    let m: HashMap<u32, u64> = (0..20).map(|i| (i, 3 * i as u64)).collect();
    let mut all = entries(&m);
    all.sort();
    assert_eq!(all.len(), 20);
    assert!(all.iter().all(|(k, x)| *x == 3 * *k as u64));
}

#[test]
fn more_addresses_than_asked_for_are_cut_off() {
    let snap = |t, n: u32, k: u64| SynCountersSnapshot {
        timestamp: at(t),
        counters: (0..n)
            .map(|ip| (ip, SynCounter { packets: ip as u64 * k, bytes: 0 }))
            .collect(),
    };
    let r = compute_syn_rates_top_n(&snap(0, 0, 0), &snap(2, 50, 10), 3);
    assert_eq!(r.len(), 3);
    assert_eq!(r.iter().map(|r| r.src_ip).collect::<Vec<_>>(), vec![49, 48, 47]);
    assert_eq!(v(r[0].pps), 245.0);
}

#[test]
fn a_touch_on_the_edge_of_the_window_counts() {
    let mut s = PortScanCountersSnapshot::new(1_000);
    s.insert(PortScanKey::new(1, 80), PortTouch { last_seen_ns: 500 });
    s.insert(PortScanKey::new(1, 81), PortTouch { last_seen_ns: 499 });
    s.insert(PortScanKey::new(1, 82), PortTouch { last_seen_ns: 2_000 });
    assert_eq!(s.now_ns(), 1_000);
    assert_eq!(s.entries().len(), 3);
    let r = compute_port_scan_breadth(&s, 500, 10);
    assert_eq!(r.len(), 1);
    assert_eq!(r[0].distinct_ports, 2);
}

#[test]
fn tables_hold_one_value_per_protocol() {
    let mut t = ProtoTable::filled(0u32);
    t.set(ProtoIndex::Ipv6, 7);
    assert_eq!(t.get(ProtoIndex::Ipv6), 7);
    assert_eq!(t.get(ProtoIndex::Other), 0);
}

#[test]
fn numbers_and_addresses_are_written_out() {
    assert_eq!(decimal_text(0), "0");
    assert_eq!(decimal_text(1_203), "1203");
    assert_eq!(decimal_text(u64::MAX), "18446744073709551615");
    assert_eq!(ipv4_text(0), "0.0.0.0");
    assert_eq!(ipv4_text(0xffff_ffff), "255.255.255.255");
    assert_eq!(ipv4_text(0xc0a8_0a01), "192.168.10.1");
}

#[test]
fn lengths_of_time_are_read_back() {
    assert_eq!(Duration::from_secs(90).as_secs(), 90);
    assert_eq!(Duration::from_millis(1_500).as_secs(), 1);
    assert_eq!(v(Duration::from_millis(1_500).as_secs_f64()), 1.5);
    assert_eq!(at(3).duration_since(at(1)), Duration::from_secs(2));
    assert_eq!(at(1).duration_since(at(3)), Duration::zero());
}

#[test]
fn the_log_is_told() {
    assert_eq!(
        log_api_exit(ApiExit::Finished, " during shutdown"),
        (LogLevel::Info, "API server exited during shutdown".to_string())
    );
    assert_eq!(
        log_api_exit(ApiExit::Failed, ""),
        (LogLevel::Error, "API server exited with error".to_string())
    );
    assert_eq!(log_api_exit(ApiExit::Panicked, "").1, "API server task panicked");
    assert_eq!(read_or_skip::<i32, ()>(Ok(3), "x"), Ok(3));
    assert_eq!(
        read_or_skip::<i32, i32>(Err(4), "SYN_TRACKER snapshot"),
        Err((4, "failed to read SYN_TRACKER snapshot; skipping tick".to_string()))
    );
}

#[test]
fn rates_over_a_time_that_has_passed_are_numbers() {
    for nanos in [1, 7, 999_999_999, 1_000_000_000, u64::MAX] {
        let dt = dt_secs(Instant { nanos: 0 }, Instant { nanos }).unwrap();
        for count in [0, 1, u64::MAX] {
            let r = rate_of(count, 0, dt);
            assert!(!r.is_nan() && v(r) >= 0.0);
        }
        assert_eq!(v(rate_of(3, 9, dt)), 0.0);
    }
}

#[test]
fn emergencies_have_a_confidence_from_zero_to_one() {
    let limits = [None, Some(b(-1.0)), Some(b(0.0)), Some(b(3.0)), Some(b(f64::INFINITY))];
    let rates = [0.0, 3.0, 4.5, 1e300, f64::INFINITY, f64::NAN];
    for max_pps in limits {
        for max_bps in limits {
            let det = EmergencyDetector::new(vec![EmergencyThreshold {
                proto: ProtoIndex::Icmp,
                max_pps,
                max_bps,
            }]);
            for pps in rates {
                for bps in rates {
                    let DetectResult::Signals(found) = det.detect(&[rate(ProtoIndex::Icmp, pps, bps)])
                    else {
                        panic!("thresholds need no warm-up");
                    };
                    assert!(found.iter().all(|s| (0.0..=1.0).contains(&v(s.confidence))));
                }
            }
        }
    }
}
