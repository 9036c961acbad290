//! The self-contained analysis.
use ebpf_xdp_program::anomaly::model::AnomalyLevel;
use ebpf_xdp_program::baseline::estimator::BaselineStats;
use ebpf_xdp_program::binary64::Binary64;
use ebpf_xdp_program::common::ProtoIndex;
use ebpf_xdp_program::rate::model::{
    ProtoRate, ProtoRateSnapshot, TrafficCounters, TrafficCountersSnapshot,
};
use ebpf_xdp_program::stats::alert::{decision_to_alert, AlertKind};
use ebpf_xdp_program::stats::analyze::{analyze_snapshot, AnalyzeResult};
use ebpf_xdp_program::stats::classifier::{classify, AnomalyDecision};
use ebpf_xdp_program::stats::compute::{compute_rates, diff_stats};
use ebpf_xdp_program::stats::ewma::Ewma;
use ebpf_xdp_program::stats::proto::ProtoEwmaBaseline;
use ebpf_xdp_program::stats::zscore::{robust_z_score_clipped, z_score};
use ebpf_xdp_program::time::Instant;

fn b(x: f64) -> Binary64 {
    Binary64::from_bits(x.to_bits())
}

fn v(x: Binary64) -> f64 {
    f64::from_bits(x.to_bits())
}

fn at(secs: u64) -> Instant {
    Instant {
        nanos: secs * 1_000_000_000,
    }
}

#[test]
fn averages_need_five_samples_and_ten_seconds() {
    let mut e = Ewma::new(b(0.5));
    for i in 0..4 {
        e.update(b(100.0), at(i));
    }
    assert!(!e.is_ready(at(100)), "four samples");
    e.update(b(100.0), at(4));
    assert!(!e.is_ready(at(9)), "nine seconds");
    assert!(e.is_ready(at(10)));
    assert_eq!(e.mean(at(9)).map(v), None);
    assert_eq!(e.mean(at(10)).map(v), Some(100.0));
    assert_eq!(e.stddev(at(10)).map(v), Some(0.0));
    // Without any deviation there is no robust one either.
    assert!(e.robust_stddev(at(10)).is_none());
    assert!(e.robust_z_score(b(1.0), at(10)).is_none());
}

#[test]
fn the_second_sample_moves_the_mean_by_a_bounded_step() {
    let mut e = Ewma::new(b(0.5));
    e.update(b(10.0), at(0));
    e.update(b(100.0), at(1));
    // The step is cut off at 3, and half of it is taken.
    assert_eq!(v(e.mean), 11.5);
    assert_eq!(v(e.variance), 4.5);
    assert_eq!(v(e.mad), 44.25);
    assert_eq!(e.sample_count, 2);
    assert_eq!(e.start_time, Some(at(0)));
}

#[test]
fn the_fifth_sample_is_cut_off_by_the_robust_deviation() {
    let four = Ewma {
        alpha: b(0.5),
        mean: b(100.0),
        variance: b(1.0),
        mad: b(10.0),
        initialized: true,
        sample_count: 4,
        start_time: Some(at(0)),
    };
    assert!(!four.is_ready(at(120)), "four samples");

    // The fifth sample counts itself, so the step is cut off at 3 * 14.826.
    let mut e = four;
    e.update(b(1000.0), at(120));
    let limit = 3.0 * (1.4826 * 10.0);
    assert_eq!(v(e.mean), 100.0 + 0.5 * limit);
    assert!((v(e.mean) - 122.239).abs() < 1e-9);
    assert_eq!(v(e.variance), 0.5 * 1.0 + 0.5 * limit * limit);
    assert_eq!(v(e.mad), 0.5 * 10.0 + 0.5 * (1000.0 - v(e.mean)));
    assert_eq!(e.sample_count, 5);

    // The fourth sample still goes by a deviation of 1.
    let mut e = Ewma { sample_count: 3, ..four };
    e.update(b(1000.0), at(120));
    assert_eq!(v(e.mean), 101.5);

    // So does a fifth one that comes before ten seconds are over.
    let mut e = four;
    e.update(b(1000.0), at(9));
    assert_eq!(v(e.mean), 101.5);
}

#[test]
fn distances_need_a_deviation() {
    assert!(z_score(b(1.0), b(0.0), b(0.0)).is_none());
    assert_eq!(z_score(b(130.0), b(100.0), b(10.0)).map(v), Some(3.0));
    assert!(robust_z_score_clipped(b(1.0), b(0.0), b(-1.0)).is_none());
    assert_eq!(robust_z_score_clipped(b(1000.0), b(0.0), b(1.0)).map(v), Some(10.0));
    assert_eq!(robust_z_score_clipped(b(-1000.0), b(0.0), b(1.0)).map(v), Some(-10.0));
}

#[test]
fn distances_have_levels() {
    assert!(classify(None).is_none());
    assert_eq!(classify(Some(b(-2.9))), Some(AnomalyLevel::Normal));
    assert_eq!(classify(Some(b(3.0))), Some(AnomalyLevel::Suspicious));
    assert_eq!(classify(Some(b(-6.0))), Some(AnomalyLevel::Severe));
}

fn rate(proto: ProtoIndex, pps: f64, bps: f64) -> ProtoRate {
    ProtoRate {
        proto,
        pps: b(pps),
        bps: b(bps),
    }
}

fn all(pps: f64, bps: f64) -> Vec<ProtoRate> {
    (0..5)
        .map(|i| rate(ProtoIndex::from_index(i).unwrap(), pps, bps))
        .collect()
}

#[test]
fn a_snapshot_is_held_against_the_baselines() {
    let mut base = ProtoEwmaBaseline::new(b(0.4));
    for i in 0..20u64 {
        let x = if i % 2 == 0 { 100.0 } else { 102.0 };
        base.update(&all(x, 10.0 * x), at(i));
    }
    let quiet = ProtoRateSnapshot { timestamp: at(20), rates: all(101.0, 1010.0) };
    assert!(matches!(analyze_snapshot(&quiet, &base, at(5)), AnalyzeResult::WarmingUp));
    let AnalyzeResult::Normal(d) = analyze_snapshot(&quiet, &base, at(20)) else {
        panic!("the baselines should be ready");
    };
    assert_eq!(d.len(), 5);
    assert!(d.iter().all(|d| d.anomaly_level.is_normal()));
    let spike = ProtoRateSnapshot {
        timestamp: at(20),
        rates: vec![rate(ProtoIndex::Udp, 10_000.0, 1010.0)],
    };
    let AnalyzeResult::Normal(d) = analyze_snapshot(&spike, &base, at(20)) else {
        panic!("the baselines should be ready");
    };
    assert_eq!(d.len(), 1);
    assert_eq!(d[0].anomaly_level, AnomalyLevel::Severe);
    let alert = decision_to_alert(&d[0]).unwrap();
    assert_eq!(alert.kind, AlertKind::TrafficSpike);
    assert_eq!(alert.proto, ProtoIndex::Udp);
    assert_eq!(v(alert.confidence), 1.0);
}

fn decision(z_pps: Option<f64>, z_bps: Option<f64>, level: AnomalyLevel) -> AnomalyDecision {
    let none = BaselineStats { mean: b(0.0), stddev: b(0.0) };
    AnomalyDecision {
        proto: ProtoIndex::Tcp,
        pps: b(0.0),
        bps: b(0.0),
        pps_baseline: none,
        bps_baseline: none,
        z_pps: z_pps.map(b),
        z_bps: z_bps.map(b),
        anomaly_level: level,
    }
}

#[test]
fn decisions_become_alerts() {
    assert!(decision_to_alert(&decision(Some(1.0), None, AnomalyLevel::Normal)).is_none());
    assert!(decision_to_alert(&decision(None, None, AnomalyLevel::Severe)).is_none());
    let d = decision(Some(2.0), Some(-4.0), AnomalyLevel::Suspicious);
    let alert = decision_to_alert(&d).unwrap();
    assert_eq!(alert.kind, AlertKind::TrafficDrop);
    assert_eq!(v(alert.confidence), 0.4);
    assert_eq!(v(d.dominant_z().unwrap()), -4.0);
}

#[test]
fn counters_become_rates() {
    let c = |packets, bytes| TrafficCounters { packets, bytes };
    let d = diff_stats(&[c(5, 50), c(1, 1)], &[c(2, 60)]);
    assert_eq!(d.len(), 1);
    assert_eq!((d[0].packets, d[0].bytes), (3, 0));
    let prev = TrafficCountersSnapshot { timestamp: at(1), stats: vec![c(0, 0)] };
    let curr = TrafficCountersSnapshot { timestamp: at(3), stats: vec![c(10, 100)] };
    let rates = compute_rates(&prev, &curr);
    assert_eq!(rates.len(), 1);
    assert_eq!(v(rates[0].pps), 5.0);
    assert_eq!(v(rates[0].bps), 50.0);
}
