//! Detection by distance from the baseline.
use ebpf_xdp_program::alert::model::AlertKind;
use ebpf_xdp_program::anomaly::detector::{AnomalyDetector, DetectResult};
use ebpf_xdp_program::anomaly::ewma::EwmaDetector;
use ebpf_xdp_program::anomaly::model::AnomalyLevel;
use ebpf_xdp_program::baseline::estimator::{Baseline, BaselineState, BaselineStats, ProtoBaseline};
use ebpf_xdp_program::binary64::Binary64;
use ebpf_xdp_program::common::ProtoIndex;
use ebpf_xdp_program::rate::model::ProtoRate;

/// A double as the library holds it.
fn b(x: f64) -> Binary64 {
    Binary64::from_bits(x.to_bits())
}

/// A number of the library as a double.
fn v(x: Binary64) -> f64 {
    f64::from_bits(x.to_bits())
}


struct MockBaseline {
    mean_pps: f64,
    stddev_pps: f64,
    mean_bps: f64,
    stddev_bps: f64,
}

impl Baseline for MockBaseline {
    fn state(&self, proto: ProtoIndex) -> BaselineState {
        self.snapshot(proto)
    }

    fn snapshot(&self, _proto: ProtoIndex) -> BaselineState {
        BaselineState::Ready {
            baseline: ProtoBaseline {
                pps: BaselineStats {
                    mean: b(self.mean_pps),
                    stddev: b(self.stddev_pps),
                },
                bps: BaselineStats {
                    mean: b(self.mean_bps),
                    stddev: b(self.stddev_bps),
                },
            },
        }
    }
}

struct WarmingBaseline;

impl Baseline for WarmingBaseline {
    fn state(&self, proto: ProtoIndex) -> BaselineState {
        self.snapshot(proto)
    }

    fn snapshot(&self, _proto: ProtoIndex) -> BaselineState {
        BaselineState::Warming
    }
}

fn rates(rates: Vec<ProtoRate>) -> Vec<ProtoRate> {
    rates
}

fn rate(proto: ProtoIndex, pps: f64, bps: f64) -> ProtoRate {
    ProtoRate {
        proto,
        pps: b(pps),
        bps: b(bps),
    }
}

#[test]
fn warming_up_returns_warming_up() {
    let baseline = WarmingBaseline;
    let det = EwmaDetector::new(&baseline);
    let result = det.detect(&rates(vec![rate(ProtoIndex::Tcp, 100.0, 10_000.0)]));
    assert!(matches!(result, DetectResult::WarmingUp));
}

#[test]
fn drop_suspicious_signal() {
    // mean=100, stddev=10, observed_pps=60  ->  z_pps = (60-100)/10 = -4.0  ->  Suspicious Drop
    let baseline = MockBaseline {
        mean_pps: 100.0,
        stddev_pps: 10.0,
        mean_bps: 0.0,
        stddev_bps: 1e-10,
    };
    let det = EwmaDetector::new(&baseline);
    let result = det.detect(&rates(vec![rate(ProtoIndex::Tcp, 60.0, 0.0)]));
    let DetectResult::Signals(signals) = result else {
        panic!("expected DetectResult::Signals");
    };
    assert_eq!(signals.len(), 1);
    assert_eq!(signals[0].proto, ProtoIndex::Tcp);
    assert!(matches!(signals[0].kind, AlertKind::Drop));
    assert!(matches!(signals[0].level, AnomalyLevel::Suspicious));
    // confidence = |z_pps| / 10.0 = 4.0 / 10.0 = 0.4
    assert!(
        (v(signals[0].confidence) - 0.4).abs() < 1e-9,
        "expected confidence=0.4, got {}",
        v(signals[0].confidence)
    );
}

#[test]
fn drop_severe_signal() {
    // mean=100, stddev=10, observed_pps=0  ->  z_pps = (0-100)/10 = -10.0  ->  Severe Drop
    let baseline = MockBaseline {
        mean_pps: 100.0,
        stddev_pps: 10.0,
        mean_bps: 0.0,
        stddev_bps: 1e-10,
    };
    let det = EwmaDetector::new(&baseline);
    let result = det.detect(&rates(vec![rate(ProtoIndex::Icmp, 0.0, 0.0)]));
    let DetectResult::Signals(signals) = result else {
        panic!("expected DetectResult::Signals");
    };
    assert_eq!(signals.len(), 1);
    assert!(matches!(signals[0].kind, AlertKind::Drop));
    assert!(matches!(signals[0].level, AnomalyLevel::Severe));
    // confidence = min(10.0 / 10.0, 1.0) = 1.0
    assert!(
        (v(signals[0].confidence) - 1.0).abs() < 1e-9,
        "expected confidence=1.0, got {}",
        v(signals[0].confidence)
    );
}

#[test]
fn spike_positive_z_emits_spike() {
    // mean=100, stddev=10, observed_pps=150  ->  z_pps = +5.0  ->  Suspicious Spike
    let baseline = MockBaseline {
        mean_pps: 100.0,
        stddev_pps: 10.0,
        mean_bps: 0.0,
        stddev_bps: 1e-10,
    };
    let det = EwmaDetector::new(&baseline);
    let result = det.detect(&rates(vec![rate(ProtoIndex::Udp, 150.0, 0.0)]));
    let DetectResult::Signals(signals) = result else {
        panic!("expected DetectResult::Signals");
    };
    assert_eq!(signals.len(), 1);
    assert!(matches!(signals[0].kind, AlertKind::Spike));
    assert!(matches!(signals[0].level, AnomalyLevel::Suspicious));
}

#[test]
fn bps_dominates_pps_in_dominant_z() {
    // z_pps = (130-100)/10 = +3.0 (Suspicious), z_bps = (200-100)/5 = +20.0 (Severe)
    // |z_bps| > |z_pps|, so dominant_z = z_bps (positive) -> Spike, Severe
    let baseline = MockBaseline {
        mean_pps: 100.0,
        stddev_pps: 10.0,
        mean_bps: 100.0,
        stddev_bps: 5.0,
    };
    let det = EwmaDetector::new(&baseline);
    let result = det.detect(&rates(vec![rate(ProtoIndex::Tcp, 130.0, 200.0)]));
    let DetectResult::Signals(signals) = result else {
        panic!("expected DetectResult::Signals");
    };
    assert_eq!(signals.len(), 1);
    assert!(matches!(signals[0].kind, AlertKind::Spike));
    assert!(matches!(signals[0].level, AnomalyLevel::Severe));
    // confidence = (max(|3.0|, |20.0|) / 10.0).min(1.0) = 1.0
    assert!(
        (v(signals[0].confidence) - 1.0).abs() < 1e-9,
        "expected confidence=1.0, got {}",
        v(signals[0].confidence)
    );
}

#[test]
fn normal_z_emits_no_signal() {
    // mean=100, stddev=10, observed_pps=101  ->  z_pps = 0.1  ->  Normal, no signal
    let baseline = MockBaseline {
        mean_pps: 100.0,
        stddev_pps: 10.0,
        mean_bps: 100.0,
        stddev_bps: 10.0,
    };
    let det = EwmaDetector::new(&baseline);
    let result = det.detect(&rates(vec![rate(ProtoIndex::Tcp, 101.0, 101.0)]));
    assert!(matches!(result, DetectResult::Signals(ref s) if s.is_empty()));
}
