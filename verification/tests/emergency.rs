//! Detection by absolute thresholds.
use ebpf_xdp_program::alert::model::AlertKind;
use ebpf_xdp_program::anomaly::detector::{AnomalyDetector, DetectResult};
use ebpf_xdp_program::anomaly::emergency::{EmergencyDetector, EmergencyThreshold};
use ebpf_xdp_program::anomaly::model::AnomalyLevel;
use ebpf_xdp_program::binary64::Binary64;
use ebpf_xdp_program::common::ProtoIndex;
use ebpf_xdp_program::rate::model::ProtoRate;

/// A double as the library holds it.
fn b(x: f64) -> Binary64 {
    Binary64::from_bits(x.to_bits())
}

/// A number of the library as a double.
fn v(x: Binary64) -> f64 {
    f64::from_bits(x.to_bits())
}


fn snapshot(rates: Vec<ProtoRate>) -> Vec<ProtoRate> {
    rates
}

fn rate(proto: ProtoIndex, pps: f64, bps: f64) -> ProtoRate {
    ProtoRate {
        proto,
        pps: b(pps),
        bps: b(bps),
    }
}

#[test]
fn emergency_no_threshold_no_signal() {
    let det = EmergencyDetector::new(vec![]);
    let result = det.detect(&snapshot(vec![rate(ProtoIndex::Tcp, 1_000_000.0, 1e12)]));
    assert!(matches!(result, DetectResult::Signals(ref s) if s.is_empty()));
}

#[test]
fn emergency_under_threshold_no_signal() {
    let det = EmergencyDetector::new(vec![EmergencyThreshold {
        proto: ProtoIndex::Tcp,
        max_pps: Some(b(1000.0)),
        max_bps: Some(b(100_000.0)),
    }]);
    let result = det.detect(&snapshot(vec![rate(ProtoIndex::Tcp, 999.0, 99_999.0)]));
    assert!(matches!(result, DetectResult::Signals(ref s) if s.is_empty()));
}

#[test]
fn emergency_pps_exceeded_fires() {
    let det = EmergencyDetector::new(vec![EmergencyThreshold {
        proto: ProtoIndex::Tcp,
        max_pps: Some(b(1000.0)),
        max_bps: None,
    }]);
    let result = det.detect(&snapshot(vec![rate(ProtoIndex::Tcp, 1001.0, 0.0)]));
    let DetectResult::Signals(signals) = result else {
        panic!("expected DetectResult::Signals");
    };
    assert_eq!(signals.len(), 1);
    assert_eq!(signals[0].proto, ProtoIndex::Tcp);
    assert_eq!(signals[0].kind, AlertKind::Emergency);
    assert_eq!(signals[0].level, AnomalyLevel::Severe);
}

#[test]
fn emergency_bps_exceeded_fires() {
    let det = EmergencyDetector::new(vec![EmergencyThreshold {
        proto: ProtoIndex::Udp,
        max_pps: None,
        max_bps: Some(b(100_000.0)),
    }]);
    let result = det.detect(&snapshot(vec![rate(ProtoIndex::Udp, 0.0, 100_001.0)]));
    let DetectResult::Signals(signals) = result else {
        panic!("expected DetectResult::Signals");
    };
    assert_eq!(signals.len(), 1);
    assert_eq!(signals[0].proto, ProtoIndex::Udp);
}

#[test]
fn emergency_confidence_proportional() {
    // 2x threshold -> ratio = 2.0 -> confidence = (2.0 - 1.0).clamp(0,1) = 1.0
    let det = EmergencyDetector::new(vec![EmergencyThreshold {
        proto: ProtoIndex::Icmp,
        max_pps: Some(b(500.0)),
        max_bps: None,
    }]);
    let result = det.detect(&snapshot(vec![rate(ProtoIndex::Icmp, 1000.0, 0.0)]));
    let DetectResult::Signals(signals) = result else {
        panic!("expected DetectResult::Signals");
    };
    assert!(
        (v(signals[0].confidence) - 1.0).abs() < 1e-9,
        "confidence should be 1.0 at 2x threshold"
    );
}
