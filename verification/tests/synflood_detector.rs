//! Detection of SYN floods.
use ebpf_xdp_program::anomaly::synflood::SynFloodDetector;
use ebpf_xdp_program::binary64::Binary64;
use ebpf_xdp_program::rate::model::SynIpRate;

/// A double as the library holds it.
fn b(x: f64) -> Binary64 {
    Binary64::from_bits(x.to_bits())
}

/// A number of the library as a double.
fn v(x: Binary64) -> f64 {
    f64::from_bits(x.to_bits())
}


fn rate(ip: u32, pps: f64) -> SynIpRate {
    SynIpRate {
        src_ip: ip,
        pps: b(pps),
    }
}

#[test]
fn synflood_under_threshold_no_signal() {
    let det = SynFloodDetector::new(b(100.0), 10);
    let signals = det.detect(&[rate(1, 99.0)]);
    assert!(signals.is_empty());
}

#[test]
fn synflood_over_threshold_fires() {
    let det = SynFloodDetector::new(b(100.0), 10);
    let signals = det.detect(&[rate(1, 101.0)]);
    assert_eq!(signals.len(), 1);
    assert_eq!(signals[0].src_ip, 1);
}

#[test]
fn synflood_confidence_proportional() {
    // 2x threshold -> ratio = 2.0 -> confidence = (2.0 - 1.0).clamp(0,1) = 1.0
    let det = SynFloodDetector::new(b(500.0), 10);
    let signals = det.detect(&[rate(1, 1000.0)]);
    assert!(
        (v(signals[0].confidence) - 1.0).abs() < 1e-9,
        "confidence should be 1.0 at 2x threshold"
    );
}

#[test]
fn synflood_multiple_ips_each_signaled() {
    let det = SynFloodDetector::new(b(100.0), 10);
    let signals = det.detect(&[rate(1, 150.0), rate(2, 50.0), rate(3, 200.0)]);
    assert_eq!(signals.len(), 2);
    assert!(signals.iter().any(|s| s.src_ip == 1));
    assert!(signals.iter().any(|s| s.src_ip == 3));
}
