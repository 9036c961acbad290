//! Detection of port scans.
use ebpf_xdp_program::anomaly::port_scan_detector::PortScanDetector;
use ebpf_xdp_program::anomaly::ratio_confidence;
use ebpf_xdp_program::binary64::Binary64;
use ebpf_xdp_program::rate::model::PortScanIpBreadth;

/// A double as the library holds it.
fn b(x: f64) -> Binary64 {
    Binary64::from_bits(x.to_bits())
}

/// A number of the library as a double.
fn v(x: Binary64) -> f64 {
    f64::from_bits(x.to_bits())
}


fn breadth(ip: u32, distinct_ports: u32) -> PortScanIpBreadth {
    PortScanIpBreadth {
        src_ip: ip,
        distinct_ports,
    }
}

#[test]
fn port_scan_under_threshold_no_signal() {
    let det = PortScanDetector::new(20, 10, 30_000_000_000);
    let signals = det.detect(&[breadth(1, 19)]);
    assert!(signals.is_empty());
}

#[test]
fn port_scan_over_threshold_fires() {
    let det = PortScanDetector::new(20, 10, 30_000_000_000);
    let signals = det.detect(&[breadth(1, 21)]);
    assert_eq!(signals.len(), 1);
    assert_eq!(signals[0].src_ip, 1);
}

#[test]
fn port_scan_confidence_proportional() {
    // 2x threshold -> ratio = 2.0 -> confidence = (2.0 - 1.0).clamp(0,1) = 1.0
    let det = PortScanDetector::new(50, 10, 30_000_000_000);
    let signals = det.detect(&[breadth(1, 100)]);
    assert!(
        (v(signals[0].confidence) - 1.0).abs() < 1e-9,
        "confidence should be 1.0 at 2x threshold"
    );
}

#[test]
fn port_scan_confidence_matches_ratio_confidence_at_sub_one_threshold() {
    let det = PortScanDetector::new(1, 10, 30_000_000_000);
    let signals = det.detect(&[breadth(1, 2)]);
    assert_eq!(signals.len(), 1);
    assert!(
        (v(signals[0].confidence) - v(ratio_confidence(b(2.0), b(1.0)))).abs() < 1e-9,
        "confidence should equal ratio_confidence(2.0, 1.0), got {}",
        v(signals[0].confidence)
    );
}

#[test]
fn port_scan_multiple_ips_each_signaled() {
    let det = PortScanDetector::new(20, 10, 30_000_000_000);
    let signals = det.detect(&[breadth(1, 30), breadth(2, 10), breadth(3, 40)]);
    assert_eq!(signals.len(), 2);
    assert!(signals.iter().any(|s| s.src_ip == 1));
    assert!(signals.iter().any(|s| s.src_ip == 3));
}
