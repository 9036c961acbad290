//! Levels, confidence and the view of a single rate.
use ebpf_xdp_program::anomaly::detector::compute_anomaly_view;
use ebpf_xdp_program::anomaly::model::AnomalyLevel;
use ebpf_xdp_program::anomaly::ratio_confidence;
use ebpf_xdp_program::baseline::estimator::{BaselineState, BaselineStats, ProtoBaseline};
use ebpf_xdp_program::binary64::Binary64;

/// A double as the library holds it.
fn b(x: f64) -> Binary64 {
    Binary64::from_bits(x.to_bits())
}

/// A number of the library as a double.
fn v(x: Binary64) -> f64 {
    f64::from_bits(x.to_bits())
}


#[test]
fn ratio_confidence_at_threshold_is_zero() {
    assert_eq!(v(ratio_confidence(b(100.0), b(100.0))), 0.0);
}

#[test]
fn ratio_confidence_below_threshold_clamped_to_zero() {
    assert_eq!(v(ratio_confidence(b(50.0), b(100.0))), 0.0);
}

#[test]
fn ratio_confidence_at_double_threshold_is_one() {
    assert_eq!(v(ratio_confidence(b(200.0), b(100.0))), 1.0);
}

#[test]
fn ratio_confidence_above_double_threshold_clamped_to_one() {
    assert_eq!(v(ratio_confidence(b(1_000_000.0), b(100.0))), 1.0);
}

#[test]
fn ratio_confidence_scales_linearly_between_bounds() {
    // 1.5x threshold -> ratio 1.5 -> (1.5 - 1.0).clamp(0,1) = 0.5
    assert!((v(ratio_confidence(b(150.0), b(100.0))) - 0.5).abs() < 1e-9);
}

#[test]
fn model_anomaly_level_ordering() {
    assert!(AnomalyLevel::Normal < AnomalyLevel::Suspicious);
    assert!(AnomalyLevel::Suspicious < AnomalyLevel::Severe);
    assert!(AnomalyLevel::Normal < AnomalyLevel::Severe);
}

#[test]
fn model_anomaly_level_is_normal() {
    assert!(AnomalyLevel::Normal.is_normal());
}

#[test]
fn model_anomaly_level_is_not_normal() {
    assert!(!AnomalyLevel::Suspicious.is_normal());
    assert!(!AnomalyLevel::Severe.is_normal());
}

#[test]
fn model_anomaly_level_label_all_variants() {
    assert_eq!(AnomalyLevel::Normal.label(), "normal");
    assert_eq!(AnomalyLevel::Suspicious.label(), "suspicious");
    assert_eq!(AnomalyLevel::Severe.label(), "severe");
}

#[test]
fn detector_anomaly_level_ordering() {
    assert!(AnomalyLevel::Normal < AnomalyLevel::Suspicious);
    assert!(AnomalyLevel::Suspicious < AnomalyLevel::Severe);
    assert!(AnomalyLevel::Normal < AnomalyLevel::Severe);
}

#[test]
fn detector_anomaly_level_is_normal() {
    assert!(AnomalyLevel::Normal.is_normal());
}

#[test]
fn detector_anomaly_level_is_not_normal() {
    assert!(!AnomalyLevel::Suspicious.is_normal());
    assert!(!AnomalyLevel::Severe.is_normal());
}

#[test]
fn detector_anomaly_level_label_all_variants() {
    assert_eq!(AnomalyLevel::Normal.label(), "normal");
    assert_eq!(AnomalyLevel::Suspicious.label(), "suspicious");
    assert_eq!(AnomalyLevel::Severe.label(), "severe");
}

fn ready_baseline(
    pps_mean: f64,
    pps_stddev: f64,
    bps_mean: f64,
    bps_stddev: f64,
) -> BaselineState {
    BaselineState::Ready {
        baseline: ProtoBaseline {
            pps: BaselineStats {
                mean: b(pps_mean),
                stddev: b(pps_stddev),
            },
            bps: BaselineStats {
                mean: b(bps_mean),
                stddev: b(bps_stddev),
            },
        },
    }
}

#[test]
fn compute_anomaly_view_warming_returns_zeros() {
    let view = compute_anomaly_view(&BaselineState::Warming, b(1000.0), b(100_000.0));
    assert_eq!(v(view.z_pps), 0.0);
    assert_eq!(v(view.z_bps), 0.0);
    assert!(matches!(view.level, AnomalyLevel::Normal));
    assert_eq!(v(view.confidence), 0.0);
}

#[test]
fn compute_anomaly_view_low_z_is_normal() {
    let baseline = ready_baseline(100.0, 10.0, 10_000.0, 1_000.0);
    let view = compute_anomaly_view(&baseline, b(105.0), b(10_500.0));
    assert!(matches!(view.level, AnomalyLevel::Normal));
}

#[test]
fn compute_anomaly_view_mid_z_is_suspicious() {
    let baseline = ready_baseline(100.0, 10.0, 10_000.0, 1_000.0);
    // 4 stddev above mean -> |z| = 4, within [3, 6).
    let view = compute_anomaly_view(&baseline, b(140.0), b(10_000.0));
    assert!(matches!(view.level, AnomalyLevel::Suspicious));
}

#[test]
fn compute_anomaly_view_high_z_is_severe() {
    let baseline = ready_baseline(100.0, 10.0, 10_000.0, 1_000.0);
    // 10 stddev above mean -> |z| = 10, >= 6.
    let view = compute_anomaly_view(&baseline, b(200.0), b(10_000.0));
    assert!(matches!(view.level, AnomalyLevel::Severe));
}

#[test]
fn compute_anomaly_view_confidence_clamped_at_one() {
    let baseline = ready_baseline(100.0, 10.0, 10_000.0, 1_000.0);
    // 50 stddev above mean -> |z| = 50, confidence = (50/10).min(1.0) = 1.0.
    let view = compute_anomaly_view(&baseline, b(600.0), b(10_000.0));
    assert_eq!(v(view.confidence), 1.0);
}
