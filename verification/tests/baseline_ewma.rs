//! Averages and distances from them.
use ebpf_xdp_program::anomaly::zscore::{compute_proto_z_scores, robust_z_score_clipped};
use ebpf_xdp_program::baseline::estimator::{BaselineStats, ProtoBaseline};
use ebpf_xdp_program::baseline::ewma::Ewma;
use ebpf_xdp_program::binary64::Binary64;

/// A double as the library holds it.
fn b(x: f64) -> Binary64 {
    Binary64::from_bits(x.to_bits())
}

/// A number of the library as a double.
fn v(x: Binary64) -> f64 {
    f64::from_bits(x.to_bits())
}

fn scores(baseline: &ProtoBaseline, pps: f64, bps: f64) -> (f64, f64) {
    let (z_pps, z_bps) = compute_proto_z_scores(baseline, b(pps), b(bps));
    (v(z_pps), v(z_bps))
}

const EPSILON: f64 = 1e-9;

#[test]
fn ewma_new_is_zero() {
    let e = Ewma::new(b(0.4));
    assert_eq!(v(e.mean), 0.0);
    assert_eq!(v(e.variance), 0.0);
    assert_eq!(v(e.mad), 0.0);
    assert_eq!(e.samples, 0);
}

#[test]
fn ewma_single_update_moves_mean() {
    let mut e = Ewma::new(b(0.4));
    e.update(b(100.0));
    // After one update from 0, mean should move toward 100
    assert!(v(e.mean) > 0.0, "mean should shift toward sample");
    assert!(v(e.mean) < 100.0, "mean should not jump to sample in one step");
    assert_eq!(e.samples, 1);
}

#[test]
fn ewma_mean_converges() {
    let mut e = Ewma::new(b(0.4));
    for _ in 0..100 {
        e.update(b(50.0));
    }
    assert!(
        (v(e.mean) - 50.0).abs() < 0.01,
        "mean should converge to 50.0, got {}",
        v(e.mean)
    );
}

#[test]
fn ewma_stddev_floor() {
    let e = Ewma::new(b(0.4));
    assert!(v(e.stddev()) >= EPSILON, "stddev must have a floor of EPSILON");
}

#[test]
fn ewma_robust_stddev_floor() {
    let e = Ewma::new(b(0.4));
    assert!(
        v(e.robust_stddev()) >= EPSILON,
        "robust_stddev must have a floor of EPSILON"
    );
}

#[test]
fn ewma_huber_clips_outlier() {
    let mut e = Ewma::new(b(0.4));
    // Establish a stable baseline around 1.0
    for _ in 0..100 {
        e.update(b(1.0));
    }
    let mean_before = v(e.mean);
    // Inject a massive outlier
    e.update(b(10_000.0));
    let mean_after = v(e.mean);
    // Huber clipping should keep the mean from jumping far from 1.0
    assert!(
        (mean_after - mean_before).abs() < 5.0,
        "Huber clipping should resist outlier; mean jumped from {} to {}",
        mean_before,
        mean_after
    );
}

#[test]
fn ewma_variance_increases_with_spread() {
    let mut e_const = Ewma::new(b(0.4));
    let mut e_spread = Ewma::new(b(0.4));

    for i in 0..50 {
        e_const.update(b(10.0));
        e_spread.update(b(if i % 2 == 0 { 1.0 } else { 100.0 }));
    }

    assert!(
        v(e_spread.variance) > v(e_const.variance),
        "spread input should produce higher variance than constant input"
    );
}

fn make_baseline(
    pps_mean: f64,
    pps_stddev: f64,
    bps_mean: f64,
    bps_stddev: f64,
) -> ProtoBaseline {
    ProtoBaseline {
        pps: BaselineStats {
            mean: b(pps_mean),
            stddev: b(pps_stddev),
        },
        bps: BaselineStats {
            mean: b(bps_mean),
            stddev: b(bps_stddev),
        },
    }
}

#[test]
fn z_score_zero_stddev_returns_zero() {
    // EPSILON stddev is considered too small -> falls back to 0.0
    let baseline = make_baseline(100.0, EPSILON, 10_000.0, EPSILON);
    let (z_pps, z_bps) = scores(&baseline, 200.0, 20_000.0);
    assert_eq!(z_pps, 0.0);
    assert_eq!(z_bps, 0.0);
}

#[test]
fn z_score_exact_mean_is_zero() {
    let baseline = make_baseline(100.0, 10.0, 10_000.0, 1_000.0);
    let (z_pps, z_bps) = scores(&baseline, 100.0, 10_000.0);
    assert!(
        (z_pps).abs() < 1e-9,
        "value == mean should give z=0, got {}",
        z_pps
    );
    assert!(
        (z_bps).abs() < 1e-9,
        "value == mean should give z=0, got {}",
        z_bps
    );
}

#[test]
fn z_score_above_mean() {
    let baseline = make_baseline(100.0, 10.0, 0.0, 1.0);
    let (z_pps, _) = scores(&baseline, 130.0, 0.0);
    assert!((z_pps - 3.0).abs() < 1e-9, "expected z=3.0, got {}", z_pps);
}

#[test]
fn z_score_below_mean() {
    let baseline = make_baseline(100.0, 10.0, 0.0, 1.0);
    let (z_pps, _) = scores(&baseline, 70.0, 0.0);
    assert!(
        (z_pps - (-3.0)).abs() < 1e-9,
        "expected z=-3.0, got {}",
        z_pps
    );
}

#[test]
fn robust_z_clipped_returns_none_low_stddev() {
    assert!(robust_z_score_clipped(b(100.0), b(50.0), b(0.0)).is_none());
    assert!(robust_z_score_clipped(b(100.0), b(50.0), b(EPSILON)).is_none());
}

#[test]
fn robust_z_clipped_clamps_at_10() {
    // z = (10000 - 0) / 1 = 10000, should be clamped to 10
    let result = v(robust_z_score_clipped(b(10_000.0), b(0.0), b(1.0)).unwrap());
    assert!(
        (result - 10.0).abs() < 1e-9,
        "should be clamped to 10, got {}",
        result
    );
}
