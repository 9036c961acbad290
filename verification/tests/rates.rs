//! Differences, rates and shares of the traffic counters.
use ebpf_xdp_program::binary64::Binary64;
use ebpf_xdp_program::common::ProtoIndex;
use ebpf_xdp_program::pipeline::prime_or_diff;
use ebpf_xdp_program::rate::compute::{compute_mix, compute_rates, diff_stats};
use ebpf_xdp_program::rate::model::{TrafficCounters, TrafficCountersSnapshot};
use ebpf_xdp_program::time::Instant;

/// A number of the library as a double.
fn v(x: Binary64) -> f64 {
    f64::from_bits(x.to_bits())
}

fn start() -> Instant {
    Instant {
        nanos: 1_000_000_000_000,
    }
}

fn later(t: Instant, secs: u64) -> Instant {
    Instant {
        nanos: t.nanos + secs * 1_000_000_000,
    }
}


#[test]
fn prime_or_diff_no_current_is_noop() {
    let mut prev: Option<i32> = None;
    assert_eq!(prime_or_diff(&mut prev, &None), None);
    assert_eq!(prev, None);

    // Also a no-op when prev was already primed.
    let mut prev = Some(1);
    assert_eq!(prime_or_diff(&mut prev, &None), None);
    assert_eq!(prev, Some(1));
}

#[test]
fn prime_or_diff_first_call_primes_and_returns_none() {
    let mut prev: Option<i32> = None;
    let result = prime_or_diff(&mut prev, &Some(5));
    assert_eq!(result, None);
    assert_eq!(prev, Some(5));
}

#[test]
fn prime_or_diff_second_call_returns_old_and_rotates() {
    let mut prev = Some(5);
    let result = prime_or_diff(&mut prev, &Some(9));
    assert_eq!(result, Some(5));
    assert_eq!(prev, Some(9));
}

fn counters(packets: u64, bytes: u64) -> TrafficCounters {
    TrafficCounters { packets, bytes }
}

#[test]
fn diff_stats_basic() {
    let cur = vec![counters(10, 200), counters(20, 500)];
    let prev = vec![counters(3, 50), counters(5, 100)];
    let diff = diff_stats(&cur, &prev);
    assert_eq!(diff[0].packets, 7);
    assert_eq!(diff[0].bytes, 150);
    assert_eq!(diff[1].packets, 15);
    assert_eq!(diff[1].bytes, 400);
}

#[test]
fn diff_stats_saturates_underflow() {
    let cur = vec![counters(3, 10)];
    let prev = vec![counters(10, 50)];
    let diff = diff_stats(&cur, &prev);
    assert_eq!(diff[0].packets, 0, "saturating_sub should clamp to 0");
    assert_eq!(diff[0].bytes, 0, "saturating_sub should clamp to 0");
}

#[test]
fn compute_rates_correct_pps_bps() {
    // 5 protocol slots, TCP has 1000 packets and 100k bytes in 2 seconds
    let prev_stats = vec![counters(0, 0); ProtoIndex::COUNT as usize];
    let mut curr_stats = vec![counters(0, 0); ProtoIndex::COUNT as usize];
    curr_stats[ProtoIndex::Tcp.index()] = counters(1000, 100_000);

    let t0 = start();
    let prev = TrafficCountersSnapshot { timestamp: t0, stats: prev_stats };
    let curr = TrafficCountersSnapshot {
        timestamp: later(t0, 2),
        stats: curr_stats,
    };

    let rates = compute_rates(&prev, &curr);
    let tcp = rates.iter().find(|r| r.proto == ProtoIndex::Tcp).unwrap();

    assert!((v(tcp.pps) - 500.0).abs() < 1.0, "expected 500 pps, got {}", v(tcp.pps));
    assert!(
        (v(tcp.bps) - 50_000.0).abs() < 1.0,
        "expected 50000 bps, got {}",
        v(tcp.bps)
    );
}

#[test]
fn compute_mix_empty_on_zero_traffic() {
    let delta = vec![counters(0, 0); ProtoIndex::COUNT as usize];
    let mix = compute_mix(&delta);
    assert!(mix.is_empty(), "zero traffic should yield empty mix");
}

#[test]
fn compute_mix_single_proto_100pct() {
    let mut delta = vec![counters(0, 0); ProtoIndex::COUNT as usize];
    delta[ProtoIndex::Tcp.index()] = counters(500, 0);
    let mix = compute_mix(&delta);
    // compute_mix returns all protocols (including 0%), so check TCP's share specifically
    let tcp = mix.iter().find(|(p, _)| *p == ProtoIndex::Tcp).expect("TCP should be in mix");
    assert!((v(tcp.1) - 100.0).abs() < 0.001, "TCP should have 100% share, got {}", v(tcp.1));
}

#[test]
fn compute_mix_sums_to_100() {
    let mut delta = vec![counters(0, 0); ProtoIndex::COUNT as usize];
    delta[ProtoIndex::Tcp.index()] = counters(600, 0);
    delta[ProtoIndex::Udp.index()] = counters(300, 0);
    delta[ProtoIndex::Icmp.index()] = counters(100, 0);
    let mix = compute_mix(&delta);
    let sum: f64 = mix.iter().map(|(_, pct)| v(*pct)).sum();
    assert!((sum - 100.0).abs() < 0.001, "mix should sum to 100, got {}", sum);
}
