//! Rates and ports per source address.
use ebpf_xdp_program::binary64::Binary64;
use ebpf_xdp_program::common::{PortScanKey, PortTouch, SynCounter};
use ebpf_xdp_program::rate::model::{PortScanCountersSnapshot, SynCountersSnapshot};
use ebpf_xdp_program::rate::port_scan_compute::compute_port_scan_breadth;
use ebpf_xdp_program::rate::synflood_compute::compute_syn_rates_top_n;
use ebpf_xdp_program::time::Instant;

/// A number of the library as a double.
fn v(x: Binary64) -> f64 {
    f64::from_bits(x.to_bits())
}

fn start() -> Instant {
    Instant {
        nanos: 1_000_000_000_000,
    }
}

fn later(t: Instant, secs: u64) -> Instant {
    Instant {
        nanos: t.nanos + secs * 1_000_000_000,
    }
}


fn snapshot(t: Instant, entries: &[(u32, u64)]) -> SynCountersSnapshot {
    let counters = entries
        .iter()
        .map(|&(ip, packets)| (ip, SynCounter { packets, bytes: packets * 60 }))
        .collect();
    SynCountersSnapshot {
        timestamp: t,
        counters,
    }
}

#[test]
fn synflood_compute_syn_rates_top_n_basic() {
    let t0 = start();
    let prev = snapshot(t0, &[(1, 10)]);
    let curr = snapshot(later(t0, 1), &[(1, 110)]);

    let rates = compute_syn_rates_top_n(&prev, &curr, 10);
    assert_eq!(rates.len(), 1);
    assert_eq!(rates[0].src_ip, 1);
    assert!((v(rates[0].pps) - 100.0).abs() < 1.0, "got {}", v(rates[0].pps));
}

#[test]
fn synflood_compute_syn_rates_top_n_truncates_to_top_n() {
    let t0 = start();
    let prev = snapshot(t0, &[]);
    let curr = snapshot(later(t0, 1), &[(1, 300), (2, 100), (3, 200)]);

    let rates = compute_syn_rates_top_n(&prev, &curr, 2);
    assert_eq!(rates.len(), 2);
    assert_eq!(rates[0].src_ip, 1);
    assert_eq!(rates[1].src_ip, 3);
}

#[test]
fn synflood_compute_syn_rates_top_n_treats_new_ip_as_fresh() {
    let t0 = start();
    let prev = snapshot(t0, &[]);
    let curr = snapshot(later(t0, 1), &[(7, 50)]);

    let rates = compute_syn_rates_top_n(&prev, &curr, 10);
    assert_eq!(rates.len(), 1);
    assert!((v(rates[0].pps) - 50.0).abs() < 1.0, "got {}", v(rates[0].pps));
}

#[test]
fn synflood_compute_syn_rates_top_n_drops_ip_only_in_prev() {
    let t0 = start();
    let prev = snapshot(t0, &[(1, 10), (2, 20)]);
    let curr = snapshot(later(t0, 1), &[(1, 20)]);

    let rates = compute_syn_rates_top_n(&prev, &curr, 10);
    assert_eq!(rates.len(), 1);
    assert_eq!(rates[0].src_ip, 1);
}

#[test]
fn synflood_compute_syn_rates_top_n_zero_dt_returns_empty() {
    let t0 = start();
    let prev = snapshot(t0, &[(1, 10)]);
    let curr = snapshot(t0, &[(1, 20)]);

    let rates = compute_syn_rates_top_n(&prev, &curr, 10);
    assert!(rates.is_empty());
}

#[test]
fn synflood_compute_compute_syn_rates_top_n_basic() {
    let t0 = start();
    let prev = snapshot(t0, &[(1, 10)]);
    let curr = snapshot(later(t0, 1), &[(1, 110)]);

    let rates = compute_syn_rates_top_n(&prev, &curr, 10);
    assert_eq!(rates.len(), 1);
    assert_eq!(rates[0].src_ip, 1);
    assert!((v(rates[0].pps) - 100.0).abs() < 1.0, "got {}", v(rates[0].pps));
}

#[test]
fn synflood_compute_compute_syn_rates_top_n_truncates_to_top_n() {
    let t0 = start();
    let prev = snapshot(t0, &[]);
    let curr = snapshot(later(t0, 1), &[(1, 300), (2, 100), (3, 200)]);

    let rates = compute_syn_rates_top_n(&prev, &curr, 2);
    assert_eq!(rates.len(), 2);
    assert_eq!(rates[0].src_ip, 1);
    assert_eq!(rates[1].src_ip, 3);
}

#[test]
fn synflood_compute_compute_syn_rates_top_n_treats_new_ip_as_fresh() {
    let t0 = start();
    let prev = snapshot(t0, &[]);
    let curr = snapshot(later(t0, 1), &[(7, 50)]);

    let rates = compute_syn_rates_top_n(&prev, &curr, 10);
    assert_eq!(rates.len(), 1);
    assert!((v(rates[0].pps) - 50.0).abs() < 1.0, "got {}", v(rates[0].pps));
}

#[test]
fn synflood_compute_compute_syn_rates_top_n_drops_ip_only_in_prev() {
    let t0 = start();
    let prev = snapshot(t0, &[(1, 10), (2, 20)]);
    let curr = snapshot(later(t0, 1), &[(1, 20)]);

    let rates = compute_syn_rates_top_n(&prev, &curr, 10);
    assert_eq!(rates.len(), 1);
    assert_eq!(rates[0].src_ip, 1);
}

#[test]
fn synflood_compute_compute_syn_rates_top_n_zero_dt_returns_empty() {
    let t0 = start();
    let prev = snapshot(t0, &[(1, 10)]);
    let curr = snapshot(t0, &[(1, 20)]);

    let rates = compute_syn_rates_top_n(&prev, &curr, 10);
    assert!(rates.is_empty());
}

fn touches(now_ns: u64, entries: &[(u32, u16, u64)]) -> PortScanCountersSnapshot {
    let mut snap = PortScanCountersSnapshot::new(now_ns);
    for &(ip, port, last_seen_ns) in entries {
        snap.insert(PortScanKey::new(ip, port), PortTouch { last_seen_ns });
    }
    snap
}

#[test]
fn compute_port_scan_breadth_basic() {
    let snap = touches(1_000, &[(1, 80, 900), (1, 443, 950), (1, 22, 990)]);
    let breadths = compute_port_scan_breadth(&snap, 1_000, 10);
    assert_eq!(breadths.len(), 1);
    assert_eq!(breadths[0].src_ip, 1);
    assert_eq!(breadths[0].distinct_ports, 3);
}

#[test]
fn compute_port_scan_breadth_counts_distinct_ports_only() {
    let snap = touches(1_000, &[(1, 80, 900), (1, 80, 950)]);
    let breadths = compute_port_scan_breadth(&snap, 1_000, 10);
    assert_eq!(breadths[0].distinct_ports, 1);
}

#[test]
fn compute_port_scan_breadth_excludes_stale_touches_outside_window() {
    let snap = touches(10_000, &[(1, 80, 9_000), (1, 443, 1_000)]);
    let breadths = compute_port_scan_breadth(&snap, 2_000, 10);
    assert_eq!(breadths.len(), 1);
    assert_eq!(breadths[0].distinct_ports, 1);
}

#[test]
fn compute_port_scan_breadth_empty_when_all_stale() {
    let snap = touches(10_000, &[(1, 80, 1_000)]);
    let breadths = compute_port_scan_breadth(&snap, 2_000, 10);
    assert!(breadths.is_empty());
}

#[test]
fn compute_port_scan_breadth_truncates_to_top_n() {
    let snap = touches(
        1_000,
        &[
            (1, 80, 1_000),
            (2, 80, 1_000),
            (2, 443, 1_000),
            (3, 80, 1_000),
            (3, 443, 1_000),
            (3, 22, 1_000),
        ],
    );
    let breadths = compute_port_scan_breadth(&snap, 1_000, 2);
    assert_eq!(breadths.len(), 2);
    assert_eq!(breadths[0].src_ip, 3);
    assert_eq!(breadths[0].distinct_ports, 3);
    assert_eq!(breadths[1].src_ip, 2);
    assert_eq!(breadths[1].distinct_ports, 2);
}
