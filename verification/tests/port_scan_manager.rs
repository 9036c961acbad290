//! Port-scan alerts per source address.
use ebpf_xdp_program::alert::model::PortScanSignal;
use ebpf_xdp_program::alert::state::AlertLifecycle;
use ebpf_xdp_program::alert::port_scan_manager::PortScanAlertManager;
use ebpf_xdp_program::binary64::Binary64;
use ebpf_xdp_program::time::{Duration, Instant};

/// A double as the library holds it.
fn b(x: f64) -> Binary64 {
    Binary64::from_bits(x.to_bits())
}

fn t0() -> Instant {
    Instant { nanos: 1_000_000_000_000 }
}

const NO_COOLDOWN: Duration = Duration { nanos: 0 };

fn signal(ip: u32, distinct_ports: u32) -> PortScanSignal {
    PortScanSignal {
        src_ip: ip,
        distinct_ports,
        confidence: b(1.0),
    }
}

#[test]
fn port_scan_manager_fires_after_consecutive() {
    let mut mgr = PortScanAlertManager::new(NO_COOLDOWN, 3, 1);
    let now = t0();

    let e1 = mgr.evaluate(&[signal(1, 30)], now);
    let e2 = mgr.evaluate(&[signal(1, 30)], now);
    let e3 = mgr.evaluate(&[signal(1, 30)], now);

    assert!(e1.is_empty());
    assert!(e2.is_empty());
    assert_eq!(e3.len(), 1);
    assert!(matches!(e3[0].lifecycle, AlertLifecycle::Fired));
    assert_eq!(e3[0].alert.src_ip, 1);
}

#[test]
fn port_scan_manager_resolves_after_quiet() {
    let mut mgr = PortScanAlertManager::new(NO_COOLDOWN, 1, 1);
    let now = t0();

    let fired = mgr.evaluate(&[signal(1, 30)], now);
    assert_eq!(fired.len(), 1);
    assert!(matches!(fired[0].lifecycle, AlertLifecycle::Fired));

    let resolved = mgr.evaluate(&[], now);
    assert_eq!(resolved.len(), 1);
    assert!(matches!(resolved[0].lifecycle, AlertLifecycle::Resolved));
}

#[test]
fn port_scan_manager_cooldown_blocks_refire() {
    let long_cooldown = Duration::from_secs(3600);
    let mut mgr = PortScanAlertManager::new(long_cooldown, 1, 1);
    let now = t0();

    mgr.evaluate(&[signal(1, 30)], now); // fires
    mgr.evaluate(&[], now); // resolves, still within cooldown

    let refire = mgr.evaluate(&[signal(1, 30)], now);
    assert!(refire.is_empty(), "cooldown should block refire");
}

#[test]
fn port_scan_manager_gc_drops_inactive_non_signaled_ip() {
    let mut mgr = PortScanAlertManager::new(NO_COOLDOWN, 5, 1);
    let now = t0();

    mgr.evaluate(&[signal(1, 30)], now); // count=1, Pending
    assert_eq!(mgr.active_count(), 1);
    mgr.evaluate(&[], now); // signal gone, not hot -> GC'd
    assert_eq!(mgr.active_count(), 0);
}

#[test]
fn port_scan_manager_bounded_state_does_not_grow_with_ip_churn() {
    let top_n = 5;
    let mut mgr = PortScanAlertManager::new(NO_COOLDOWN, 3, 1);
    let now = t0();

    for tick in 0..100u32 {
        let ips: Vec<PortScanSignal> = (0..top_n)
            .map(|i| signal(tick * top_n as u32 + i as u32, 30))
            .collect();
        mgr.evaluate(&ips, now);
    }

    assert!(
        mgr.active_count() <= top_n,
        "active_count should stay bounded by top_n, got {}",
        mgr.active_count()
    );
}
