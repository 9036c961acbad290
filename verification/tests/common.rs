//! Protocol buckets and counters.
use ebpf_xdp_program::common::{PortScanKey, PortTouch, ProtoIndex, ProtoStats, SynCounter};

#[test]
fn proto_index_from_index_valid() {
    assert_eq!(ProtoIndex::from_index(0), Some(ProtoIndex::Icmp));
    assert_eq!(ProtoIndex::from_index(1), Some(ProtoIndex::Tcp));
    assert_eq!(ProtoIndex::from_index(2), Some(ProtoIndex::Udp));
    assert_eq!(ProtoIndex::from_index(3), Some(ProtoIndex::Ipv6));
    assert_eq!(ProtoIndex::from_index(4), Some(ProtoIndex::Other));
}

#[test]
fn proto_index_from_index_invalid() {
    assert_eq!(ProtoIndex::from_index(5), None);
    assert_eq!(ProtoIndex::from_index(100), None);
}

#[test]
fn proto_index_label() {
    assert_eq!(ProtoIndex::Icmp.label(), "ICMP");
    assert_eq!(ProtoIndex::Tcp.label(), "TCP");
    assert_eq!(ProtoIndex::Udp.label(), "UDP");
    assert_eq!(ProtoIndex::Ipv6.label(), "IPv6");
    assert_eq!(ProtoIndex::Other.label(), "OTHER");
}

#[test]
fn proto_index_count() {
    assert_eq!(ProtoIndex::COUNT, 5);
}

#[test]
fn proto_index_tryfrom_roundtrip() {
    for i in 0..ProtoIndex::COUNT as usize {
        let proto = ProtoIndex::try_from(i).expect("valid index should convert");
        assert_eq!(proto.index(), i);
    }
}

#[test]
fn proto_stats_zeroed() {
    let s = ProtoStats::zeroed();
    assert_eq!(s.packets, 0);
    assert_eq!(s.bytes, 0);
}

#[test]
fn syn_counter_zeroed() {
    let s = SynCounter::zeroed();
    assert_eq!(s.packets, 0);
    assert_eq!(s.bytes, 0);
}

#[test]
fn port_touch_zeroed() {
    let t = PortTouch::zeroed();
    assert_eq!(t.last_seen_ns, 0);
}

#[test]
fn port_scan_key_new_zeroes_pad() {
    let k = PortScanKey::new(0x0102_0304, 443);
    assert_eq!(k.src_addr, 0x0102_0304);
    assert_eq!(k.dst_port, 443);
    assert_eq!(k._pad, 0);
}

#[test]
fn port_scan_key_equality_ignores_construction_path() {
    let a = PortScanKey::new(1, 80);
    let b = PortScanKey {
        src_addr: 1,
        dst_port: 80,
        _pad: 0,
    };
    assert_eq!(a, b);
}
