//! Frames and what they add to the counters.
use ebpf_xdp_program::common::{PortScanKey, PortTouch, ProtoIndex, ProtoStats, SynCounter};
use ebpf_xdp_program::packet::{
    ebpf_xdp_program, is_syn_packet, packet_len, parse_ethhdr, parse_ipv4hdr, parse_l4_protocol,
    proto_to_index, record_packet, record_port_touch, record_syn, L3Info, XDP_PASS,
};

/// An IPv4 frame with `words` words of IP header and the given TCP flags.
fn ipv4(proto: u8, words: u8, flags: u8) -> Vec<u8> {
    let mut f = vec![0u8; 14];
    f[12] = 0x08;
    f[13] = 0x00;
    let mut ip = vec![0u8; 4 * words.max(5) as usize];
    ip[0] = 0x40 | words;
    ip[9] = proto;
    ip[12..16].copy_from_slice(&[192, 168, 1, 7]);
    ip[16..20].copy_from_slice(&[10, 0, 0, 1]);
    f.extend(ip);
    let mut tcp = vec![0u8; 20];
    tcp[0..2].copy_from_slice(&[0xc0, 0x00]);
    tcp[2..4].copy_from_slice(&[0x01, 0xbb]);
    tcp[13] = flags;
    f.extend(tcp);
    f
}

fn ipv6() -> Vec<u8> {
    let mut f = vec![0u8; 54];
    f[12] = 0x86;
    f[13] = 0xdd;
    f
}

#[test]
fn headers_are_read() {
    let f = ipv4(6, 5, 0x02);
    assert_eq!(packet_len(&f), 54);
    assert_eq!(parse_ethhdr(&f), Some(0x0800));
    let l3 = L3Info { proto: 6, src_addr: 0xc0a8_0107, ip_hdr_len: 20 };
    assert_eq!(parse_ipv4hdr(&f), Some(l3));
    assert_eq!(parse_l4_protocol(&f), Some(l3));
    assert_eq!(
        parse_l4_protocol(&ipv6()),
        Some(L3Info { proto: 41, src_addr: 0, ip_hdr_len: 0 })
    );
}

#[test]
fn frames_that_are_cut_off_have_no_headers() {
    let f = ipv4(6, 5, 0x02);
    assert_eq!(parse_ethhdr(&f[..13]), None);
    assert_eq!(parse_ethhdr(&f[..14]), Some(0x0800));
    assert_eq!(parse_l4_protocol(&f[..33]), None);
    assert!(parse_l4_protocol(&f[..34]).is_some());
    assert_eq!(parse_l4_protocol(&ipv6()[..53]), None);
    assert_eq!(is_syn_packet(&f[..53], 20), None);
    assert_eq!(is_syn_packet(&f, 20), Some(true));
    let cut = ebpf_xdp_program(&f[..53]);
    assert_eq!(cut.proto, Some(ProtoIndex::Tcp));
    assert_eq!(cut.syn, None);
}

#[test]
fn other_ether_types_count_nowhere() {
    let mut f = ipv4(6, 5, 0x02);
    f[13] = 0x06;
    let e = ebpf_xdp_program(&f);
    assert_eq!(e.action, XDP_PASS);
    assert_eq!(e.proto, None);
    assert_eq!(e.syn, None);
    assert_eq!(e.bytes, 54);
}

#[test]
fn protocols_have_their_buckets() {
    assert_eq!(proto_to_index(1), ProtoIndex::Icmp);
    assert_eq!(proto_to_index(6), ProtoIndex::Tcp);
    assert_eq!(proto_to_index(17), ProtoIndex::Udp);
    assert_eq!(proto_to_index(41), ProtoIndex::Ipv6);
    assert_eq!(proto_to_index(132), ProtoIndex::Other);
    assert_eq!(ebpf_xdp_program(&ipv6()).proto, Some(ProtoIndex::Ipv6));
    assert_eq!(ebpf_xdp_program(&ipv4(17, 5, 0x02)).proto, Some(ProtoIndex::Udp));
}

#[test]
fn only_a_bare_syn_is_an_attempt() {
    let attempt = Some(PortScanKey::new(0xc0a8_0107, 443));
    assert_eq!(ebpf_xdp_program(&ipv4(6, 5, 0x02)).syn, attempt);
    // Other flags beside it do not matter.
    assert_eq!(ebpf_xdp_program(&ipv4(6, 5, 0xc2)).syn, attempt);
    // Behind options of the IP header it is found as well.
    assert_eq!(ebpf_xdp_program(&ipv4(6, 8, 0x02)).syn, attempt);
    assert_eq!(ebpf_xdp_program(&ipv4(6, 5, 0x12)).syn, None);
    assert_eq!(ebpf_xdp_program(&ipv4(6, 5, 0x10)).syn, None);
    assert_eq!(ebpf_xdp_program(&ipv4(17, 5, 0x02)).syn, None);
}

#[test]
fn counters_add_up_and_wrap() {
    let s = record_packet(ProtoStats { packets: 1, bytes: 100 }, 54);
    assert_eq!((s.packets, s.bytes), (2, 154));
    let s = record_packet(ProtoStats { packets: u64::MAX, bytes: u64::MAX }, 54);
    assert_eq!((s.packets, s.bytes), (0, 53));
    let c = record_syn(None, 60);
    assert_eq!((c.packets, c.bytes), (1, 60));
    let c = record_syn(Some(SynCounter { packets: 4, bytes: 240 }), 60);
    assert_eq!((c.packets, c.bytes), (5, 300));
    assert_eq!(record_port_touch(7), PortTouch { last_seen_ns: 7 });
}
