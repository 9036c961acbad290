//! What the kernel program does with a frame: it counts it and lets it pass.
use vstd::prelude::*;

use crate::common::{PortScanKey, PortTouch, ProtoIndex, ProtoStats, SynCounter};

verus! {

/// Bytes of an Ethernet header.
pub const ETH_LEN: usize = 14;

/// Bytes of an IPv4 header without options.
pub const IPV4_LEN: usize = 20;

/// Bytes of an IPv6 header.
pub const IPV6_LEN: usize = 40;

/// Bytes of a TCP header without options.
pub const TCP_LEN: usize = 20;

/// Ethernet type of IPv4.
pub const ETHER_IPV4: u16 = 0x0800;

/// Ethernet type of IPv6.
pub const ETHER_IPV6: u16 = 0x86dd;

/// Protocol number of ICMP.
pub const IP_ICMP: u8 = 1;

/// Protocol number of TCP.
pub const IP_TCP: u8 = 6;

/// Protocol number of UDP.
pub const IP_UDP: u8 = 17;

/// Protocol number of IPv6.
pub const IP_IPV6: u8 = 41;

/// The verdict that hands a frame on to the network stack.
pub const XDP_PASS: u32 = 2;

/// What the network layer of a frame says. The address and the header length are those of
/// IPv4, and 0 for IPv6.
#[derive(Debug, Clone, Copy, PartialEq, Eq, Structural)]
pub struct L3Info {
    pub proto: u8,
    pub src_addr: u32,
    pub ip_hdr_len: usize,
}

/// What a frame adds to the counters.
#[derive(Debug, Clone, Copy, PartialEq, Eq, Structural)]
pub struct PacketEffect {
    /// The verdict on the frame.
    pub action: u32,
    /// Length of the frame.
    pub bytes: u64,
    /// The bucket that the frame counts in.
    pub proto: Option<ProtoIndex>,
    /// The source address and destination port of a connection attempt.
    pub syn: Option<PortScanKey>,
}

/// Whether `len` bytes at `offset` lie within the frame.
pub open spec fn fits(frame: Seq<u8>, offset: int, len: int) -> bool {
    offset + len <= frame.len()
}

/// Two bytes, the more significant one first.
pub open spec fn be16(frame: Seq<u8>, at: int) -> u16 {
    (frame[at] * 0x100 + frame[at + 1]) as u16
}

/// Four bytes, the most significant one first.
pub open spec fn be32(frame: Seq<u8>, at: int) -> u32 {
    (frame[at] * 0x100_0000 + frame[at + 1] * 0x1_0000 + frame[at + 2] * 0x100 + frame[at
        + 3]) as u32
}

/// The type of what an Ethernet frame carries; `None` if the frame is cut off before it.
pub open spec fn ether_type(frame: Seq<u8>) -> Option<u16> {
    if fits(frame, 0, 14) {
        Some(be16(frame, 12))
    } else {
        None
    }
}

/// The IPv4 header of a frame; `None` if the frame is cut off within it.
pub open spec fn ipv4_info(frame: Seq<u8>) -> Option<L3Info> {
    if fits(frame, 14, 20) {
        Some(
            L3Info {
                proto: frame[23],
                src_addr: be32(frame, 26),
                ip_hdr_len: ((frame[14] & 0xf) * 4) as usize,
            },
        )
    } else {
        None
    }
}

/// The network layer of a frame; `None` if it is neither IPv4 nor IPv6, or cut off.
pub open spec fn l3_info(frame: Seq<u8>) -> Option<L3Info> {
    match ether_type(frame) {
        Some(t) => if t == ETHER_IPV4 {
            ipv4_info(frame)
        } else if t == ETHER_IPV6 && fits(frame, 14, 40) {
            Some(L3Info { proto: IP_IPV6, src_addr: 0, ip_hdr_len: 0 })
        } else {
            None
        },
        None => None,
    }
}

/// Whether the TCP header behind an IP header of `ip_hdr_len` bytes has SYN without ACK;
/// `None` if the frame is cut off within it.
pub open spec fn bare_syn(frame: Seq<u8>, ip_hdr_len: int) -> Option<bool> {
    if fits(frame, 14 + ip_hdr_len, 20) {
        let flags = frame[14 + ip_hdr_len + 13];
        Some(flags & 0x02 != 0 && flags & 0x10 == 0)
    } else {
        None
    }
}

/// The bucket of an IP protocol number.
pub open spec fn bucket(proto: u8) -> ProtoIndex {
    if proto == IP_ICMP {
        ProtoIndex::Icmp
    } else if proto == IP_TCP {
        ProtoIndex::Tcp
    } else if proto == IP_UDP {
        ProtoIndex::Udp
    } else if proto == IP_IPV6 {
        ProtoIndex::Ipv6
    } else {
        ProtoIndex::Other
    }
}

/// The source address and destination port of a connection attempt: a TCP segment with SYN
/// and without ACK.
pub open spec fn attempt(frame: Seq<u8>) -> Option<PortScanKey> {
    match l3_info(frame) {
        Some(l3) => if l3.proto == IP_TCP && bare_syn(frame, l3.ip_hdr_len as int) == Some(true) {
            Some(
                PortScanKey {
                    src_addr: l3.src_addr,
                    dst_port: be16(frame, 14 + l3.ip_hdr_len + 2),
                    _pad: 0,
                },
            )
        } else {
            None
        },
        None => None,
    }
}

/// What `frame` adds to the counters.
pub open spec fn effect(frame: Seq<u8>) -> PacketEffect {
    PacketEffect {
        action: XDP_PASS,
        bytes: frame.len() as u64,
        proto: match l3_info(frame) {
            Some(l3) => Some(bucket(l3.proto)),
            None => None,
        },
        syn: attempt(frame),
    }
}

/// Whether `len` bytes at `offset` lie within the frame.
fn header_fits(frame: &[u8], offset: usize, len: usize) -> (r: bool)
    ensures
        r == fits(frame@, offset as int, len as int),
{
    offset <= frame.len() && len <= frame.len() - offset
}

fn read_be16(frame: &[u8], at: usize) -> (r: u16)
    requires
        at + 2 <= frame@.len(),
    ensures
        r == be16(frame@, at as int),
{
    frame[at] as u16 * 0x100 + frame[at + 1] as u16
}

fn read_be32(frame: &[u8], at: usize) -> (r: u32)
    requires
        at + 4 <= frame@.len(),
    ensures
        r == be32(frame@, at as int),
{
    frame[at] as u32 * 0x100_0000 + frame[at + 1] as u32 * 0x1_0000 + frame[at + 2] as u32 * 0x100
        + frame[at + 3] as u32
}

/// The length of a frame.
pub fn packet_len(frame: &[u8]) -> (r: u64)
    ensures
        r == frame@.len(),
{
    frame.len() as u64
}

/// The type of what an Ethernet frame carries; `None` if the frame is cut off before it.
pub fn parse_ethhdr(frame: &[u8]) -> (r: Option<u16>)
    ensures
        r == ether_type(frame@),
{
    if header_fits(frame, 0, ETH_LEN) {
        Some(read_be16(frame, 12))
    } else {
        None
    }
}

/// The IPv4 header of a frame; `None` if the frame is cut off within it.
pub fn parse_ipv4hdr(frame: &[u8]) -> (r: Option<L3Info>)
    ensures
        r == ipv4_info(frame@),
{
    if header_fits(frame, ETH_LEN, IPV4_LEN) {
        let vihl: u8 = frame[14];
        assert(vihl & 0xf <= 0xf) by (bit_vector);
        Some(
            L3Info {
                proto: frame[23],
                src_addr: read_be32(frame, 26),
                ip_hdr_len: (vihl & 0xf) as usize * 4,
            },
        )
    } else {
        None
    }
}

/// The network layer of a frame; `None` if it is neither IPv4 nor IPv6, or cut off.
pub fn parse_l4_protocol(frame: &[u8]) -> (r: Option<L3Info>)
    ensures
        r == l3_info(frame@),
{
    match parse_ethhdr(frame) {
        Some(t) => {
            if t == ETHER_IPV4 {
                parse_ipv4hdr(frame)
            } else if t == ETHER_IPV6 && header_fits(frame, ETH_LEN, IPV6_LEN) {
                Some(L3Info { proto: IP_IPV6, src_addr: 0, ip_hdr_len: 0 })
            } else {
                None
            }
        },
        None => None,
    }
}

/// Whether the TCP header behind an IP header of `ip_hdr_len` bytes is that of a connection
/// attempt: SYN without ACK. Answers to attempts have both, and do not count. `None` if the
/// frame is cut off within the header.
pub fn is_syn_packet(frame: &[u8], ip_hdr_len: usize) -> (r: Option<bool>)
    ensures
        r == bare_syn(frame@, ip_hdr_len as int),
{
    let headers: usize = ETH_LEN + TCP_LEN;
    if frame.len() >= headers && ip_hdr_len <= frame.len() - headers {
        let flags: u8 = frame[ETH_LEN + ip_hdr_len + 13];
        Some(flags & 0x02 != 0 && flags & 0x10 == 0)
    } else {
        None
    }
}

/// The bucket of an IP protocol number.
pub fn proto_to_index(proto: u8) -> (r: ProtoIndex)
    ensures
        r == bucket(proto),
{
    if proto == IP_ICMP {
        ProtoIndex::Icmp
    } else if proto == IP_TCP {
        ProtoIndex::Tcp
    } else if proto == IP_UDP {
        ProtoIndex::Udp
    } else if proto == IP_IPV6 {
        ProtoIndex::Ipv6
    } else {
        ProtoIndex::Other
    }
}

/// What a frame adds to the counters. Every frame passes.
pub fn ebpf_xdp_program(frame: &[u8]) -> (r: PacketEffect)
    ensures
        r == effect(frame@),
        r.action == XDP_PASS,
{
    let bytes: u64 = packet_len(frame);
    match parse_l4_protocol(frame) {
        Some(l3) => {
            let syn = if l3.proto == IP_TCP {
                match is_syn_packet(frame, l3.ip_hdr_len) {
                    Some(true) => Some(
                        PortScanKey::new(
                            l3.src_addr,
                            read_be16(frame, ETH_LEN + l3.ip_hdr_len + 2),
                        ),
                    ),
                    _ => None,
                }
            } else {
                None
            };
            PacketEffect { action: XDP_PASS, bytes, proto: Some(proto_to_index(l3.proto)), syn }
        },
        None => PacketEffect { action: XDP_PASS, bytes, proto: None, syn: None },
    }
}

/// The sum in 64 bits, which starts over at 0 beyond them.
pub open spec fn wrapping_sum(a: u64, b: u64) -> u64 {
    ((a + b) % 0x1_0000_0000_0000_0000) as u64
}

/// A bucket's counters after one more frame.
pub fn record_packet(stat: ProtoStats, bytes: u64) -> (r: ProtoStats)
    ensures
        r.packets == wrapping_sum(stat.packets, 1),
        r.bytes == wrapping_sum(stat.bytes, bytes),
{
    ProtoStats { packets: stat.packets.wrapping_add(1), bytes: stat.bytes.wrapping_add(bytes) }
}

/// A source address's counters after one more connection attempt; `known` are those it has,
/// if it has any.
pub fn record_syn(known: Option<SynCounter>, bytes: u64) -> (r: SynCounter)
    ensures
        match known {
            Some(c) => {
                &&& r.packets == wrapping_sum(c.packets, 1)
                &&& r.bytes == wrapping_sum(c.bytes, bytes)
            },
            None => r == (SynCounter { packets: 1, bytes }),
        },
{
    match known {
        Some(c) => SynCounter {
            packets: c.packets.wrapping_add(1),
            bytes: c.bytes.wrapping_add(bytes),
        },
        None => SynCounter { packets: 1, bytes },
    }
}

/// What is remembered of the latest attempt at a port: its time.
pub fn record_port_touch(now_ns: u64) -> (r: PortTouch)
    ensures
        r == (PortTouch { last_seen_ns: now_ns }),
{
    PortTouch { last_seen_ns: now_ns }
}

/// Only IPv4 frames that carry TCP are connection attempts, and they count in the TCP bucket.
pub proof fn law_attempts_are_tcp(frame: Seq<u8>)
    ensures
        effect(frame).syn is Some ==> {
            &&& effect(frame).proto == Some(ProtoIndex::Tcp)
            &&& ether_type(frame) == Some(ETHER_IPV4)
            &&& effect(frame).syn->0.src_addr == be32(frame, 26)
        },
{
}

/// An answer to a connection attempt, with SYN and ACK, is no attempt.
pub proof fn law_answers_are_no_attempts(frame: Seq<u8>)
    requires
        l3_info(frame) is Some,
        frame[14 + l3_info(frame)->0.ip_hdr_len + 13] & 0x10 != 0,
    ensures
        effect(frame).syn is None,
{
}

/// A frame counts in a bucket exactly if it holds a whole IPv4 or IPv6 header.
pub proof fn law_ip_frames_are_counted(frame: Seq<u8>)
    ensures
        effect(frame).proto is Some <==> {
            ||| ether_type(frame) == Some(ETHER_IPV4) && frame.len() >= 34
            ||| ether_type(frame) == Some(ETHER_IPV6) && frame.len() >= 54
        },
{
}

/// What is counted of an IPv4 frame, told from its bytes: the bucket goes by the protocol
/// number at byte 23. It is a connection attempt exactly if that is TCP and the TCP header,
/// which starts four bytes after byte 14 for each unit in the low half of that byte, is there
/// in full with SYN set and ACK not set; then the address is the four bytes from byte 26 on
/// and the port the third and fourth byte of the TCP header, most significant byte first.
pub proof fn law_ipv4_frames_from_their_bytes(frame: Seq<u8>)
    requires
        34 <= frame.len() <= u64::MAX,
        frame[12] == 0x08 && frame[13] == 0x00,
    ensures
        ({
            let e = effect(frame);
            let tcp = 14 + 4 * (frame[14] & 0xf);
            let whole = tcp + 20 <= frame.len();
            &&& e.action == 2
            &&& e.bytes == frame.len()
            &&& frame[23] == 1 <==> e.proto == Some(ProtoIndex::Icmp)
            &&& frame[23] == 6 <==> e.proto == Some(ProtoIndex::Tcp)
            &&& frame[23] == 17 <==> e.proto == Some(ProtoIndex::Udp)
            &&& frame[23] == 41 <==> e.proto == Some(ProtoIndex::Ipv6)
            &&& e.proto is Some
            &&& e.syn is Some <==> frame[23] == 6 && whole && frame[tcp + 13] & 0x02 != 0
                && frame[tcp + 13] & 0x10 == 0
            &&& e.syn matches Some(key) ==> {
                &&& key.src_addr == frame[26] * 0x100_0000 + frame[27] * 0x1_0000 + frame[28]
                    * 0x100 + frame[29]
                &&& key.dst_port == frame[tcp + 2] * 0x100 + frame[tcp + 3]
                &&& key._pad == 0
            }
        }),
{
    let low = frame[14] & 0xf;
    let b = frame[14];
    assert(b & 0xf <= 0xf) by (bit_vector);
}

/// What is counted of an IPv6 frame, told from its bytes: it counts in the bucket of IPv6 if
/// its header is there in full, and is never a connection attempt.
pub proof fn law_ipv6_frames_from_their_bytes(frame: Seq<u8>)
    requires
        14 <= frame.len() <= u64::MAX,
        frame[12] == 0x86 && frame[13] == 0xdd,
    ensures
        effect(frame).action == 2,
        effect(frame).bytes == frame.len(),
        frame.len() >= 54 ==> effect(frame).proto == Some(ProtoIndex::Ipv6),
        frame.len() < 54 ==> effect(frame).proto is None,
        effect(frame).syn is None,
{
}

/// Of any other frame only the length is known: it passes and counts in no bucket.
pub proof fn law_other_frames_pass_uncounted(frame: Seq<u8>)
    requires
        frame.len() <= u64::MAX,
        frame.len() < 14 || !(frame[12] == 0x08 && frame[13] == 0x00) && !(frame[12] == 0x86
            && frame[13] == 0xdd),
    ensures
        effect(frame).action == 2,
        effect(frame).bytes == frame.len(),
        effect(frame).proto is None,
        effect(frame).syn is None,
{
}

/// Counting goes on at 0 beyond 64 bits, and is plain addition up to there.
pub proof fn law_sums_wrap(a: u64, b: u64)
    ensures
        a + b <= u64::MAX ==> wrapping_sum(a, b) == a + b,
        a + b > u64::MAX ==> wrapping_sum(a, b) == a + b - u64::MAX - 1,
{
}

} // verus!
