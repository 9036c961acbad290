//! Types shared by packet counting and analysis: the counters, their keys, and the
//! protocol buckets.
use vstd::prelude::*;
use vstd::std_specs::convert::TryFromSpecImpl;

verus! {

/// Cumulative packet and byte counters for a single protocol bucket.
#[derive(Copy, Clone, Debug, PartialEq, Eq, Structural)]
pub struct ProtoStats {
    pub packets: u64,
    pub bytes: u64,
}

impl ProtoStats {
    /// Counters that have seen nothing.
    pub fn zeroed() -> (r: Self)
        ensures
            r == (ProtoStats { packets: 0, bytes: 0 }),
    {
        ProtoStats { packets: 0, bytes: 0 }
    }
}

/// Cumulative SYN-packet and byte counters for one source IPv4 address.
///
/// An address is held as the number that its four octets make, first octet highest.
#[derive(Copy, Clone, Debug, PartialEq, Eq, Structural)]
pub struct SynCounter {
    pub packets: u64,
    pub bytes: u64,
}

impl SynCounter {
    /// Counters that have seen nothing.
    pub fn zeroed() -> (r: Self)
        ensures
            r == (SynCounter { packets: 0, bytes: 0 }),
    {
        SynCounter { packets: 0, bytes: 0 }
    }
}

/// Capacity of the map of SYN counters.
pub const SYN_TRACKER_MAX_ENTRIES: u32 = 8192;

/// One (source address, destination port) pair touched by a bare TCP SYN.
///
/// `_pad` fills the record to eight bytes and is always zero; build keys with
/// [`PortScanKey::new`].
#[derive(Copy, Clone, Debug, PartialEq, Eq, Hash, Structural)]
pub struct PortScanKey {
    pub src_addr: u32,
    pub dst_port: u16,
    pub _pad: u16,
}

impl PortScanKey {
    /// The key of a source address and a destination port.
    pub fn new(src_addr: u32, dst_port: u16) -> (r: Self)
        ensures
            r == (PortScanKey { src_addr, dst_port, _pad: 0 }),
    {
        PortScanKey { src_addr, dst_port, _pad: 0 }
    }
}

/// When a [`PortScanKey`] was last touched, in nanoseconds of the monotonic clock.
#[derive(Copy, Clone, Debug, PartialEq, Eq, Structural)]
pub struct PortTouch {
    pub last_seen_ns: u64,
}

impl PortTouch {
    /// A touch at the start of the clock.
    pub fn zeroed() -> (r: Self)
        ensures
            r == (PortTouch { last_seen_ns: 0 }),
    {
        PortTouch { last_seen_ns: 0 }
    }
}

/// Capacity of the map of port touches.
pub const PORT_SCAN_TRACKER_MAX_ENTRIES: u32 = 16384;

/// Protocol bucket. The order of the variants is the order of the buckets.
#[derive(Copy, Clone, Debug, PartialEq, Eq, Hash, Structural)]
pub enum ProtoIndex {
    Icmp,
    Tcp,
    Udp,
    Ipv6,
    Other,
}

/// The protocol in bucket `i`.
pub open spec fn proto_at(i: int) -> ProtoIndex
    recommends
        0 <= i < 5,
{
    if i == 0 {
        ProtoIndex::Icmp
    } else if i == 1 {
        ProtoIndex::Tcp
    } else if i == 2 {
        ProtoIndex::Udp
    } else if i == 3 {
        ProtoIndex::Ipv6
    } else {
        ProtoIndex::Other
    }
}

impl ProtoIndex {
    /// Number of protocol buckets.
    pub const COUNT: u32 = 5;

    /// The bucket of this protocol.
    pub open spec fn index_spec(self) -> int {
        match self {
            ProtoIndex::Icmp => 0,
            ProtoIndex::Tcp => 1,
            ProtoIndex::Udp => 2,
            ProtoIndex::Ipv6 => 3,
            ProtoIndex::Other => 4,
        }
    }

    /// The bucket of this protocol.
    pub fn index(self) -> (r: usize)
        ensures
            r == self.index_spec(),
            r < 5,
    {
        match self {
            ProtoIndex::Icmp => 0,
            ProtoIndex::Tcp => 1,
            ProtoIndex::Udp => 2,
            ProtoIndex::Ipv6 => 3,
            ProtoIndex::Other => 4,
        }
    }

    /// Name used in logs and metric labels.
    pub open spec fn label_spec(self) -> Seq<char> {
        match self {
            ProtoIndex::Icmp => "ICMP"@,
            ProtoIndex::Tcp => "TCP"@,
            ProtoIndex::Udp => "UDP"@,
            ProtoIndex::Ipv6 => "IPv6"@,
            ProtoIndex::Other => "OTHER"@,
        }
    }

    /// Name used in logs and metric labels.
    pub fn label(self) -> (r: &'static str)
        ensures
            r@ == self.label_spec(),
    {
        match self {
            ProtoIndex::Icmp => "ICMP",
            ProtoIndex::Tcp => "TCP",
            ProtoIndex::Udp => "UDP",
            ProtoIndex::Ipv6 => "IPv6",
            ProtoIndex::Other => "OTHER",
        }
    }

    /// The protocol in bucket `idx`; `None` past the last bucket.
    pub fn from_index(idx: usize) -> (r: Option<Self>)
        ensures
            r == (if idx < 5 {
                Some(proto_at(idx as int))
            } else {
                None
            }),
    {
        match ProtoIndex::try_from(idx) {
            Ok(p) => Some(p),
            Err(_) => None,
        }
    }
}

impl TryFrom<usize> for ProtoIndex {
    type Error = ();

    fn try_from(value: usize) -> (r: Result<Self, Self::Error>) {
        match value {
            0 => Ok(ProtoIndex::Icmp),
            1 => Ok(ProtoIndex::Tcp),
            2 => Ok(ProtoIndex::Udp),
            3 => Ok(ProtoIndex::Ipv6),
            4 => Ok(ProtoIndex::Other),
            _ => Err(()),
        }
    }
}

impl TryFromSpecImpl<usize> for ProtoIndex {
    open spec fn obeys_try_from_spec() -> bool {
        true
    }

    open spec fn try_from_spec(v: usize) -> Result<Self, ()> {
        if v < 5 {
            Ok(proto_at(v as int))
        } else {
            Err(())
        }
    }
}

/// One value for each protocol.
#[derive(Debug)]
pub struct ProtoTable<T> {
    pub icmp: T,
    pub tcp: T,
    pub udp: T,
    pub ipv6: T,
    pub other: T,
}

impl<T: Copy> ProtoTable<T> {
    /// The value of `proto`.
    pub open spec fn at(self, proto: ProtoIndex) -> T {
        match proto {
            ProtoIndex::Icmp => self.icmp,
            ProtoIndex::Tcp => self.tcp,
            ProtoIndex::Udp => self.udp,
            ProtoIndex::Ipv6 => self.ipv6,
            ProtoIndex::Other => self.other,
        }
    }

    /// The table with `value` for `proto`.
    pub open spec fn with(self, proto: ProtoIndex, value: T) -> Self {
        match proto {
            ProtoIndex::Icmp => ProtoTable { icmp: value, ..self },
            ProtoIndex::Tcp => ProtoTable { tcp: value, ..self },
            ProtoIndex::Udp => ProtoTable { udp: value, ..self },
            ProtoIndex::Ipv6 => ProtoTable { ipv6: value, ..self },
            ProtoIndex::Other => ProtoTable { other: value, ..self },
        }
    }

    /// The same value for every protocol.
    pub fn filled(value: T) -> (r: Self)
        ensures
            forall|proto: ProtoIndex| #[trigger] r.at(proto) == value,
    {
        ProtoTable { icmp: value, tcp: value, udp: value, ipv6: value, other: value }
    }

    /// The value of `proto`.
    pub fn get(&self, proto: ProtoIndex) -> (r: T)
        ensures
            r == self.at(proto),
    {
        match proto {
            ProtoIndex::Icmp => self.icmp,
            ProtoIndex::Tcp => self.tcp,
            ProtoIndex::Udp => self.udp,
            ProtoIndex::Ipv6 => self.ipv6,
            ProtoIndex::Other => self.other,
        }
    }

    /// Changes the value of `proto`.
    pub fn set(&mut self, proto: ProtoIndex, value: T)
        ensures
            *final(self) == old(self).with(proto, value),
    {
        match proto {
            ProtoIndex::Icmp => {
                self.icmp = value;
            },
            ProtoIndex::Tcp => {
                self.tcp = value;
            },
            ProtoIndex::Udp => {
                self.udp = value;
            },
            ProtoIndex::Ipv6 => {
                self.ipv6 = value;
            },
            ProtoIndex::Other => {
                self.other = value;
            },
        }
    }
}

/// Buckets and protocols correspond one to one.
pub proof fn law_index_round_trip(proto: ProtoIndex, i: int)
    requires
        0 <= i < 5,
    ensures
        0 <= proto.index_spec() < ProtoIndex::COUNT,
        proto_at(proto.index_spec()) == proto,
        proto_at(i).index_spec() == i,
{
}

/// A table gives back what was put in for a protocol, and keeps what it has for the others.
pub proof fn law_table_keeps_values<T: Copy>(
    table: ProtoTable<T>,
    proto: ProtoIndex,
    value: T,
    other: ProtoIndex,
)
    ensures
        table.with(proto, value).at(proto) == value,
        other != proto ==> table.with(proto, value).at(other) == table.at(other),
{
}

} // verus!
