//! Counter snapshots and the rates computed from them.
use std::collections::HashMap;

use vstd::prelude::*;

use crate::binary64::Binary64;
use crate::common::{PortScanKey, PortTouch, ProtoIndex, SynCounter};
use crate::time::Instant;

verus! {

/// Cumulative packet and byte counters of one protocol bucket, over all CPUs.
#[derive(Debug, Clone, Copy, PartialEq, Eq, Structural)]
pub struct TrafficCounters {
    pub packets: u64,
    pub bytes: u64,
}

impl Default for TrafficCounters {
    fn default() -> (r: Self)
        ensures
            r == (TrafficCounters { packets: 0, bytes: 0 }),
    {
        TrafficCounters { packets: 0, bytes: 0 }
    }
}

/// The counters of all protocol buckets at one point in time.
#[derive(Debug)]
pub struct TrafficCountersSnapshot {
    pub timestamp: Instant,
    pub stats: Vec<TrafficCounters>,
}

impl Clone for TrafficCountersSnapshot {
    fn clone(&self) -> (r: Self)
        ensures
            r.timestamp == self.timestamp,
            r.stats@ == self.stats@,
    {
        TrafficCountersSnapshot { timestamp: self.timestamp, stats: self.stats.clone() }
    }
}

/// Packets and bytes per second of one protocol.
#[derive(Debug, Clone, Copy)]
pub struct ProtoRate {
    pub proto: ProtoIndex,
    pub pps: Binary64,
    pub bps: Binary64,
}

/// The rates of all protocols at one point in time.
#[derive(Debug)]
pub struct ProtoRateSnapshot {
    pub timestamp: Instant,
    pub rates: Vec<ProtoRate>,
}

/// The SYN counters of all source addresses at one point in time.
#[derive(Debug)]
pub struct SynCountersSnapshot {
    pub timestamp: Instant,
    pub counters: HashMap<u32, SynCounter>,
}

impl Clone for SynCountersSnapshot {
    fn clone(&self) -> (r: Self)
        ensures
            r.timestamp == self.timestamp,
            r.counters@ == self.counters@,
    {
        SynCountersSnapshot { timestamp: self.timestamp, counters: self.counters.clone() }
    }
}

/// SYN packets per second of one source address.
#[derive(Debug, Clone, Copy)]
pub struct SynIpRate {
    pub src_ip: u32,
    pub pps: Binary64,
}

/// Number of destination ports in the key space.
pub const PORTS: u64 = 65536;

/// The number that stands for a (source address, destination port) pair.
pub open spec fn pair_code(src_addr: u32, dst_port: u16) -> u64 {
    (src_addr * 65536 + dst_port) as u64
}

/// The source address of a coded pair.
pub open spec fn code_addr(code: u64) -> u32 {
    (code / 65536) as u32
}

/// The destination port of a coded pair.
pub open spec fn code_port(code: u64) -> u16 {
    (code % 65536) as u16
}

/// Whether `code` stands for a pair.
pub open spec fn is_code(code: u64) -> bool {
    code < 0x1_0000_0000_0000
}

/// Pairs and their codes correspond one to one.
pub proof fn law_pair_code_round_trip(src_addr: u32, dst_port: u16, code: u64)
    requires
        is_code(code),
    ensures
        is_code(pair_code(src_addr, dst_port)),
        code_addr(pair_code(src_addr, dst_port)) == src_addr,
        code_port(pair_code(src_addr, dst_port)) == dst_port,
        pair_code(code_addr(code), code_port(code)) == code,
{
}

/// When each (source address, destination port) pair was last touched, as read at `now_ns`.
#[derive(Debug)]
pub struct PortScanCountersSnapshot {
    now_ns: u64,
    touches: HashMap<u64, PortTouch>,
}

impl PortScanCountersSnapshot {
    #[verifier::type_invariant]
    spec fn inv(self) -> bool {
        forall|code: u64| #[trigger] self.touches@.contains_key(code) ==> is_code(code)
    }

    /// The time of reading, in nanoseconds of the monotonic clock.
    pub closed spec fn now(&self) -> u64 {
        self.now_ns
    }

    /// The last touch of every pair, by code.
    pub closed spec fn touch_map(&self) -> Map<u64, PortTouch> {
        self.touches@
    }

    /// A snapshot read at `now_ns` that holds no touch yet.
    pub fn new(now_ns: u64) -> (r: Self)
        ensures
            r.now() == now_ns,
            r.touch_map() == Map::<u64, PortTouch>::empty(),
    {
        PortScanCountersSnapshot { now_ns, touches: HashMap::new() }
    }

    /// Records the last touch of a pair; an earlier record of the same pair is replaced.
    pub fn insert(&mut self, key: PortScanKey, touch: PortTouch)
        ensures
            final(self).now() == old(self).now(),
            final(self).touch_map() == old(self).touch_map().insert(
                pair_code(key.src_addr, key.dst_port),
                touch,
            ),
    {
        broadcast use vstd::std_specs::hash::group_hash_axioms;

        proof {
            use_type_invariant(&*self);
            law_pair_code_round_trip(key.src_addr, key.dst_port, 0);
        }
        let code: u64 = key.src_addr as u64 * PORTS + key.dst_port as u64;
        let mut touches = HashMap::new();
        std::mem::swap(&mut touches, &mut self.touches);
        touches.insert(code, touch);
        self.touches = touches;
    }

    /// The entries of the snapshot.
    pub fn entries(&self) -> (r: Vec<(u64, PortTouch)>)
        ensures
            crate::rate::ranking::lists(r@, self.touch_map()),
            forall|i: int| 0 <= i < r@.len() ==> is_code((#[trigger] r@[i]).0),
    {
        broadcast use vstd::std_specs::hash::group_hash_axioms;

        proof {
            use_type_invariant(self);
        }
        crate::rate::ranking::entries(&self.touches)
    }

    /// The time of reading, in nanoseconds of the monotonic clock.
    pub fn now_ns(&self) -> (r: u64)
        ensures
            r == self.now(),
    {
        self.now_ns
    }
}

impl Clone for PortScanCountersSnapshot {
    fn clone(&self) -> (r: Self)
        ensures
            r.now() == self.now(),
            r.touch_map() == self.touch_map(),
    {
        proof {
            use_type_invariant(self);
        }
        PortScanCountersSnapshot { now_ns: self.now_ns, touches: self.touches.clone() }
    }
}

/// Number of distinct destination ports that one source address has touched.
#[derive(Debug, Clone, Copy, PartialEq, Eq, Structural)]
pub struct PortScanIpBreadth {
    pub src_ip: u32,
    pub distinct_ports: u32,
}

} // verus!
