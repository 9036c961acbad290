//! Per-protocol deltas, rates and shares.
use vstd::arithmetic::power2::{lemma_pow2_pos, pow2};
use vstd::prelude::*;

use crate::binary64::bounds::{
    law_product_against, law_quotient_against, law_small_whole_numbers_are_exact,
};
use crate::binary64::constants::law_whole_constants;
use crate::binary64::laws::{law_from_u64_sign, lemma_nearest_exists};
use crate::binary64::rounding::lemma_units_order;
use crate::binary64::{units, Binary64, Exact};
use crate::common::{proto_at, ProtoIndex, ProtoStats};
use crate::rate::model::{ProtoRate, TrafficCounters, TrafficCountersSnapshot};
use crate::rate::{counter_delta, rate, rate_spec};

verus! {

/// The smaller of two lengths.
pub open spec fn shorter(a: nat, b: nat) -> nat {
    if a <= b {
        a
    } else {
        b
    }
}

/// The counter deltas of the buckets that both lists have.
pub open spec fn diff_stats_spec(
    cur: Seq<TrafficCounters>,
    prev: Seq<TrafficCounters>,
) -> Seq<TrafficCounters> {
    Seq::new(
        shorter(cur.len(), prev.len()),
        |i: int|
            TrafficCounters {
                packets: counter_delta(cur[i].packets, prev[i].packets),
                bytes: counter_delta(cur[i].bytes, prev[i].bytes),
            },
    )
}

/// What was counted between two snapshots, bucket by bucket; none where a counter went back.
pub fn diff_stats(cur: &[TrafficCounters], prev: &[TrafficCounters]) -> (r: Vec<TrafficCounters>)
    ensures
        r@ == diff_stats_spec(cur@, prev@),
{
    let mut r: Vec<TrafficCounters> = Vec::new();
    let mut i: usize = 0;
    while i < cur.len() && i < prev.len()
        invariant
            i <= cur@.len(),
            i <= prev@.len(),
            r@ =~= diff_stats_spec(cur@, prev@).take(i as int),
        decreases cur@.len() - i,
    {
        r.push(
            TrafficCounters {
                packets: cur[i].packets.saturating_sub(prev[i].packets),
                bytes: cur[i].bytes.saturating_sub(prev[i].bytes),
            },
        );
        i = i + 1;
    }
    proof {
        let all = diff_stats_spec(cur@, prev@);
        assert(all.take(all.len() as int) =~= all);
    }
    r
}

/// The rates between two snapshots, of the protocols that both have.
pub open spec fn compute_rates_spec(
    prev: Seq<TrafficCounters>,
    curr: Seq<TrafficCounters>,
    dt: Binary64,
) -> Seq<ProtoRate> {
    Seq::new(
        shorter(shorter(curr.len(), prev.len()), 5),
        |i: int|
            ProtoRate {
                proto: proto_at(i),
                pps: rate_spec(curr[i].packets, prev[i].packets, dt),
                bps: rate_spec(curr[i].bytes, prev[i].bytes, dt),
            },
    )
}

/// Packets and bytes per second between two snapshots.
pub fn compute_rates(
    prev: &TrafficCountersSnapshot,
    curr: &TrafficCountersSnapshot,
) -> (r: Vec<ProtoRate>)
    ensures
        r@ == compute_rates_spec(
            prev.stats@,
            curr.stats@,
            curr.timestamp.since(prev.timestamp).as_secs_f64_spec(),
        ),
{
    let dt: Binary64 = curr.timestamp.duration_since(prev.timestamp).as_secs_f64();
    let mut r: Vec<ProtoRate> = Vec::new();
    let mut i: usize = 0;
    let ghost all = compute_rates_spec(prev.stats@, curr.stats@, dt);
    while i < curr.stats.len() && i < prev.stats.len() && i < 5
        invariant
            i <= curr.stats@.len(),
            i <= prev.stats@.len(),
            i <= 5,
            all == compute_rates_spec(prev.stats@, curr.stats@, dt),
            r@ =~= all.take(i as int),
        decreases 5 - i,
    {
        match ProtoIndex::from_index(i) {
            Some(proto) => {
                r.push(
                    ProtoRate {
                        proto,
                        pps: rate(curr.stats[i].packets, prev.stats[i].packets, dt),
                        bps: rate(curr.stats[i].bytes, prev.stats[i].bytes, dt),
                    },
                );
            },
            None => {},
        }
        i = i + 1;
    }
    proof {
        assert(all.take(all.len() as int) =~= all);
    }
    r
}

/// The packets of all buckets together.
pub open spec fn total_packets(delta: Seq<TrafficCounters>) -> nat
    decreases delta.len(),
{
    if delta.len() == 0 {
        0
    } else {
        total_packets(delta.drop_last()) + delta.last().packets as nat
    }
}

proof fn lemma_total_packets_grows(delta: Seq<TrafficCounters>, i: int)
    requires
        0 <= i <= delta.len(),
    ensures
        total_packets(delta.take(i)) <= total_packets(delta),
    decreases delta.len() - i,
{
    if i == delta.len() {
        assert(delta.take(i) =~= delta);
    } else {
        lemma_total_packets_grows(delta, i + 1);
        assert(delta.take(i + 1).drop_last() =~= delta.take(i));
    }
}

/// The packets of all buckets together; `None` if they are too many to count.
pub fn checked_total_packets(delta: &[TrafficCounters]) -> (r: Option<u64>)
    ensures
        match r {
            Some(t) => t == total_packets(delta@),
            None => total_packets(delta@) > u64::MAX,
        },
{
    let mut total: u64 = 0;
    let mut i: usize = 0;
    proof {
        assert(delta@.take(0).len() == 0);
    }
    while i < delta.len()
        invariant
            i <= delta@.len(),
            total == total_packets(delta@.take(i as int)),
        decreases delta@.len() - i,
    {
        proof {
            let t = delta@.take(i + 1);
            assert(t.drop_last() =~= delta@.take(i as int));
            assert(t.last() == delta@[i as int]);
            lemma_total_packets_grows(delta@, i + 1);
        }
        match total.checked_add(delta[i].packets) {
            Some(t) => {
                total = t;
            },
            None => {
                return None;
            },
        }
        i = i + 1;
    }
    proof {
        assert(delta@.take(delta@.len() as int) =~= delta@);
    }
    Some(total)
}

/// Each protocol's share of the packets, in percent.
pub open spec fn compute_mix_spec(delta: Seq<TrafficCounters>) -> Seq<(ProtoIndex, Binary64)> {
    if total_packets(delta) == 0 {
        Seq::empty()
    } else {
        let total = Binary64::from_u64_spec(total_packets(delta) as u64);
        Seq::new(
            shorter(delta.len(), 5),
            |i: int|
                (
                    proto_at(i),
                    Binary64::from_u64_spec(delta[i].packets).times_spec(
                        Binary64::hundred(),
                    ).over_spec(total),
                ),
        )
    }
}

/// Each protocol's share of the packets, in percent; nothing if there are no packets.
pub fn compute_mix(delta: &[TrafficCounters]) -> (r: Vec<(ProtoIndex, Binary64)>)
    requires
        total_packets(delta@) <= u64::MAX,
    ensures
        r@ == compute_mix_spec(delta@),
{
    let mut r: Vec<(ProtoIndex, Binary64)> = Vec::new();
    let count: u64 = match checked_total_packets(delta) {
        Some(t) => t,
        None => 0,
    };
    if count == 0 {
        return r;
    }
    let total: Binary64 = Binary64::from_u64(count);
    let mut i: usize = 0;
    let ghost all = compute_mix_spec(delta@);
    while i < delta.len() && i < 5
        invariant
            i <= delta@.len(),
            i <= 5,
            count == total_packets(delta@),
            count > 0,
            total == Binary64::from_u64_spec(count),
            all == compute_mix_spec(delta@),
            r@ =~= all.take(i as int),
        decreases 5 - i,
    {
        match ProtoIndex::from_index(i) {
            Some(proto) => {
                r.push(
                    (
                        proto,
                        Binary64::from_u64(delta[i].packets).times(Binary64::hundred()).over(total),
                    ),
                );
            },
            None => {},
        }
        i = i + 1;
    }
    proof {
        assert(all.take(all.len() as int) =~= all);
    }
    r
}

/// The packets of all CPUs together.
pub open spec fn cpu_packets(values: Seq<ProtoStats>) -> nat
    decreases values.len(),
{
    if values.len() == 0 {
        0
    } else {
        cpu_packets(values.drop_last()) + values.last().packets as nat
    }
}

/// The bytes of all CPUs together.
pub open spec fn cpu_bytes(values: Seq<ProtoStats>) -> nat
    decreases values.len(),
{
    if values.len() == 0 {
        0
    } else {
        cpu_bytes(values.drop_last()) + values.last().bytes as nat
    }
}

proof fn lemma_cpu_sums_grow(values: Seq<ProtoStats>, i: int)
    requires
        0 <= i <= values.len(),
    ensures
        cpu_packets(values.take(i)) <= cpu_packets(values),
        cpu_bytes(values.take(i)) <= cpu_bytes(values),
    decreases values.len() - i,
{
    if i == values.len() {
        assert(values.take(i) =~= values);
    } else {
        lemma_cpu_sums_grow(values, i + 1);
        assert(values.take(i + 1).drop_last() =~= values.take(i));
    }
}

/// The counters of one bucket over all CPUs; `None` if a sum is too large to count.
pub fn sum_over_cpus(values: &[ProtoStats]) -> (r: Option<TrafficCounters>)
    ensures
        match r {
            Some(c) => c.packets == cpu_packets(values@) && c.bytes == cpu_bytes(values@),
            None => cpu_packets(values@) > u64::MAX || cpu_bytes(values@) > u64::MAX,
        },
{
    let mut packets: u64 = 0;
    let mut bytes: u64 = 0;
    let mut i: usize = 0;
    proof {
        assert(values@.take(0).len() == 0);
    }
    while i < values.len()
        invariant
            i <= values@.len(),
            packets == cpu_packets(values@.take(i as int)),
            bytes == cpu_bytes(values@.take(i as int)),
        decreases values@.len() - i,
    {
        proof {
            let t = values@.take(i + 1);
            assert(t.drop_last() =~= values@.take(i as int));
            assert(t.last() == values@[i as int]);
            lemma_cpu_sums_grow(values@, i + 1);
        }
        match (packets.checked_add(values[i].packets), bytes.checked_add(values[i].bytes)) {
            (Some(p), Some(b)) => {
                packets = p;
                bytes = b;
            },
            _ => {
                return None;
            },
        }
        i = i + 1;
    }
    proof {
        assert(values@.take(values@.len() as int) =~= values@);
    }
    Some(TrafficCounters { packets, bytes })
}

/// The difference of two lists of counters has an entry for every bucket that both have, with
/// what its packets and its bytes moved by: nothing where a counter went back.
pub proof fn law_differences_by_bucket(
    cur: Seq<TrafficCounters>,
    prev: Seq<TrafficCounters>,
    i: int,
)
    requires
        0 <= i < cur.len(),
        i < prev.len(),
    ensures
        ({
            let delta = diff_stats_spec(cur, prev);
            &&& delta.len() <= cur.len() && delta.len() <= prev.len() && i < delta.len()
            &&& cur[i].packets >= prev[i].packets ==> delta[i].packets == cur[i].packets
                - prev[i].packets
            &&& cur[i].packets <= prev[i].packets ==> delta[i].packets == 0
            &&& cur[i].bytes >= prev[i].bytes ==> delta[i].bytes == cur[i].bytes - prev[i].bytes
            &&& cur[i].bytes <= prev[i].bytes ==> delta[i].bytes == 0
        }),
{
}

/// There is a rate for every protocol whose bucket both readings have, in the order of the
/// buckets: the packet rate from its packets, the byte rate from its bytes.
pub proof fn law_rates_by_bucket(
    prev: Seq<TrafficCounters>,
    curr: Seq<TrafficCounters>,
    dt: Binary64,
    i: int,
)
    requires
        0 <= i < 5,
        i < prev.len(),
        i < curr.len(),
    ensures
        ({
            let rates = compute_rates_spec(prev, curr, dt);
            &&& rates.len() <= 5 && rates.len() <= prev.len() && rates.len() <= curr.len()
            &&& i < rates.len()
            &&& rates[i].proto.index_spec() == i
            &&& rates[i].pps == rate_spec(curr[i].packets, prev[i].packets, dt)
            &&& rates[i].bps == rate_spec(curr[i].bytes, prev[i].bytes, dt)
        }),
{
}

/// The packets of all buckets add up, one bucket after the other.
pub proof fn law_packets_add_up(delta: Seq<TrafficCounters>, more: TrafficCounters)
    ensures
        total_packets(Seq::<TrafficCounters>::empty()) == 0,
        total_packets(delta.push(more)) == total_packets(delta) + more.packets,
{
    assert(delta.push(more).drop_last() =~= delta);
}

/// The counters of all CPUs add up, one CPU after the other.
pub proof fn law_cpus_add_up(values: Seq<ProtoStats>, more: ProtoStats)
    ensures
        cpu_packets(Seq::<ProtoStats>::empty()) == 0,
        cpu_bytes(Seq::<ProtoStats>::empty()) == 0,
        cpu_packets(values.push(more)) == cpu_packets(values) + more.packets,
        cpu_bytes(values.push(more)) == cpu_bytes(values) + more.bytes,
{
    assert(values.push(more).drop_last() =~= values);
}

/// A number of up to 46 bits times 100 is exact.
pub proof fn lemma_hundredfold(n: u64)
    requires
        n <= 0x4000_0000_0000,
    ensures
        Binary64::from_u64_spec(n).times_spec(Binary64::hundred()) == Binary64::from_u64_spec(
            (n * 100) as u64,
        ),
{
    let a = Binary64::from_u64_spec(n);
    let c = Binary64::from_u64_spec((n * 100) as u64);
    law_small_whole_numbers_are_exact(n);
    law_small_whole_numbers_are_exact((n * 100) as u64);
    law_whole_constants();
    law_from_u64_sign(n);
    law_from_u64_sign((n * 100) as u64);
    law_product_against(a, Binary64::hundred(), c);
    let p = pow2(1074) as int;
    assert((n * p) * (100 * p) == ((n * 100) * p) * p) by (nonlinear_arith);
    let r = a.times_spec(Binary64::hundred());
    assert(r.mag() == c.mag());
    reveal(Binary64::times_spec);
    assert(units(a.mag()) * units(Binary64::hundred().mag()) >= 0) by {
        lemma_units_order(0, a.mag());
        lemma_units_order(0, Binary64::hundred().mag());
        assert(units(a.mag()) * units(Binary64::hundred().mag()) >= 0) by (nonlinear_arith)
            requires
                units(a.mag()) >= 0,
                units(Binary64::hundred().mag()) >= 0,
        ;
    }
    lemma_pow2_pos(1074);
    lemma_nearest_exists(
        Exact::Ratio {
            n: units(a.mag()) * units(Binary64::hundred().mag()),
            d: pow2(1074) as int,
        },
    );
}

/// A protocol's share is its packets in percent of all packets: at least `c` where a hundred
/// times its packets are at least `c` times all of them, at most `c` where they are at most
/// that. There is a share for each of the five protocols that has a bucket, in the order of
/// the buckets, and none without packets.
pub proof fn law_share_is_percent_of_all_packets(
    delta: Seq<TrafficCounters>,
    i: int,
    c: Binary64,
)
    requires
        0 <= i < 5,
        i < delta.len(),
        0 < total_packets(delta) <= 0x20_0000_0000_0000,
        delta[i].packets <= 0x4000_0000_0000,
        c.finite(),
    ensures
        ({
            let mix = compute_mix_spec(delta);
            let part = delta[i].packets * 100 * pow2(1074) * pow2(1074);
            let whole = total_packets(delta) * pow2(1074);
            &&& mix.len() <= 5 && mix.len() <= delta.len() && i < mix.len()
            &&& mix[i].0.index_spec() == i
            &&& part >= c.value() * whole ==> c.le_spec(mix[i].1)
            &&& part <= c.value() * whole ==> mix[i].1.le_spec(c)
        }),
{
    let n = delta[i].packets;
    let total = total_packets(delta) as u64;
    lemma_hundredfold(n);
    law_small_whole_numbers_are_exact((n * 100) as u64);
    law_small_whole_numbers_are_exact(total);
    law_from_u64_sign(total);
    law_quotient_against(
        Binary64::from_u64_spec((n * 100) as u64),
        Binary64::from_u64_spec(total),
        c,
    );
}

/// Without packets there are no shares.
pub proof fn law_no_packets_no_shares(delta: Seq<TrafficCounters>)
    requires
        total_packets(delta) == 0,
    ensures
        compute_mix_spec(delta).len() == 0,
{
}

} // verus!
