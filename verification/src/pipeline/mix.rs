//! The traffic mix: which share of the traffic each protocol has.
use vstd::arithmetic::power2::pow2;
use vstd::prelude::*;

use crate::binary64::bounds::{law_quotient_against, law_small_whole_numbers_are_exact};
use crate::binary64::laws::law_from_u64_sign;
use crate::binary64::Binary64;
use crate::common::ProtoIndex;
use crate::metrics::{mix_ops, MetricsHandle};
use crate::rate::compute::{
    checked_total_packets, compute_mix, compute_mix_spec, diff_stats, diff_stats_spec,
    lemma_hundredfold, total_packets,
};
use crate::rate::model::TrafficCounters;

verus! {

/// Shares of the traffic between two readings of the counters.
#[derive(Debug)]
pub struct MixReport {
    /// Each protocol's share of the packets, in percent; nothing without packets.
    pub mix: Vec<(ProtoIndex, Binary64)>,
    /// The shares of IPv6 and of IPv4 in the bytes, in percent; nothing without bytes.
    pub byte_shares: Option<(Binary64, Binary64)>,
}

/// The bytes of all buckets together.
pub open spec fn total_bytes(delta: Seq<TrafficCounters>) -> nat
    decreases delta.len(),
{
    if delta.len() == 0 {
        0
    } else {
        total_bytes(delta.drop_last()) + delta.last().bytes as nat
    }
}

proof fn lemma_total_bytes_grows(delta: Seq<TrafficCounters>, i: int)
    requires
        0 <= i <= delta.len(),
    ensures
        total_bytes(delta.take(i)) <= total_bytes(delta),
    decreases delta.len() - i,
{
    if i == delta.len() {
        assert(delta.take(i) =~= delta);
    } else {
        lemma_total_bytes_grows(delta, i + 1);
        assert(delta.take(i + 1).drop_last() =~= delta.take(i));
    }
}

/// The bytes of all buckets together; `None` if they are too many to count.
pub fn checked_total_bytes(delta: &[TrafficCounters]) -> (r: Option<u64>)
    ensures
        match r {
            Some(t) => t == total_bytes(delta@),
            None => total_bytes(delta@) > u64::MAX,
        },
{
    let mut total: u64 = 0;
    let mut i: usize = 0;
    proof {
        assert(delta@.take(0).len() == 0);
    }
    while i < delta.len()
        invariant
            i <= delta@.len(),
            total == total_bytes(delta@.take(i as int)),
        decreases delta@.len() - i,
    {
        proof {
            let t = delta@.take(i + 1);
            assert(t.drop_last() =~= delta@.take(i as int));
            assert(t.last() == delta@[i as int]);
            lemma_total_bytes_grows(delta@, i + 1);
        }
        match total.checked_add(delta[i].bytes) {
            Some(t) => {
                total = t;
            },
            None => {
                return None;
            },
        }
        i = i + 1;
    }
    proof {
        assert(delta@.take(delta@.len() as int) =~= delta@);
    }
    Some(total)
}

/// The shares of IPv6 and of IPv4 in the bytes, in percent.
pub open spec fn byte_shares_spec(delta: Seq<TrafficCounters>) -> Option<(Binary64, Binary64)> {
    if total_bytes(delta) == 0 {
        None
    } else {
        let ipv6 = Binary64::from_u64_spec(delta[3].bytes).times_spec(
            Binary64::hundred(),
        ).over_spec(Binary64::from_u64_spec(total_bytes(delta) as u64));
        Some((ipv6, Binary64::hundred().minus_spec(ipv6)))
    }
}

/// Reports and exports the mix of the traffic between two readings of the counters; nothing
/// happens where there are too many packets or bytes to count.
pub fn report_mix(
    curr: &[TrafficCounters],
    prev: &[TrafficCounters],
    metrics: &mut MetricsHandle,
) -> (r: Option<MixReport>)
    requires
        curr@.len() >= 4,
        prev@.len() >= 4,
    ensures
        ({
            let delta = diff_stats_spec(curr@, prev@);
            match r {
                Some(m) => {
                    &&& total_packets(delta) <= u64::MAX
                    &&& total_bytes(delta) <= u64::MAX
                    &&& m.mix@ == compute_mix_spec(delta)
                    &&& m.byte_shares == byte_shares_spec(delta)
                    &&& final(metrics).ops() == old(metrics).ops() + mix_ops(m.mix@)
                },
                None => {
                    &&& total_packets(delta) > u64::MAX || total_bytes(delta) > u64::MAX
                    &&& final(metrics).ops() == old(metrics).ops()
                },
            }
        }),
{
    let delta: Vec<TrafficCounters> = diff_stats(curr, prev);
    if checked_total_packets(delta.as_slice()).is_none() {
        return None;
    }
    match checked_total_bytes(delta.as_slice()) {
        Some(bytes) => {
            let mix: Vec<(ProtoIndex, Binary64)> = compute_mix(delta.as_slice());
            metrics.update_mix(mix.as_slice());
            let byte_shares = if bytes > 0 {
                let ipv6: Binary64 = Binary64::from_u64(delta[3].bytes).times(
                    Binary64::hundred(),
                ).over(Binary64::from_u64(bytes));
                Some((ipv6, Binary64::hundred().minus(ipv6)))
            } else {
                None
            };
            Some(MixReport { mix, byte_shares })
        },
        None => None,
    }
}

/// The bytes of all buckets add up, one bucket after the other.
pub proof fn law_bytes_add_up(delta: Seq<TrafficCounters>, more: TrafficCounters)
    ensures
        total_bytes(Seq::<TrafficCounters>::empty()) == 0,
        total_bytes(delta.push(more)) == total_bytes(delta) + more.bytes,
{
    assert(delta.push(more).drop_last() =~= delta);
}

/// The share of IPv6 is the bytes of its bucket in percent of all bytes: at least `c` where a
/// hundred times its bytes are at least `c` times all of them, at most `c` where they are at
/// most that; the share of IPv4 is what is left of 100. Without bytes there are no shares.
pub proof fn law_byte_shares_are_percent_of_all_bytes(delta: Seq<TrafficCounters>, c: Binary64)
    requires
        delta.len() > 3,
        total_bytes(delta) <= 0x20_0000_0000_0000,
        delta[3].bytes <= 0x4000_0000_0000,
        c.finite(),
    ensures
        total_bytes(delta) == 0 <==> byte_shares_spec(delta) is None,
        byte_shares_spec(delta) matches Some(shares) ==> {
            let part = delta[3].bytes * 100 * pow2(1074) * pow2(1074);
            let whole = total_bytes(delta) * pow2(1074);
            &&& part >= c.value() * whole ==> c.le_spec(shares.0)
            &&& part <= c.value() * whole ==> shares.0.le_spec(c)
            &&& shares.1 == Binary64::hundred().minus_spec(shares.0)
        },
{
    let n = delta[3].bytes;
    let total = total_bytes(delta) as u64;
    if total > 0 {
        lemma_hundredfold(n);
        law_small_whole_numbers_are_exact((n * 100) as u64);
        law_small_whole_numbers_are_exact(total);
        law_from_u64_sign(total);
        law_quotient_against(
            Binary64::from_u64_spec((n * 100) as u64),
            Binary64::from_u64_spec(total),
            c,
        );
    }
}

} // verus!
