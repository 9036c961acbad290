//! Differences and rates of accumulated counters.
use vstd::prelude::*;

use crate::rate::compute::{compute_rates_spec, diff_stats_spec};
use crate::rate::model::{ProtoRate, TrafficCounters, TrafficCountersSnapshot};

verus! {

/// How far the counters of each bucket have moved, for the buckets that both have.
pub fn diff_stats(cur: &[TrafficCounters], prev: &[TrafficCounters]) -> (r: Vec<TrafficCounters>)
    ensures
        r@ == diff_stats_spec(cur@, prev@),
{
    crate::rate::compute::diff_stats(cur, prev)
}

/// Packets and bytes per second between two snapshots.
pub fn compute_rates(
    prev: &TrafficCountersSnapshot,
    curr: &TrafficCountersSnapshot,
) -> (r: Vec<ProtoRate>)
    ensures
        r@ == compute_rates_spec(
            prev.stats@,
            curr.stats@,
            curr.timestamp.since(prev.timestamp).as_secs_f64_spec(),
        ),
{
    crate::rate::compute::compute_rates(prev, curr)
}

} // verus!
