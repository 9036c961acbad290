//! Holding a snapshot of rates against the baselines.
use vstd::prelude::*;

use crate::anomaly::model::AnomalyLevel;
use crate::binary64::Binary64;
use crate::common::ProtoIndex;
use crate::rate::model::{ProtoRate, ProtoRateSnapshot};
use crate::stats::classifier::{classify, classify_spec, AnomalyDecision};
use crate::stats::proto::ProtoEwmaBaseline;
use crate::sublist::{lemma_picks_none, lemma_picks_step, picks};
use crate::time::Instant;

verus! {

/// What an analysis found.
#[derive(Debug)]
pub enum AnalyzeResult {
    WarmingUp,
    Normal(Vec<AnomalyDecision>),
}

/// The worse of two levels; normal where there is none.
pub open spec fn worse_level(a: Option<AnomalyLevel>, b: Option<AnomalyLevel>) -> AnomalyLevel {
    if a == Some(AnomalyLevel::Severe) || b == Some(AnomalyLevel::Severe) {
        AnomalyLevel::Severe
    } else if a == Some(AnomalyLevel::Suspicious) || b == Some(AnomalyLevel::Suspicious) {
        AnomalyLevel::Suspicious
    } else {
        AnomalyLevel::Normal
    }
}

/// How one rate stands to its baseline; `None` while that is not ready.
pub open spec fn decision_spec(
    baseline: ProtoEwmaBaseline,
    rate: ProtoRate,
    now: Instant,
) -> Option<AnomalyDecision> {
    match (
        baseline.baseline_spec(rate.proto, now),
        baseline.z_scores_spec(rate.proto, rate.pps, rate.bps, now),
    ) {
        (Some(b), Some(z)) => Some(
            AnomalyDecision {
                proto: rate.proto,
                pps: rate.pps,
                bps: rate.bps,
                pps_baseline: b.pps,
                bps_baseline: b.bps,
                z_pps: z.0,
                z_bps: z.1,
                anomaly_level: worse_level(classify_spec(z.0), classify_spec(z.1)),
            },
        ),
        _ => None,
    }
}

/// How the rates stand to their baselines, in order, without those that are not ready.
pub open spec fn decisions_spec(
    baseline: ProtoEwmaBaseline,
    rates: Seq<ProtoRate>,
    now: Instant,
) -> Seq<AnomalyDecision>
    decreases rates.len(),
{
    if rates.len() == 0 {
        Seq::empty()
    } else {
        let before = decisions_spec(baseline, rates.drop_last(), now);
        match decision_spec(baseline, rates.last(), now) {
            Some(d) => before.push(d),
            None => before,
        }
    }
}

fn decide(baseline: &ProtoEwmaBaseline, rate: ProtoRate, now: Instant) -> (r: Option<
    AnomalyDecision,
>)
    ensures
        r == decision_spec(*baseline, rate, now),
{
    let (z_pps, z_bps) = match baseline.z_scores(rate.proto, rate.pps, rate.bps, now) {
        Some(z) => z,
        None => {
            return None;
        },
    };
    let anomaly_level = match (classify(z_pps), classify(z_bps)) {
        (Some(AnomalyLevel::Severe), _) => AnomalyLevel::Severe,
        (_, Some(AnomalyLevel::Severe)) => AnomalyLevel::Severe,
        (Some(AnomalyLevel::Suspicious), _) => AnomalyLevel::Suspicious,
        (_, Some(AnomalyLevel::Suspicious)) => AnomalyLevel::Suspicious,
        _ => AnomalyLevel::Normal,
    };
    match baseline.baseline(rate.proto, now) {
        Some(b) => Some(
            AnomalyDecision {
                proto: rate.proto,
                pps: rate.pps,
                bps: rate.bps,
                pps_baseline: b.pps,
                bps_baseline: b.bps,
                z_pps,
                z_bps,
                anomaly_level,
            },
        ),
        None => None,
    }
}

/// Whether the averages of every protocol are ready.
pub open spec fn all_ready(baseline: ProtoEwmaBaseline, now: Instant) -> bool {
    forall|proto: ProtoIndex| #[trigger] baseline.ready(proto, now)
}

fn is_all_ready(baseline: &ProtoEwmaBaseline, now: Instant) -> (r: bool)
    ensures
        r == all_ready(*baseline, now),
{
    let r = baseline.baseline(ProtoIndex::Icmp, now).is_some() && baseline.baseline(
        ProtoIndex::Tcp,
        now,
    ).is_some() && baseline.baseline(ProtoIndex::Udp, now).is_some() && baseline.baseline(
        ProtoIndex::Ipv6,
        now,
    ).is_some() && baseline.baseline(ProtoIndex::Other, now).is_some();
    proof {
        assert(baseline.ready(ProtoIndex::Icmp, now) && baseline.ready(ProtoIndex::Tcp, now)
            && baseline.ready(ProtoIndex::Udp, now) && baseline.ready(ProtoIndex::Ipv6, now)
            && baseline.ready(ProtoIndex::Other, now) <==> all_ready(*baseline, now)) by {
            if baseline.ready(ProtoIndex::Icmp, now) && baseline.ready(ProtoIndex::Tcp, now)
                && baseline.ready(ProtoIndex::Udp, now) && baseline.ready(ProtoIndex::Ipv6, now)
                && baseline.ready(ProtoIndex::Other, now) {
                assert forall|proto: ProtoIndex| #[trigger] baseline.ready(proto, now) by {
                    match proto {
                        ProtoIndex::Icmp => {},
                        ProtoIndex::Tcp => {},
                        ProtoIndex::Udp => {},
                        ProtoIndex::Ipv6 => {},
                        ProtoIndex::Other => {},
                    }
                }
            }
        }
    }
    r
}

/// Holds a snapshot of rates against the baselines. The analysis is warming up until the
/// averages of every protocol are ready.
pub fn analyze_snapshot(
    snapshot: &ProtoRateSnapshot,
    baseline: &ProtoEwmaBaseline,
    now: Instant,
) -> (r: AnalyzeResult)
    ensures
        match r {
            AnalyzeResult::WarmingUp => !all_ready(*baseline, now),
            AnalyzeResult::Normal(d) => all_ready(*baseline, now) && d@ == decisions_spec(
                *baseline,
                snapshot.rates@,
                now,
            ),
        },
{
    let mut decisions: Vec<AnomalyDecision> = Vec::new();
    let mut i: usize = 0;
    proof {
        assert(snapshot.rates@.take(0).len() == 0);
    }
    while i < snapshot.rates.len()
        invariant
            i <= snapshot.rates@.len(),
            decisions@ == decisions_spec(*baseline, snapshot.rates@.take(i as int), now),
        decreases snapshot.rates@.len() - i,
    {
        let rate = snapshot.rates[i];
        proof {
            let t = snapshot.rates@.take(i + 1);
            assert(t.drop_last() =~= snapshot.rates@.take(i as int));
            assert(t.last() == rate);
        }
        match decide(baseline, rate, now) {
            Some(d) => {
                decisions.push(d);
            },
            None => {},
        }
        i = i + 1;
    }
    proof {
        assert(snapshot.rates@.take(snapshot.rates@.len() as int) =~= snapshot.rates@);
    }
    if is_all_ready(baseline, now) {
        AnalyzeResult::Normal(decisions)
    } else {
        AnalyzeResult::WarmingUp
    }
}

/// What is decided of a rate: something exactly if its protocol's baseline is ready; then the
/// protocol, the rates and the baseline as they are, and the worse of the levels of the two
/// distances, which is severe as soon as one is 6 or more, suspicious as soon as one is 3 or
/// more.
pub proof fn law_decision_of_a_rate(baseline: ProtoEwmaBaseline, rate: ProtoRate, now: Instant)
    ensures
        decision_spec(baseline, rate, now) is Some <==> baseline.baseline_spec(rate.proto, now)
            is Some,
        decision_spec(baseline, rate, now) matches Some(d) ==> {
            let b = baseline.baseline_spec(rate.proto, now)->0;
            let z = baseline.z_scores_spec(rate.proto, rate.pps, rate.bps, now)->0;
            &&& d.proto == rate.proto
            &&& d.pps == rate.pps && d.bps == rate.bps
            &&& d.pps_baseline == b.pps && d.bps_baseline == b.bps
            &&& d.z_pps == z.0 && d.z_bps == z.1
            &&& d.anomaly_level == AnomalyLevel::Severe <==> classify_spec(z.0) == Some(
                AnomalyLevel::Severe,
            ) || classify_spec(z.1) == Some(AnomalyLevel::Severe)
            &&& d.anomaly_level == AnomalyLevel::Normal <==> !(z.0 matches Some(x)
                && !x.abs_spec().lt_spec(Binary64::three())) && !(z.1 matches Some(x)
                && !x.abs_spec().lt_spec(Binary64::three()))
        },
{
}

/// The decisions are those of the rates whose baselines are ready, in order, and no others:
/// decision `k` is of the rate at position `at[k]`.
pub proof fn law_decisions_follow_the_rates(
    baseline: ProtoEwmaBaseline,
    rates: Seq<ProtoRate>,
    now: Instant,
) -> (at: Seq<int>)
    ensures
        picks(at, rates.len(), |i: int| decision_spec(baseline, rates[i], now) is Some),
        decisions_spec(baseline, rates, now).len() == at.len(),
        forall|k: int|
            0 <= k < at.len() ==> Some(#[trigger] decisions_spec(baseline, rates, now)[k])
                == decision_spec(baseline, rates[at[k]], now),
{
    assert(rates.take(rates.len() as int) =~= rates);
    lemma_decisions_upto(baseline, rates, now, rates.len())
}

proof fn lemma_decisions_upto(
    baseline: ProtoEwmaBaseline,
    rates: Seq<ProtoRate>,
    now: Instant,
    n: nat,
) -> (at: Seq<int>)
    requires
        n <= rates.len(),
    ensures
        picks(at, n, |i: int| decision_spec(baseline, rates[i], now) is Some),
        decisions_spec(baseline, rates.take(n as int), now).len() == at.len(),
        forall|k: int|
            0 <= k < at.len() ==> Some(
                #[trigger] decisions_spec(baseline, rates.take(n as int), now)[k],
            ) == decision_spec(baseline, rates[at[k]], now),
    decreases n,
{
    let keep = |i: int| decision_spec(baseline, rates[i], now) is Some;
    if n == 0 {
        lemma_picks_none(keep);
        Seq::empty()
    } else {
        let m = (n - 1) as nat;
        let before = lemma_decisions_upto(baseline, rates, now, m);
        lemma_picks_step(before, m, keep);
        assert(rates.take(n as int).drop_last() =~= rates.take(m as int));
        if keep(m as int) {
            before.push(m as int)
        } else {
            before
        }
    }
}

/// The analysis waits until the averages of all five protocols are ready.
pub proof fn law_analysis_waits_for_every_protocol(baseline: ProtoEwmaBaseline, now: Instant)
    ensures
        all_ready(baseline, now) ==> forall|proto: ProtoIndex|
            baseline.pps.at(proto).ready(now) && #[trigger] baseline.bps.at(proto).ready(now),
        (exists|proto: ProtoIndex|
            !(#[trigger] baseline.pps.at(proto).ready(now)) || !baseline.bps.at(proto).ready(now))
            ==> !all_ready(baseline, now),
{
    if all_ready(baseline, now) {
        assert forall|proto: ProtoIndex|
            baseline.pps.at(proto).ready(now) && #[trigger] baseline.bps.at(proto).ready(now) by {
            assert(baseline.ready(proto, now));
        }
    }
    if exists|proto: ProtoIndex|
        !(#[trigger] baseline.pps.at(proto).ready(now)) || !baseline.bps.at(proto).ready(now) {
        let proto = choose|proto: ProtoIndex|
            !(#[trigger] baseline.pps.at(proto).ready(now)) || !baseline.bps.at(proto).ready(now);
        assert(!baseline.ready(proto, now));
    }
}

} // verus!
