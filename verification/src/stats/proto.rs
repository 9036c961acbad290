//! One pair of averages per protocol.
use vstd::arithmetic::power2::pow2;
use vstd::prelude::*;

use crate::baseline::estimator::{one_rate_per_proto, BaselineStats, ProtoBaseline};
use crate::binary64::bounds::law_root_against;
use crate::binary64::Binary64;
use crate::common::{ProtoIndex, ProtoTable};
use crate::rate::model::ProtoRate;
use crate::stats::ewma::Ewma;
use crate::stats::zscore::{z_score, z_score_spec};
use crate::time::Instant;

verus! {

/// One average per protocol for packets and one for bytes.
#[derive(Debug)]
pub struct ProtoEwmaBaseline {
    pub pps: ProtoTable<Ewma>,
    pub bps: ProtoTable<Ewma>,
}

/// The packet-rate averages with `rates` taken in, in order.
pub open spec fn pps_taken(table: ProtoTable<Ewma>, rates: Seq<ProtoRate>, now: Instant) -> ProtoTable<
    Ewma,
>
    decreases rates.len(),
{
    if rates.len() == 0 {
        table
    } else {
        let before = pps_taken(table, rates.drop_last(), now);
        before.with(
            rates.last().proto,
            before.at(rates.last().proto).updated(rates.last().pps, now),
        )
    }
}

/// The byte-rate averages with `rates` taken in, in order.
pub open spec fn bps_taken(table: ProtoTable<Ewma>, rates: Seq<ProtoRate>, now: Instant) -> ProtoTable<
    Ewma,
>
    decreases rates.len(),
{
    if rates.len() == 0 {
        table
    } else {
        let before = bps_taken(table, rates.drop_last(), now);
        before.with(
            rates.last().proto,
            before.at(rates.last().proto).updated(rates.last().bps, now),
        )
    }
}

impl ProtoEwmaBaseline {
    /// Whether both averages of `proto` are ready.
    pub open spec fn ready(self, proto: ProtoIndex, now: Instant) -> bool {
        self.pps.at(proto).ready(now) && self.bps.at(proto).ready(now)
    }

    /// The baseline of `proto`, once both its averages are ready.
    pub open spec fn baseline_spec(self, proto: ProtoIndex, now: Instant) -> Option<
        ProtoBaseline,
    > {
        if self.ready(proto, now) {
            Some(
                ProtoBaseline {
                    pps: BaselineStats {
                        mean: self.pps.at(proto).mean,
                        stddev: self.pps.at(proto).variance.sqrt_spec(),
                    },
                    bps: BaselineStats {
                        mean: self.bps.at(proto).mean,
                        stddev: self.bps.at(proto).variance.sqrt_spec(),
                    },
                },
            )
        } else {
            None
        }
    }

    /// The distances of two rates from the baseline of `proto`, once it is ready.
    pub open spec fn z_scores_spec(
        self,
        proto: ProtoIndex,
        pps: Binary64,
        bps: Binary64,
        now: Instant,
    ) -> Option<(Option<Binary64>, Option<Binary64>)> {
        match self.baseline_spec(proto, now) {
            Some(b) => Some(
                (
                    z_score_spec(pps, b.pps.mean, b.pps.stddev),
                    z_score_spec(bps, b.bps.mean, b.bps.stddev),
                ),
            ),
            None => None,
        }
    }

    /// Averages that have seen nothing.
    pub fn new(alpha: Binary64) -> (r: Self)
        ensures
            forall|proto: ProtoIndex|
                (#[trigger] r.pps.at(proto)) == (Ewma {
                    alpha,
                    mean: Binary64::zero(),
                    variance: Binary64::zero(),
                    mad: Binary64::zero(),
                    initialized: false,
                    sample_count: 0,
                    start_time: None,
                }),
            forall|proto: ProtoIndex|
                (#[trigger] r.bps.at(proto)) == (Ewma {
                    alpha,
                    mean: Binary64::zero(),
                    variance: Binary64::zero(),
                    mad: Binary64::zero(),
                    initialized: false,
                    sample_count: 0,
                    start_time: None,
                }),
    {
        ProtoEwmaBaseline {
            pps: ProtoTable::filled(Ewma::new(alpha)),
            bps: ProtoTable::filled(Ewma::new(alpha)),
        }
    }

    /// Takes rates in.
    pub fn update(&mut self, rates: &[ProtoRate], now: Instant)
        ensures
            final(self).pps == pps_taken(old(self).pps, rates@, now),
            final(self).bps == bps_taken(old(self).bps, rates@, now),
    {
        let ghost p0 = self.pps;
        let ghost b0 = self.bps;
        let mut i: usize = 0;
        proof {
            assert(rates@.take(0).len() == 0);
        }
        while i < rates.len()
            invariant
                i <= rates@.len(),
                self.pps == pps_taken(p0, rates@.take(i as int), now),
                self.bps == bps_taken(b0, rates@.take(i as int), now),
            decreases rates@.len() - i,
        {
            let r = rates[i];
            proof {
                let t = rates@.take(i + 1);
                assert(t.drop_last() =~= rates@.take(i as int));
                assert(t.last() == r);
            }
            let mut p = self.pps.get(r.proto);
            p.update(r.pps, now);
            self.pps.set(r.proto, p);
            let mut b = self.bps.get(r.proto);
            b.update(r.bps, now);
            self.bps.set(r.proto, b);
            i = i + 1;
        }
        proof {
            assert(rates@.take(rates@.len() as int) =~= rates@);
        }
    }

    /// The baseline of `proto`, once both its averages are ready.
    pub fn baseline(&self, proto: ProtoIndex, now: Instant) -> (r: Option<ProtoBaseline>)
        ensures
            r == self.baseline_spec(proto, now),
    {
        let pps = self.pps.get(proto);
        let bps = self.bps.get(proto);
        match (pps.mean(now), pps.stddev(now), bps.mean(now), bps.stddev(now)) {
            (Some(pm), Some(ps), Some(bm), Some(bs)) => Some(
                ProtoBaseline {
                    pps: BaselineStats { mean: pm, stddev: ps },
                    bps: BaselineStats { mean: bm, stddev: bs },
                },
            ),
            _ => None,
        }
    }

    /// The distances of two rates from the baseline of `proto`, once it is ready. A rate that
    /// has never deviated has no distance.
    pub fn z_scores(
        &self,
        proto: ProtoIndex,
        pps: Binary64,
        bps: Binary64,
        now: Instant,
    ) -> (r: Option<(Option<Binary64>, Option<Binary64>)>)
        ensures
            r == self.z_scores_spec(proto, pps, bps, now),
    {
        match self.baseline(proto, now) {
            Some(b) => Some(
                (
                    z_score(pps, b.pps.mean, b.pps.stddev),
                    z_score(bps, b.bps.mean, b.bps.stddev),
                ),
            ),
            None => None,
        }
    }
}

/// Every protocol that has a rate takes that rate in, whatever the other protocols do, and a
/// protocol without one keeps its averages.
pub proof fn law_each_protocol_takes_its_rate(
    pps: ProtoTable<Ewma>,
    bps: ProtoTable<Ewma>,
    rates: Seq<ProtoRate>,
    now: Instant,
    proto: ProtoIndex,
)
    requires
        one_rate_per_proto(rates),
    ensures
        forall|i: int|
            0 <= i < rates.len() && (#[trigger] rates[i]).proto == proto ==> pps_taken(
                pps,
                rates,
                now,
            ).at(proto) == pps.at(proto).updated(rates[i].pps, now) && bps_taken(
                bps,
                rates,
                now,
            ).at(proto) == bps.at(proto).updated(rates[i].bps, now),
        (forall|i: int| 0 <= i < rates.len() ==> (#[trigger] rates[i]).proto != proto)
            ==> pps_taken(pps, rates, now).at(proto) == pps.at(proto) && bps_taken(
            bps,
            rates,
            now,
        ).at(proto) == bps.at(proto),
    decreases rates.len(),
{
    if rates.len() > 0 {
        let rest = rates.drop_last();
        let last = rates.len() - 1;
        assert forall|i: int, j: int| 0 <= i < j < rest.len() implies (#[trigger] rest[i]).proto
            != (#[trigger] rest[j]).proto by {
            assert(rates[i].proto != rates[j].proto);
        }
        law_each_protocol_takes_its_rate(pps, bps, rest, now, proto);
        if rates[last].proto == proto {
            assert forall|i: int| 0 <= i < rest.len() implies (#[trigger] rest[i]).proto
                != proto by {
                assert(rates[i].proto != rates[last].proto);
            }
        } else {
            assert forall|i: int|
                0 <= i < rates.len() && (#[trigger] rates[i]).proto == proto implies pps_taken(
                pps,
                rates,
                now,
            ).at(proto) == pps.at(proto).updated(rates[i].pps, now) && bps_taken(
                bps,
                rates,
                now,
            ).at(proto) == bps.at(proto).updated(rates[i].bps, now) by {
                assert(rest[i] == rates[i]);
            }
            if forall|i: int| 0 <= i < rates.len() ==> (#[trigger] rates[i]).proto != proto {
                assert forall|i: int| 0 <= i < rest.len() implies (#[trigger] rest[i]).proto
                    != proto by {
                    assert(rates[i].proto != proto);
                }
            }
        }
    }
}

/// A baseline is there exactly if both averages of its protocol are ready; it holds their
/// means, and the roots of their variances: where a double `c` has exactly a variance as its
/// square, `c` is the deviation.
pub proof fn law_baseline_is_mean_and_root(
    e: ProtoEwmaBaseline,
    proto: ProtoIndex,
    now: Instant,
    c: Binary64,
)
    requires
        c.finite() && c.rank() > 0,
        e.pps.at(proto).variance.finite() && e.pps.at(proto).variance.value() >= 0,
        e.bps.at(proto).variance.finite() && e.bps.at(proto).variance.value() >= 0,
    ensures
        e.baseline_spec(proto, now) is Some <==> e.pps.at(proto).ready(now) && e.bps.at(
            proto,
        ).ready(now),
        e.baseline_spec(proto, now) matches Some(b) ==> {
            let p = e.pps.at(proto).variance.value() * pow2(1074);
            let q = e.bps.at(proto).variance.value() * pow2(1074);
            &&& b.pps.mean == e.pps.at(proto).mean
            &&& b.bps.mean == e.bps.at(proto).mean
            &&& p >= c.value() * c.value() ==> c.le_spec(b.pps.stddev)
            &&& p <= c.value() * c.value() ==> b.pps.stddev.le_spec(c)
            &&& q >= c.value() * c.value() ==> c.le_spec(b.bps.stddev)
            &&& q <= c.value() * c.value() ==> b.bps.stddev.le_spec(c)
        },
{
    law_root_against(e.pps.at(proto).variance, c);
    law_root_against(e.bps.at(proto).variance, c);
}

/// The distances are there exactly if the baseline is; each is that of its own rate from its
/// own mean in its own deviations.
pub proof fn law_distances_do_not_mix(
    e: ProtoEwmaBaseline,
    proto: ProtoIndex,
    pps: Binary64,
    bps: Binary64,
    now: Instant,
)
    ensures
        e.z_scores_spec(proto, pps, bps, now) is Some <==> e.baseline_spec(proto, now) is Some,
        e.baseline_spec(proto, now) matches Some(b) ==> {
            let z = e.z_scores_spec(proto, pps, bps, now)->0;
            &&& z.0 == z_score_spec(pps, b.pps.mean, b.pps.stddev)
            &&& z.1 == z_score_spec(bps, b.bps.mean, b.bps.stddev)
        },
{
}

} // verus!
