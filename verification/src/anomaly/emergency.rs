//! Absolute rate thresholds.
use vstd::arithmetic::power2::pow2;
use vstd::prelude::*;

use crate::alert::model::{AlertKind, AlertSignal};
use crate::anomaly::detector::{AnomalyDetector, DetectResult};
use crate::anomaly::{in_unit_interval, lemma_less_one_is_monotonic, lemma_ratio_less_one};
use crate::anomaly::model::AnomalyLevel;
use crate::binary64::bounds::{
    law_difference_against, law_quotient_against, law_quotient_is_monotonic,
};
use crate::binary64::constants::law_whole_constants;
use crate::binary64::laws::{
    law_quotient_is_a_number, law_sum_is_a_number, lemma_units_of_small_numbers,
};
use crate::binary64::order::law_order_is_numeric;
use crate::binary64::Binary64;
use crate::common::ProtoIndex;
use crate::rate::model::ProtoRate;
use crate::sublist::{lemma_picks_none, lemma_picks_step, picks};

verus! {

/// The largest rates of one protocol that are no emergency.
#[derive(Debug, Clone, Copy)]
pub struct EmergencyThreshold {
    pub proto: ProtoIndex,
    pub max_pps: Option<Binary64>,
    pub max_bps: Option<Binary64>,
}

/// Whether `rate` is above `limit`.
pub open spec fn exceeds(rate: Binary64, limit: Option<Binary64>) -> bool {
    match limit {
        Some(l) => l.lt_spec(rate),
        None => false,
    }
}

fn is_above(rate: Binary64, limit: Option<Binary64>) -> (r: bool)
    ensures
        r == exceeds(rate, limit),
{
    match limit {
        Some(l) => rate.gt(l),
        None => false,
    }
}

/// `rate` divided by `limit`; 0 without a limit above zero.
pub open spec fn limit_ratio(rate: Binary64, limit: Option<Binary64>) -> Binary64 {
    match limit {
        Some(l) => if Binary64::zero().lt_spec(l) {
            rate.over_spec(l)
        } else {
            Binary64::zero()
        },
        None => Binary64::zero(),
    }
}

fn ratio_to(rate: Binary64, limit: Option<Binary64>) -> (r: Binary64)
    ensures
        r == limit_ratio(rate, limit),
{
    match limit {
        Some(l) => if l.gt(Binary64::zero()) {
            rate.over(l)
        } else {
            Binary64::zero()
        },
        None => Binary64::zero(),
    }
}

/// The first threshold for `proto`.
pub open spec fn threshold_for(thresholds: Seq<EmergencyThreshold>, proto: ProtoIndex) -> Option<
    EmergencyThreshold,
>
    decreases thresholds.len(),
{
    if thresholds.len() == 0 {
        None
    } else if thresholds[0].proto == proto {
        Some(thresholds[0])
    } else {
        threshold_for(thresholds.drop_first(), proto)
    }
}

/// The signal, if any, for one rate.
pub open spec fn emergency_signal(
    thresholds: Seq<EmergencyThreshold>,
    rate: ProtoRate,
) -> Option<AlertSignal> {
    match threshold_for(thresholds, rate.proto) {
        Some(t) => if exceeds(rate.pps, t.max_pps) || exceeds(rate.bps, t.max_bps) {
            Some(
                AlertSignal {
                    proto: rate.proto,
                    level: AnomalyLevel::Severe,
                    kind: AlertKind::Emergency,
                    confidence: limit_ratio(rate.pps, t.max_pps).max_spec(
                        limit_ratio(rate.bps, t.max_bps),
                    ).minus_spec(Binary64::one()).clamp_spec(Binary64::zero(), Binary64::one()),
                },
            )
        } else {
            None
        },
        None => None,
    }
}

/// The signals for `rates`, in order.
pub open spec fn emergency_signals(
    thresholds: Seq<EmergencyThreshold>,
    rates: Seq<ProtoRate>,
) -> Seq<AlertSignal>
    decreases rates.len(),
{
    if rates.len() == 0 {
        Seq::empty()
    } else {
        let before = emergency_signals(thresholds, rates.drop_last());
        match emergency_signal(thresholds, rates.last()) {
            Some(s) => before.push(s),
            None => before,
        }
    }
}

/// Signals an emergency as soon as a protocol's rate is above its threshold. It has no state:
/// no warm-up and no baseline.
///
/// The confidence is how far the worse of the two rates is above its threshold, from 0 at the
/// threshold to 1 at twice the threshold.
#[derive(Debug)]
pub struct EmergencyDetector {
    thresholds: Vec<EmergencyThreshold>,
}

impl EmergencyDetector {
    /// The thresholds.
    pub closed spec fn thresholds(&self) -> Seq<EmergencyThreshold> {
        self.thresholds@
    }

    /// A detector with the given thresholds. Protocols without one are never signalled.
    pub fn new(thresholds: Vec<EmergencyThreshold>) -> (r: Self)
        ensures
            r.thresholds() == thresholds@,
    {
        EmergencyDetector { thresholds }
    }

    fn find(&self, proto: ProtoIndex) -> (r: Option<EmergencyThreshold>)
        ensures
            r == threshold_for(self.thresholds(), proto),
    {
        let mut i: usize = 0;
        proof {
            assert(self.thresholds@.skip(0) =~= self.thresholds@);
        }
        while i < self.thresholds.len()
            invariant
                i <= self.thresholds@.len(),
                threshold_for(self.thresholds@, proto) == threshold_for(
                    self.thresholds@.skip(i as int),
                    proto,
                ),
            decreases self.thresholds@.len() - i,
        {
            let t = self.thresholds[i];
            proof {
                assert(self.thresholds@.skip(i as int)[0] == t);
                assert(self.thresholds@.skip(i as int).drop_first() =~= self.thresholds@.skip(
                    i + 1,
                ));
            }
            if t.proto == proto {
                return Some(t);
            }
            i = i + 1;
        }
        None
    }
}

impl AnomalyDetector for EmergencyDetector {
    open spec fn detected(&self, rates: Seq<ProtoRate>) -> Option<Seq<AlertSignal>> {
        Some(emergency_signals(self.thresholds(), rates))
    }

    fn detect(&self, rates: &[ProtoRate]) -> (r: DetectResult) {
        let mut signals: Vec<AlertSignal> = Vec::new();
        let mut i: usize = 0;
        proof {
            assert(rates@.take(0).len() == 0);
        }
        while i < rates.len()
            invariant
                i <= rates@.len(),
                signals@ == emergency_signals(self.thresholds(), rates@.take(i as int)),
            decreases rates@.len() - i,
        {
            let rate = rates[i];
            proof {
                let t = rates@.take(i + 1);
                assert(t.drop_last() =~= rates@.take(i as int));
                assert(t.last() == rate);
            }
            match self.find(rate.proto) {
                Some(t) => {
                    if is_above(rate.pps, t.max_pps) || is_above(rate.bps, t.max_bps) {
                        let pps_ratio: Binary64 = ratio_to(rate.pps, t.max_pps);
                        let bps_ratio: Binary64 = ratio_to(rate.bps, t.max_bps);
                        let confidence: Binary64 = pps_ratio.max(bps_ratio).minus(
                            Binary64::one(),
                        ).clamp(Binary64::zero(), Binary64::one());
                        signals.push(
                            AlertSignal {
                                proto: rate.proto,
                                level: AnomalyLevel::Severe,
                                kind: AlertKind::Emergency,
                                confidence,
                            },
                        );
                    }
                },
                None => {},
            }
            i = i + 1;
        }
        proof {
            assert(rates@.take(rates@.len() as int) =~= rates@);
        }
        DetectResult::Signals(signals)
    }
}

/// Every rate above its protocol's threshold is signalled, on the first tick as on any other:
/// there is no warm-up.
pub proof fn law_emergency_fires_above_threshold(
    detector: EmergencyDetector,
    rates: Seq<ProtoRate>,
    i: int,
    t: EmergencyThreshold,
)
    requires
        0 <= i < rates.len(),
        threshold_for(detector.thresholds(), rates[i].proto) == Some(t),
        exceeds(rates[i].pps, t.max_pps) || exceeds(rates[i].bps, t.max_bps),
    ensures
        detector.detected(rates) matches Some(signals) && signals.contains(
            emergency_signal(detector.thresholds(), rates[i])->0,
        ),
    decreases rates.len(),
{
    let rest = rates.drop_last();
    let all = emergency_signals(detector.thresholds(), rates);
    let s = emergency_signal(detector.thresholds(), rates[i])->0;
    if i == rates.len() - 1 {
        assert(all[all.len() - 1] == s);
    } else {
        assert(rest[i] == rates[i]);
        law_emergency_fires_above_threshold(detector, rest, i, t);
        let before = emergency_signals(detector.thresholds(), rest);
        let j = choose|j: int| 0 <= j < before.len() && before[j] == s;
        assert(all[j] == s);
    }
}

/// Without a threshold for its protocol no rate is signalled.
pub proof fn law_no_threshold_no_signal(detector: EmergencyDetector, rates: Seq<ProtoRate>)
    requires
        forall|i: int|
            0 <= i < rates.len() ==> threshold_for(
                detector.thresholds(),
                (#[trigger] rates[i]).proto,
            ) is None,
    ensures
        detector.detected(rates) == Some(Seq::<AlertSignal>::empty()),
    decreases rates.len(),
{
    if rates.len() > 0 {
        let rest = rates.drop_last();
        assert forall|i: int| 0 <= i < rest.len() implies threshold_for(
            detector.thresholds(),
            (#[trigger] rest[i]).proto,
        ) is None by {
            assert(rest[i] == rates[i]);
        }
        law_no_threshold_no_signal(detector, rest);
        assert(rates[rates.len() - 1] == rates.last());
    }
}

/// The confidence of an emergency is a number from 0 to 1, whatever the rates and thresholds.
pub proof fn law_emergency_confidence_in_unit_interval(
    thresholds: Seq<EmergencyThreshold>,
    rate: ProtoRate,
)
    ensures
        emergency_signal(thresholds, rate) matches Some(s) ==> in_unit_interval(s.confidence),
{
    match emergency_signal(thresholds, rate) {
        Some(s) => {
            let t = threshold_for(thresholds, rate.proto)->0;
            let pps = limit_ratio(rate.pps, t.max_pps);
            let bps = limit_ratio(rate.bps, t.max_bps);
            if exceeds(rate.pps, t.max_pps) {
                lemma_ratio_is_a_number(rate.pps, t.max_pps);
            } else {
                lemma_ratio_is_a_number(rate.bps, t.max_bps);
            }
            assert(!pps.max_spec(bps).nan());
            law_sum_is_a_number(pps.max_spec(bps), Binary64::one());
        },
        None => {},
    }
}

/// A rate above its limit is a number of limits.
proof fn lemma_ratio_is_a_number(rate: Binary64, limit: Option<Binary64>)
    requires
        exceeds(rate, limit),
    ensures
        !limit_ratio(rate, limit).nan(),
{
    let l = limit->0;
    if Binary64::zero().lt_spec(l) {
        law_quotient_is_a_number(rate, l);
    }
}

/// The threshold that governs a protocol is the first one for it, and there is one exactly if
/// some threshold is for it.
pub proof fn law_first_threshold_governs(
    thresholds: Seq<EmergencyThreshold>,
    proto: ProtoIndex,
    i: int,
)
    requires
        0 <= i <= thresholds.len(),
        forall|k: int| 0 <= k < i ==> (#[trigger] thresholds[k]).proto != proto,
        i < thresholds.len() ==> thresholds[i].proto == proto,
    ensures
        i < thresholds.len() ==> threshold_for(thresholds, proto) == Some(thresholds[i]),
        i == thresholds.len() ==> threshold_for(thresholds, proto) is None,
    decreases i,
{
    if i > 0 {
        let rest = thresholds.drop_first();
        assert(thresholds[0].proto != proto);
        assert forall|k: int| 0 <= k < i - 1 implies (#[trigger] rest[k]).proto != proto by {
            assert(thresholds[k + 1].proto != proto);
        }
        law_first_threshold_governs(rest, proto, i - 1);
    }
}

/// Whether `rate` is above one of the limits that govern its protocol.
pub open spec fn over_a_limit(thresholds: Seq<EmergencyThreshold>, rate: ProtoRate) -> bool {
    threshold_for(thresholds, rate.proto) matches Some(t) && {
        ||| t.max_pps matches Some(l) && l.lt_spec(rate.pps)
        ||| t.max_bps matches Some(l) && l.lt_spec(rate.bps)
    }
}

/// The signals are the rates above a limit of their protocol, in order, and no others: signal
/// `k` comes from the rate at position `at[k]`, is about its protocol, and is a severe
/// emergency.
pub proof fn law_emergencies_are_the_rates_above(
    thresholds: Seq<EmergencyThreshold>,
    rates: Seq<ProtoRate>,
) -> (at: Seq<int>)
    ensures
        picks(at, rates.len(), |i: int| over_a_limit(thresholds, rates[i])),
        emergency_signals(thresholds, rates).len() == at.len(),
        forall|k: int|
            0 <= k < at.len() ==> {
                let s = #[trigger] emergency_signals(thresholds, rates)[k];
                &&& s.proto == rates[at[k]].proto
                &&& s.level == AnomalyLevel::Severe
                &&& s.kind == AlertKind::Emergency
                &&& Some(s) == emergency_signal(thresholds, rates[at[k]])
            },
{
    assert(rates.take(rates.len() as int) =~= rates);
    lemma_emergencies_upto(thresholds, rates, rates.len())
}

proof fn lemma_emergencies_upto(
    thresholds: Seq<EmergencyThreshold>,
    rates: Seq<ProtoRate>,
    n: nat,
) -> (at: Seq<int>)
    requires
        n <= rates.len(),
    ensures
        picks(at, n, |i: int| over_a_limit(thresholds, rates[i])),
        emergency_signals(thresholds, rates.take(n as int)).len() == at.len(),
        forall|k: int|
            0 <= k < at.len() ==> Some(
                #[trigger] emergency_signals(thresholds, rates.take(n as int))[k],
            ) == emergency_signal(thresholds, rates[at[k]]),
    decreases n,
{
    let keep = |i: int| over_a_limit(thresholds, rates[i]);
    if n == 0 {
        lemma_picks_none(keep);
        Seq::empty()
    } else {
        let m = (n - 1) as nat;
        let before = lemma_emergencies_upto(thresholds, rates, m);
        lemma_picks_step(before, m, keep);
        assert(rates.take(n as int).drop_last() =~= rates.take(m as int));
        if keep(m as int) {
            before.push(m as int)
        } else {
            before
        }
    }
}

/// Whether `rate` is at least `c` times `limit`, on the numbers that the doubles stand for.
pub open spec fn is_at_least(rate: Binary64, c: Binary64, limit: Option<Binary64>) -> bool {
    limit matches Some(l) && rate.value() * pow2(1074) >= c.value() * l.value()
}

/// Whether there is no limit, or `rate` is at most `c` times `limit`.
pub open spec fn is_at_most(rate: Binary64, c: Binary64, limit: Option<Binary64>) -> bool {
    limit matches Some(l) ==> rate.value() * pow2(1074) <= c.value() * l.value()
}

/// Whether `limit` is none, or a finite number above zero.
pub open spec fn usable(limit: Option<Binary64>) -> bool {
    limit matches Some(l) ==> l.finite() && l.rank() > 0
}

/// The confidence of an emergency goes by the worse of the two rates. It is 1 as soon as the
/// packet rate or the byte rate is twice its limit. For every `c` from 1 to 2 it is at least
/// `c - 1` as soon as one of them is `c` times its limit, and at most `c - 1` while neither is
/// more than that.
pub proof fn law_emergency_confidence_is_of_the_worse_rate(
    thresholds: Seq<EmergencyThreshold>,
    rate: ProtoRate,
    t: EmergencyThreshold,
    c: Binary64,
)
    requires
        threshold_for(thresholds, rate.proto) == Some(t),
        usable(t.max_pps) && usable(t.max_bps),
        rate.pps.finite() && rate.bps.finite(),
        c.finite() && Binary64::one().le_spec(c) && c.le_spec(Binary64::two()),
    ensures
        emergency_signal(thresholds, rate) matches Some(s) ==> {
            &&& is_at_least(rate.pps, Binary64::two(), t.max_pps) || is_at_least(
                rate.bps,
                Binary64::two(),
                t.max_bps,
            ) ==> s.confidence == Binary64::one()
            &&& is_at_least(rate.pps, c, t.max_pps) || is_at_least(rate.bps, c, t.max_bps)
                ==> c.minus_spec(Binary64::one()).le_spec(s.confidence)
            &&& is_at_most(rate.pps, c, t.max_pps) && is_at_most(rate.bps, c, t.max_bps)
                ==> s.confidence.le_spec(c.minus_spec(Binary64::one()))
        },
{
    if let Some(s) = emergency_signal(thresholds, rate) {
        let two = Binary64::two();
        let pps = limit_ratio(rate.pps, t.max_pps);
        let bps = limit_ratio(rate.bps, t.max_bps);
        lemma_ratio_against(rate.pps, t.max_pps, c);
        lemma_ratio_against(rate.bps, t.max_bps, c);
        lemma_ratio_against(rate.pps, t.max_pps, two);
        lemma_ratio_against(rate.bps, t.max_bps, two);
        lemma_ratio_less_one(pps.max_spec(bps), c);
        lemma_ratio_less_one(pps.max_spec(bps), two);
        lemma_two_less_one();
    }
}

/// 2 less 1 is 1.
proof fn lemma_two_less_one()
    ensures
        Binary64::two().minus_spec(Binary64::one()) == Binary64::one(),
{
    lemma_units_of_small_numbers();
    law_difference_against(Binary64::two(), Binary64::one(), Binary64::one());
}

proof fn lemma_ratio_against(rate: Binary64, limit: Option<Binary64>, c: Binary64)
    requires
        usable(limit),
        rate.finite(),
        c.finite() && Binary64::one().le_spec(c),
    ensures
        !limit_ratio(rate, limit).nan(),
        exceeds(rate, limit) ==> Binary64::one().le_spec(limit_ratio(rate, limit)),
        is_at_least(rate, c, limit) ==> c.le_spec(limit_ratio(rate, limit)),
        is_at_most(rate, c, limit) ==> limit_ratio(rate, limit).le_spec(c),
{
    if let Some(l) = limit {
        law_quotient_against(rate, l, c);
        law_quotient_against(rate, l, Binary64::one());
        law_quotient_is_a_number(rate, l);
        law_order_is_numeric(l, rate);
        law_whole_constants();
        let p = pow2(1074) as int;
        assert(l.value() <= rate.value() ==> rate.value() * p >= p * l.value()) by (nonlinear_arith)
            requires
                p >= 0,
        ;
    }
}

/// A rate that is higher, in packets or in bytes, is an emergency wherever the lower one is,
/// and with no less confidence.
pub proof fn law_emergency_confidence_grows_with_both_rates(
    thresholds: Seq<EmergencyThreshold>,
    low: ProtoRate,
    high: ProtoRate,
    t: EmergencyThreshold,
)
    requires
        threshold_for(thresholds, low.proto) == Some(t),
        high.proto == low.proto,
        usable(t.max_pps) && usable(t.max_bps),
        low.pps.finite() && low.bps.finite(),
        high.pps.finite() && high.bps.finite(),
        low.pps.value() <= high.pps.value(),
        low.bps.value() <= high.bps.value(),
    ensures
        emergency_signal(thresholds, low) matches Some(l) ==> emergency_signal(thresholds, high)
            matches Some(h) && l.confidence.le_spec(h.confidence),
{
    law_order_is_numeric(low.pps, high.pps);
    law_order_is_numeric(low.bps, high.bps);
    lemma_ratio_against(low.pps, t.max_pps, Binary64::one());
    lemma_ratio_against(low.bps, t.max_bps, Binary64::one());
    lemma_ratio_against(high.pps, t.max_pps, Binary64::one());
    lemma_ratio_against(high.bps, t.max_bps, Binary64::one());
    if let Some(l) = t.max_pps {
        law_quotient_is_monotonic(low.pps, high.pps, l);
    }
    if let Some(l) = t.max_bps {
        law_quotient_is_monotonic(low.bps, high.bps, l);
    }
    let a = limit_ratio(low.pps, t.max_pps).max_spec(limit_ratio(low.bps, t.max_bps));
    let b = limit_ratio(high.pps, t.max_pps).max_spec(limit_ratio(high.bps, t.max_bps));
    if emergency_signal(thresholds, low) is Some {
        lemma_less_one_is_monotonic(a, b);
    }
}

} // verus!
