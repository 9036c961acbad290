//! SYN packets per source address, against a threshold.
use vstd::arithmetic::power2::pow2;
use vstd::prelude::*;

use crate::alert::model::SynFloodSignal;
use crate::anomaly::{
    law_ratio_confidence_against, law_ratio_confidence_ends, ratio_confidence, ratio_confidence_spec,
};
use crate::binary64::Binary64;
use crate::rate::model::SynIpRate;
use crate::sublist::{lemma_picks_none, lemma_picks_step, picks};

verus! {

/// The signal, if any, for one address.
pub open spec fn syn_signal(max_syn_pps: Binary64, rate: SynIpRate) -> Option<SynFloodSignal> {
    if max_syn_pps.lt_spec(rate.pps) {
        Some(
            SynFloodSignal {
                src_ip: rate.src_ip,
                pps: rate.pps,
                confidence: ratio_confidence_spec(rate.pps, max_syn_pps),
            },
        )
    } else {
        None
    }
}

/// The signals for `rates`, in order.
pub open spec fn syn_signals(max_syn_pps: Binary64, rates: Seq<SynIpRate>) -> Seq<SynFloodSignal>
    decreases rates.len(),
{
    if rates.len() == 0 {
        Seq::empty()
    } else {
        let before = syn_signals(max_syn_pps, rates.drop_last());
        match syn_signal(max_syn_pps, rates.last()) {
            Some(s) => before.push(s),
            None => before,
        }
    }
}

/// Signals every source address that sends SYN packets faster than a threshold. It has no
/// state: most attackers have no history to learn from.
#[derive(Debug, Clone, Copy)]
pub struct SynFloodDetector {
    pub max_syn_pps: Binary64,
    pub top_n: usize,
}

impl SynFloodDetector {
    /// A detector with the given threshold, for the `top_n` fastest addresses.
    pub fn new(max_syn_pps: Binary64, top_n: usize) -> (r: Self)
        ensures
            r == (SynFloodDetector { max_syn_pps, top_n }),
    {
        SynFloodDetector { max_syn_pps, top_n }
    }

    /// Number of addresses to look at.
    pub fn top_n(&self) -> (r: usize)
        ensures
            r == self.top_n,
    {
        self.top_n
    }

    /// The addresses above the threshold.
    pub fn detect(&self, rates: &[SynIpRate]) -> (r: Vec<SynFloodSignal>)
        ensures
            r@ == syn_signals(self.max_syn_pps, rates@),
    {
        let mut r: Vec<SynFloodSignal> = Vec::new();
        let mut i: usize = 0;
        proof {
            assert(rates@.take(0).len() == 0);
        }
        while i < rates.len()
            invariant
                i <= rates@.len(),
                r@ == syn_signals(self.max_syn_pps, rates@.take(i as int)),
            decreases rates@.len() - i,
        {
            let rate = rates[i];
            proof {
                let t = rates@.take(i + 1);
                assert(t.drop_last() =~= rates@.take(i as int));
                assert(t.last() == rate);
            }
            if rate.pps.gt(self.max_syn_pps) {
                r.push(
                    SynFloodSignal {
                        src_ip: rate.src_ip,
                        pps: rate.pps,
                        confidence: ratio_confidence(rate.pps, self.max_syn_pps),
                    },
                );
            }
            i = i + 1;
        }
        proof {
            assert(rates@.take(rates@.len() as int) =~= rates@);
        }
        r
    }
}

/// The signals are the rates above the threshold, in order, and no others: signal `k` comes
/// from the rate at position `at[k]`, and names that rate's address and that rate.
pub proof fn law_signals_are_the_rates_above(max_syn_pps: Binary64, rates: Seq<SynIpRate>) -> (at:
    Seq<int>)
    ensures
        picks(at, rates.len(), |i: int| max_syn_pps.lt_spec(rates[i].pps)),
        syn_signals(max_syn_pps, rates).len() == at.len(),
        forall|k: int|
            0 <= k < at.len() ==> {
                let s = #[trigger] syn_signals(max_syn_pps, rates)[k];
                s.src_ip == rates[at[k]].src_ip && s.pps == rates[at[k]].pps
            },
{
    assert(rates.take(rates.len() as int) =~= rates);
    lemma_signals_upto(max_syn_pps, rates, rates.len())
}

proof fn lemma_signals_upto(max_syn_pps: Binary64, rates: Seq<SynIpRate>, n: nat) -> (at: Seq<int>)
    requires
        n <= rates.len(),
    ensures
        picks(at, n, |i: int| max_syn_pps.lt_spec(rates[i].pps)),
        syn_signals(max_syn_pps, rates.take(n as int)).len() == at.len(),
        forall|k: int|
            0 <= k < at.len() ==> {
                let s = #[trigger] syn_signals(max_syn_pps, rates.take(n as int))[k];
                &&& s.src_ip == rates[at[k]].src_ip
                &&& s.pps == rates[at[k]].pps
                &&& s.confidence == ratio_confidence_spec(rates[at[k]].pps, max_syn_pps)
            },
    decreases n,
{
    let keep = |i: int| max_syn_pps.lt_spec(rates[i].pps);
    if n == 0 {
        lemma_picks_none(keep);
        Seq::empty()
    } else {
        let m = (n - 1) as nat;
        let before = lemma_signals_upto(max_syn_pps, rates, m);
        lemma_picks_step(before, m, keep);
        assert(rates.take(n as int).drop_last() =~= rates.take(m as int));
        if keep(m as int) {
            before.push(m as int)
        } else {
            before
        }
    }
}

/// Every signal carries the address and the rate of one of the given rates, and that rate is
/// above the threshold.
pub proof fn law_signal_names_a_rate_above(
    max_syn_pps: Binary64,
    rates: Seq<SynIpRate>,
    k: int,
) -> (i: int)
    requires
        0 <= k < syn_signals(max_syn_pps, rates).len(),
    ensures
        0 <= i < rates.len(),
        syn_signals(max_syn_pps, rates)[k].src_ip == rates[i].src_ip,
        syn_signals(max_syn_pps, rates)[k].pps == rates[i].pps,
        max_syn_pps.lt_spec(rates[i].pps),
{
    let at = law_signals_are_the_rates_above(max_syn_pps, rates);
    let keep = |i: int| max_syn_pps.lt_spec(rates[i].pps);
    assert(keep(at[k]));
    let s = syn_signals(max_syn_pps, rates)[k];
    at[k]
}

/// Every rate above the threshold has a signal with its address and with that rate.
pub proof fn law_rate_above_is_signalled(
    max_syn_pps: Binary64,
    rates: Seq<SynIpRate>,
    i: int,
) -> (k: int)
    requires
        0 <= i < rates.len(),
        max_syn_pps.lt_spec(rates[i].pps),
    ensures
        0 <= k < syn_signals(max_syn_pps, rates).len(),
        syn_signals(max_syn_pps, rates)[k].src_ip == rates[i].src_ip,
        syn_signals(max_syn_pps, rates)[k].pps == rates[i].pps,
{
    let at = law_signals_are_the_rates_above(max_syn_pps, rates);
    let keep = |i: int| max_syn_pps.lt_spec(rates[i].pps);
    assert(keep(i));
    let k = choose|k: int| 0 <= k < at.len() && at[k] == i;
    let s = syn_signals(max_syn_pps, rates)[k];
    k
}

/// How sure a signal is grows with its rate: it is 1 from twice the threshold on, and
/// otherwise at least `c - 1` where the rate is at least `c` thresholds, at most `c - 1`
/// where it is at most that.
pub proof fn law_confidence_grows_with_the_rate(
    max_syn_pps: Binary64,
    rates: Seq<SynIpRate>,
    k: int,
    c: Binary64,
)
    requires
        max_syn_pps.finite() && max_syn_pps.rank() > 0,
        0 <= k < syn_signals(max_syn_pps, rates).len(),
        syn_signals(max_syn_pps, rates)[k].pps.finite(),
        c.finite() && Binary64::one().le_spec(c) && c.le_spec(Binary64::two()),
    ensures
        ({
            let s = syn_signals(max_syn_pps, rates)[k];
            &&& s.pps.value() >= 2 * max_syn_pps.value() ==> s.confidence == Binary64::one()
            &&& s.pps.value() * pow2(1074) >= c.value() * max_syn_pps.value() ==> c.minus_spec(
                Binary64::one(),
            ).le_spec(s.confidence)
            &&& s.pps.value() * pow2(1074) <= c.value() * max_syn_pps.value()
                ==> s.confidence.le_spec(c.minus_spec(Binary64::one()))
        }),
{
    assert(rates.take(rates.len() as int) =~= rates);
    let at = lemma_signals_upto(max_syn_pps, rates, rates.len());
    let s = syn_signals(max_syn_pps, rates)[k];
    let keep = |i: int| max_syn_pps.lt_spec(rates[i].pps);
    assert(keep(at[k]));
    law_ratio_confidence_ends(s.pps, max_syn_pps);
    law_ratio_confidence_against(s.pps, max_syn_pps, c);
}

} // verus!
