//! Ports touched per source address, against a threshold.
use vstd::arithmetic::power2::pow2;
use vstd::prelude::*;

use crate::alert::model::PortScanSignal;
use crate::anomaly::{
    law_ratio_confidence_against, law_ratio_confidence_ends, ratio_confidence, ratio_confidence_spec,
};
use crate::binary64::laws::{law_from_u64_is_finite, law_from_u64_sign};
use crate::binary64::Binary64;
use crate::rate::model::PortScanIpBreadth;
use crate::sublist::{lemma_picks_none, lemma_picks_step, picks};

verus! {

/// The signal, if any, for one address.
pub open spec fn scan_signal(max_distinct_ports: u32, breadth: PortScanIpBreadth) -> Option<
    PortScanSignal,
> {
    if breadth.distinct_ports > max_distinct_ports {
        Some(
            PortScanSignal {
                src_ip: breadth.src_ip,
                distinct_ports: breadth.distinct_ports,
                confidence: ratio_confidence_spec(
                    Binary64::from_u64_spec(breadth.distinct_ports as u64),
                    Binary64::from_u64_spec(max_distinct_ports as u64),
                ),
            },
        )
    } else {
        None
    }
}

/// The signals for `breadths`, in order.
pub open spec fn scan_signals(
    max_distinct_ports: u32,
    breadths: Seq<PortScanIpBreadth>,
) -> Seq<PortScanSignal>
    decreases breadths.len(),
{
    if breadths.len() == 0 {
        Seq::empty()
    } else {
        let before = scan_signals(max_distinct_ports, breadths.drop_last());
        match scan_signal(max_distinct_ports, breadths.last()) {
            Some(s) => before.push(s),
            None => before,
        }
    }
}

/// Signals every source address that touches more distinct ports than a threshold.
#[derive(Debug, Clone, Copy)]
pub struct PortScanDetector {
    pub max_distinct_ports: u32,
    pub top_n: usize,
    pub window_ns: u64,
}

impl PortScanDetector {
    /// A detector with the given threshold, for the `top_n` broadest addresses and the ports
    /// they touched in the last `window_ns` nanoseconds.
    pub fn new(max_distinct_ports: u32, top_n: usize, window_ns: u64) -> (r: Self)
        ensures
            r == (PortScanDetector { max_distinct_ports, top_n, window_ns }),
    {
        PortScanDetector { max_distinct_ports, top_n, window_ns }
    }

    /// Number of addresses to look at.
    pub fn top_n(&self) -> (r: usize)
        ensures
            r == self.top_n,
    {
        self.top_n
    }

    /// Length of the window, in nanoseconds.
    pub fn window_ns(&self) -> (r: u64)
        ensures
            r == self.window_ns,
    {
        self.window_ns
    }

    /// The addresses above the threshold.
    pub fn detect(&self, breadths: &[PortScanIpBreadth]) -> (r: Vec<PortScanSignal>)
        ensures
            r@ == scan_signals(self.max_distinct_ports, breadths@),
    {
        let mut r: Vec<PortScanSignal> = Vec::new();
        let mut i: usize = 0;
        proof {
            assert(breadths@.take(0).len() == 0);
        }
        while i < breadths.len()
            invariant
                i <= breadths@.len(),
                r@ == scan_signals(self.max_distinct_ports, breadths@.take(i as int)),
            decreases breadths@.len() - i,
        {
            let b = breadths[i];
            proof {
                let t = breadths@.take(i + 1);
                assert(t.drop_last() =~= breadths@.take(i as int));
                assert(t.last() == b);
            }
            if b.distinct_ports > self.max_distinct_ports {
                r.push(
                    PortScanSignal {
                        src_ip: b.src_ip,
                        distinct_ports: b.distinct_ports,
                        confidence: ratio_confidence(
                            Binary64::from_u64(b.distinct_ports as u64),
                            Binary64::from_u64(self.max_distinct_ports as u64),
                        ),
                    },
                );
            }
            i = i + 1;
        }
        proof {
            assert(breadths@.take(breadths@.len() as int) =~= breadths@);
        }
        r
    }
}

/// The signals are the addresses that touch more ports than the threshold, in order, and no
/// others: signal `k` comes from the entry at position `at[k]`, and names that entry's
/// address and number of ports.
pub proof fn law_signals_are_the_breadths_above(
    max_distinct_ports: u32,
    breadths: Seq<PortScanIpBreadth>,
) -> (at: Seq<int>)
    ensures
        picks(at, breadths.len(), |i: int| breadths[i].distinct_ports > max_distinct_ports),
        scan_signals(max_distinct_ports, breadths).len() == at.len(),
        forall|k: int|
            0 <= k < at.len() ==> {
                let s = #[trigger] scan_signals(max_distinct_ports, breadths)[k];
                s.src_ip == breadths[at[k]].src_ip && s.distinct_ports
                    == breadths[at[k]].distinct_ports
            },
{
    assert(breadths.take(breadths.len() as int) =~= breadths);
    lemma_signals_upto(max_distinct_ports, breadths, breadths.len())
}

proof fn lemma_signals_upto(
    max_distinct_ports: u32,
    breadths: Seq<PortScanIpBreadth>,
    n: nat,
) -> (at: Seq<int>)
    requires
        n <= breadths.len(),
    ensures
        picks(at, n, |i: int| breadths[i].distinct_ports > max_distinct_ports),
        scan_signals(max_distinct_ports, breadths.take(n as int)).len() == at.len(),
        forall|k: int|
            0 <= k < at.len() ==> {
                let s = #[trigger] scan_signals(max_distinct_ports, breadths.take(n as int))[k];
                let b = breadths[at[k]];
                &&& s.src_ip == b.src_ip
                &&& s.distinct_ports == b.distinct_ports
                &&& s.confidence == ratio_confidence_spec(
                    Binary64::from_u64_spec(b.distinct_ports as u64),
                    Binary64::from_u64_spec(max_distinct_ports as u64),
                )
            },
    decreases n,
{
    let keep = |i: int| breadths[i].distinct_ports > max_distinct_ports;
    if n == 0 {
        lemma_picks_none(keep);
        Seq::empty()
    } else {
        let m = (n - 1) as nat;
        let before = lemma_signals_upto(max_distinct_ports, breadths, m);
        lemma_picks_step(before, m, keep);
        assert(breadths.take(n as int).drop_last() =~= breadths.take(m as int));
        if keep(m as int) {
            before.push(m as int)
        } else {
            before
        }
    }
}

/// How sure a signal is grows with the number of ports: it is 1 from twice the threshold on,
/// and otherwise at least `c - 1` where the ports are at least `c` thresholds, at most `c - 1`
/// where they are at most that.
pub proof fn law_confidence_grows_with_the_ports(
    max_distinct_ports: u32,
    breadths: Seq<PortScanIpBreadth>,
    k: int,
    c: Binary64,
)
    requires
        max_distinct_ports > 0,
        0 <= k < scan_signals(max_distinct_ports, breadths).len(),
        c.finite() && Binary64::one().le_spec(c) && c.le_spec(Binary64::two()),
    ensures
        ({
            let s = scan_signals(max_distinct_ports, breadths)[k];
            let seen = Binary64::from_u64_spec(s.distinct_ports as u64).value();
            let most = Binary64::from_u64_spec(max_distinct_ports as u64).value();
            &&& seen >= 2 * most ==> s.confidence == Binary64::one()
            &&& seen * pow2(1074) >= c.value() * most ==> c.minus_spec(Binary64::one()).le_spec(
                s.confidence,
            )
            &&& seen * pow2(1074) <= c.value() * most ==> s.confidence.le_spec(
                c.minus_spec(Binary64::one()),
            )
        }),
{
    assert(breadths.take(breadths.len() as int) =~= breadths);
    let at = lemma_signals_upto(max_distinct_ports, breadths, breadths.len());
    let s = scan_signals(max_distinct_ports, breadths)[k];
    let seen = Binary64::from_u64_spec(s.distinct_ports as u64);
    let most = Binary64::from_u64_spec(max_distinct_ports as u64);
    law_from_u64_sign(s.distinct_ports as u64);
    law_from_u64_sign(max_distinct_ports as u64);
    law_from_u64_is_finite(s.distinct_ports as u64);
    law_from_u64_is_finite(max_distinct_ports as u64);
    law_ratio_confidence_ends(seen, most);
    law_ratio_confidence_against(seen, most, c);
}

} // verus!
