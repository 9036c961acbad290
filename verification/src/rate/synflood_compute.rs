//! SYN rates per source address.
use vstd::arithmetic::power2::{lemma2_to64, lemma_pow2_adds, lemma_pow2_pos, pow2};
use vstd::prelude::*;
use vstd::seq_lib::*;
use vstd::std_specs::hash::group_hash_axioms;

use crate::binary64::bounds::law_quotient_against;
use crate::binary64::constants::law_whole_constants;
use crate::binary64::laws::{law_from_u64_is_finite, law_from_u64_sign, law_zero_over};
use crate::binary64::order::law_order_is_numeric;
use crate::binary64::rounding::lemma_units_order;
use crate::binary64::{units, Binary64};
use crate::common::{ProtoStats, SynCounter};
use crate::rate::compute::{cpu_bytes, cpu_packets, sum_over_cpus};
use crate::rate::model::{SynCountersSnapshot, SynIpRate};
use crate::rate::ranking::{entries, is_ranking, lists, ranks_before, top_n};
use crate::rate::{counter_delta, dt_secs, dt_secs_spec, rate, rate_spec};

verus! {

/// SYN packets per second of `ip`, counted from zero where it was not known before.
pub open spec fn syn_pps(
    prev: Map<u32, SynCounter>,
    curr: Map<u32, SynCounter>,
    dt: Binary64,
    ip: u32,
) -> Binary64 {
    let before = if prev.contains_key(ip) {
        prev[ip].packets
    } else {
        0
    };
    rate_spec(curr[ip].packets, before, dt)
}

/// The addresses that sent SYN packets between two snapshots, and how fast.
pub open spec fn syn_senders(
    prev: Map<u32, SynCounter>,
    curr: Map<u32, SynCounter>,
    dt: Binary64,
) -> Map<u32, Binary64> {
    Map::new(
        |ip: u32| curr.contains_key(ip) && Binary64::zero().lt_spec(syn_pps(prev, curr, dt, ip)),
        |ip: u32| syn_pps(prev, curr, dt, ip),
    )
}

/// Whether `r` lists `ip`.
pub open spec fn rates_list(r: Seq<SynIpRate>, ip: u32) -> bool {
    exists|i: int| 0 <= i < r.len() && (#[trigger] r[i]).src_ip == ip
}

/// Whether `r` lists the `n` fastest of `senders` with their rates, fastest first, each once.
/// Which of several equally fast senders come in is left open.
pub open spec fn is_top_rates(r: Seq<SynIpRate>, senders: Map<u32, Binary64>, n: nat) -> bool {
    &&& r.len() == (if n < senders.dom().len() {
        n
    } else {
        senders.dom().len()
    })
    &&& forall|i: int|
        0 <= i < r.len() ==> senders.contains_key((#[trigger] r[i]).src_ip)
            && senders[r[i].src_ip] == r[i].pps
    &&& forall|i: int, j: int|
        0 <= i < j < r.len() ==> (#[trigger] r[i]).src_ip != (#[trigger] r[j]).src_ip
            && r[j].pps.le_spec(r[i].pps)
    &&& forall|i: int, ip: u32|
        0 <= i < r.len() && #[trigger] senders.contains_key(ip) && !rates_list(r, ip)
            ==> senders[ip].le_spec((#[trigger] r[i]).pps)
}

/// The `top_n` source addresses that sent the most SYN packets per second between two
/// snapshots, fastest first.
///
/// An address that only the later snapshot knows is counted from zero, so that the first tick
/// of a flood is not missed; one that only the earlier snapshot knows is left out.
pub fn compute_syn_rates_top_n(
    prev: &SynCountersSnapshot,
    curr: &SynCountersSnapshot,
    n: usize,
) -> (r: Vec<SynIpRate>)
    ensures
        match dt_secs_spec(prev.timestamp, curr.timestamp) {
            Some(dt) => is_top_rates(
                r@,
                syn_senders(prev.counters@, curr.counters@, dt),
                n as nat,
            ),
            None => r@.len() == 0,
        },
{
    broadcast use group_hash_axioms;

    let dt: Binary64 = match dt_secs(prev.timestamp, curr.timestamp) {
        Some(dt) => dt,
        None => {
            return Vec::new();
        },
    };
    let all: Vec<(u32, SynCounter)> = entries(&curr.counters);
    let mut pool: Vec<SynIpRate> = Vec::new();
    let mut keys: Vec<u64> = Vec::new();
    let mut i: usize = 0;
    let ghost senders = syn_senders(prev.counters@, curr.counters@, dt);
    while i < all.len()
        invariant
            i <= all@.len(),
            lists(all@, curr.counters@),
            senders == syn_senders(prev.counters@, curr.counters@, dt),
            pools(pool@, keys@, senders, all@, i as int),
        decreases all@.len() - i,
    {
        broadcast use group_hash_axioms;

        let (ip, counter) = all[i];
        let before: u64 = match prev.counters.get(&ip) {
            Some(p) => p.packets,
            None => 0,
        };
        let pps: Binary64 = rate(counter.packets, before, dt);
        let ghost old_pool = pool@;
        let ghost old_keys = keys@;
        assert(pps == syn_pps(prev.counters@, curr.counters@, dt, ip));
        assert(all@[i as int].0 == ip);
        if Binary64::zero().lt(pps) {
            pool.push(SynIpRate { src_ip: ip, pps });
            keys.push(pps.to_bits());
        }
        proof {
            lemma_pools_step(old_pool, old_keys, pool@, keys@, senders, all@, i as int, pps);
        }
        i = i + 1;
    }
    let picks: Vec<usize> = top_n(&keys, n);
    let mut r: Vec<SynIpRate> = Vec::new();
    let mut k: usize = 0;
    while k < picks.len()
        invariant
            k <= picks@.len(),
            is_ranking(picks@, keys@, n as nat),
            keys@.len() == pool@.len(),
            r@.len() == k,
            forall|m: int| 0 <= m < k ==> #[trigger] r@[m] == pool@[picks@[m] as int],
        decreases picks@.len() - k,
    {
        r.push(pool[picks[k]]);
        k = k + 1;
    }
    proof {
        assert(keys.len() == keys@.len());
        lemma_picks_are_top(r@, picks@, pool@, keys@, senders, all@, curr.counters@, n as nat);
    }
    r
}

/// Whether `pool` holds the senders among the first `n` of `all`, and `keys` their rates' bits.
spec fn pools(
    pool: Seq<SynIpRate>,
    keys: Seq<u64>,
    senders: Map<u32, Binary64>,
    all: Seq<(u32, SynCounter)>,
    n: int,
) -> bool {
    &&& pool.len() == keys.len()
    &&& forall|k: int|
        0 <= k < pool.len() ==> senders.contains_key((#[trigger] pool[k]).src_ip)
            && senders[pool[k].src_ip] == pool[k].pps && keys[k] == pool[k].pps.bits
    &&& forall|k: int|
        0 <= k < pool.len() ==> exists|j: int|
            0 <= j < n && (#[trigger] all[j]).0 == (#[trigger] pool[k]).src_ip
    &&& forall|a: int, b: int|
        0 <= a < b < pool.len() ==> (#[trigger] pool[a]).src_ip != (#[trigger] pool[b]).src_ip
    &&& forall|j: int|
        0 <= j < n && senders.contains_key((#[trigger] all[j]).0) ==> rates_list(pool, all[j].0)
}

proof fn lemma_pools_step(
    old_pool: Seq<SynIpRate>,
    old_keys: Seq<u64>,
    pool: Seq<SynIpRate>,
    keys: Seq<u64>,
    senders: Map<u32, Binary64>,
    all: Seq<(u32, SynCounter)>,
    n: int,
    pps: Binary64,
)
    requires
        0 <= n < all.len(),
        forall|i: int, j: int|
            0 <= i < j < all.len() ==> (#[trigger] all[i]).0 != (#[trigger] all[j]).0,
        pools(old_pool, old_keys, senders, all, n),
        senders.contains_key(all[n].0) <==> Binary64::zero().lt_spec(pps),
        senders.contains_key(all[n].0) ==> senders[all[n].0] == pps,
        if Binary64::zero().lt_spec(pps) {
            pool == old_pool.push(SynIpRate { src_ip: all[n].0, pps }) && keys == old_keys.push(
                pps.bits,
            )
        } else {
            pool == old_pool && keys == old_keys
        },
    ensures
        pools(pool, keys, senders, all, n + 1),
{
    let ip = all[n].0;
    assert forall|k: int| 0 <= k < pool.len() implies exists|j: int|
        0 <= j < n + 1 && (#[trigger] all[j]).0 == (#[trigger] pool[k]).src_ip by {
        if k < old_pool.len() {
            assert(pool[k] == old_pool[k]);
            let j = choose|j: int| 0 <= j < n && (#[trigger] all[j]).0 == old_pool[k].src_ip;
            assert(all[j].0 == pool[k].src_ip);
        } else {
            assert(all[n].0 == pool[k].src_ip);
        }
    }
    assert forall|a: int, b: int| 0 <= a < b < pool.len() implies (#[trigger] pool[a]).src_ip != (
    #[trigger] pool[b]).src_ip by {
        assert(pool[a] == old_pool[a]);
        if b < old_pool.len() {
            assert(pool[b] == old_pool[b]);
        } else {
            let j = choose|j: int| 0 <= j < n && (#[trigger] all[j]).0 == old_pool[a].src_ip;
            assert(all[j].0 != all[n].0);
        }
    }
    assert forall|j: int|
        0 <= j < n + 1 && senders.contains_key((#[trigger] all[j]).0) implies rates_list(
        pool,
        all[j].0,
    ) by {
        if j < n {
            let k = choose|k: int|
                0 <= k < old_pool.len() && (#[trigger] old_pool[k]).src_ip == all[j].0;
            assert(pool[k].src_ip == all[j].0);
        } else {
            assert(pool[old_pool.len() as int].src_ip == ip);
        }
    }
}

/// The addresses of `r`.
spec fn rate_ips(r: Seq<SynIpRate>) -> Seq<u32> {
    Seq::new(r.len(), |i: int| r[i].src_ip)
}

proof fn lemma_picks_are_top(
    r: Seq<SynIpRate>,
    picks: Seq<usize>,
    pool: Seq<SynIpRate>,
    keys: Seq<u64>,
    senders: Map<u32, Binary64>,
    all: Seq<(u32, SynCounter)>,
    counters: Map<u32, SynCounter>,
    n: nat,
)
    requires
        keys.len() <= usize::MAX,
        is_ranking(picks, keys, n),
        pools(pool, keys, senders, all, all.len() as int),
        lists(all, counters),
        forall|ip: u32| #[trigger] senders.contains_key(ip) ==> counters.contains_key(ip),
        forall|ip: u32| #[trigger]
            senders.contains_key(ip) ==> Binary64::zero().lt_spec(senders[ip]),
        r.len() == picks.len(),
        forall|m: int| 0 <= m < r.len() ==> #[trigger] r[m] == pool[picks[m] as int],
    ensures
        is_top_rates(r, senders, n),
{
    // The pool holds every sender, once.
    let ips = rate_ips(pool);
    assert(ips.no_duplicates());
    assert(ips.to_set() =~= senders.dom()) by {
        assert forall|ip: u32| #[trigger] ips.to_set().contains(ip) <==> senders.contains_key(
            ip,
        ) by {
            if ips.to_set().contains(ip) {
                let k = choose|k: int| 0 <= k < ips.len() && ips[k] == ip;
                assert(pool[k].src_ip == ip);
            }
            if senders.contains_key(ip) {
                let j = choose|j: int| 0 <= j < all.len() && (#[trigger] all[j]).0 == ip;
                assert(rates_list(pool, all[j].0));
                let k = choose|k: int| 0 <= k < pool.len() && (#[trigger] pool[k]).src_ip == ip;
                assert(ips[k] == ip);
            }
        }
    }
    ips.unique_seq_to_set();
    assert forall|m: int| 0 <= m < r.len() implies senders.contains_key((#[trigger] r[m]).src_ip)
        && senders[r[m].src_ip] == r[m].pps by {
        assert(picks[m] < keys.len());
    }
    assert forall|i: int, j: int| 0 <= i < j < r.len() implies (#[trigger] r[i]).src_ip != (
    #[trigger] r[j]).src_ip && r[j].pps.le_spec(r[i].pps) by {
        let a = picks[i] as int;
        let b = picks[j] as int;
        assert(ranks_before(keys, a, b));
        assert(pool[a].src_ip != pool[b].src_ip);
    }
    assert forall|i: int, ip: u32|
        0 <= i < r.len() && #[trigger] senders.contains_key(ip) && !rates_list(
            r,
            ip,
        ) implies senders[ip].le_spec((#[trigger] r[i]).pps) by {
        assert(ips.to_set().contains(ip));
        let k = choose|k: int| 0 <= k < ips.len() && ips[k] == ip;
        assert(pool[k].src_ip == ip);
        let a = picks[i] as int;
        assert(a < keys.len());
        if picks.contains(k as usize) {
            let m = choose|m: int| 0 <= m < picks.len() && picks[m] == k as usize;
            assert(r[m] == pool[k]);
            assert(rates_list(r, ip));
        } else {
            assert(ranks_before(keys, a, k));
        }
    }
}

/// The SYN counters of one address over all CPUs; `None` if a sum is too large to count.
pub fn sum_syn_over_cpus(values: &[SynCounter]) -> (r: Option<SynCounter>)
    ensures
        ({
            let plain = Seq::new(
                values@.len(),
                |i: int| ProtoStats { packets: values@[i].packets, bytes: values@[i].bytes },
            );
            match r {
                Some(c) => c.packets == cpu_packets(plain) && c.bytes == cpu_bytes(plain),
                None => cpu_packets(plain) > u64::MAX || cpu_bytes(plain) > u64::MAX,
            }
        }),
{
    let mut plain: Vec<ProtoStats> = Vec::new();
    let mut i: usize = 0;
    while i < values.len()
        invariant
            i <= values@.len(),
            plain@.len() == i,
            forall|k: int|
                0 <= k < i ==> #[trigger] plain@[k] == (ProtoStats {
                    packets: values@[k].packets,
                    bytes: values@[k].bytes,
                }),
        decreases values@.len() - i,
    {
        plain.push(ProtoStats { packets: values[i].packets, bytes: values[i].bytes });
        i = i + 1;
    }
    proof {
        assert(plain@ =~= Seq::new(
            values@.len(),
            |i: int| ProtoStats { packets: values@[i].packets, bytes: values@[i].bytes },
        ));
    }
    match sum_over_cpus(plain.as_slice()) {
        Some(c) => Some(SynCounter { packets: c.packets, bytes: c.bytes }),
        None => None,
    }
}

/// Who has sent SYN packets: an address that the later reading knows and whose counter has
/// moved on since the earlier one, counted from 0 where that does not know it. Its rate is
/// what the counter moved by, per second.
pub proof fn law_senders_are_the_counters_that_moved(
    prev: Map<u32, SynCounter>,
    curr: Map<u32, SynCounter>,
    dt: Binary64,
    ip: u32,
)
    requires
        dt.finite() && dt.rank() > 0,
        dt.value() <= 0x20_0000_0000_0000 * pow2(1074),
    ensures
        ({
            let before = if prev.contains_key(ip) {
                prev[ip].packets
            } else {
                0
            };
            let senders = syn_senders(prev, curr, dt);
            &&& senders.contains_key(ip) <==> curr.contains_key(ip) && curr[ip].packets > before
            &&& senders.contains_key(ip) ==> senders[ip] == rate_spec(
                curr[ip].packets,
                before,
                dt,
            )
        }),
{
    let before = if prev.contains_key(ip) {
        prev[ip].packets
    } else {
        0
    };
    law_from_u64_sign(0);
    if curr[ip].packets > before {
        let n = counter_delta(curr[ip].packets, before);
        let a = Binary64::from_u64_spec(n);
        law_from_u64_sign(n);
        law_from_u64_is_finite(n);
        law_whole_constants();
        law_order_is_numeric(Binary64::one(), a);
        let least = Binary64 { bits: 1 };
        lemma_units_order(0, 1);
        assert(units(1) == 1);
        assert(least.value() == 1);
        lemma2_to64();
        lemma_pow2_adds(32, 21);
        lemma_pow2_adds(53, 1021);
        lemma_pow2_pos(1021);
        let p = pow2(1074) as int;
        assert(p >= 0x20_0000_0000_0000) by (nonlinear_arith)
            requires
                p == pow2(53) * pow2(1021),
                pow2(53) == 0x20_0000_0000_0000,
                pow2(1021) >= 1,
        ;
        assert(a.value() * p >= least.value() * dt.value()) by (nonlinear_arith)
            requires
                a.value() >= p,
                least.value() == 1,
                dt.value() <= 0x20_0000_0000_0000 * p,
                p >= 0x20_0000_0000_0000,
        ;
        law_quotient_against(a, dt, least);
    } else {
        law_zero_over(dt);
    }
}

/// What a list of the `n` fastest senders is: at most `n` entries, all senders where there are
/// no more; each entry a sender with its rate, none twice; no entry slower than a later one;
/// and no sender that is left out faster than any entry.
pub proof fn law_top_senders_are_the_fastest(
    r: Seq<SynIpRate>,
    senders: Map<u32, Binary64>,
    n: nat,
    i: int,
    j: int,
    ip: u32,
)
    requires
        is_top_rates(r, senders, n),
        0 <= i <= j < r.len(),
    ensures
        r.len() <= n,
        r.len() <= senders.dom().len(),
        r.len() == n || r.len() == senders.dom().len(),
        senders.contains_key(r[i].src_ip) && senders[r[i].src_ip] == r[i].pps,
        i < j ==> r[i].src_ip != r[j].src_ip && r[j].pps.le_spec(r[i].pps),
        senders.contains_key(ip) ==> senders[ip].le_spec(r[i].pps) || exists|k: int|
            0 <= k < r.len() && (#[trigger] r[k]).src_ip == ip,
{
    if senders.contains_key(ip) && !rates_list(r, ip) {
        assert(senders[ip].le_spec(r[i].pps));
    }
}

} // verus!
