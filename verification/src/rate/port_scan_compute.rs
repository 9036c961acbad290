//! How many ports each source address has touched of late.
use std::collections::HashMap;

use vstd::prelude::*;
use vstd::seq_lib::*;
use vstd::set_lib::*;
use vstd::std_specs::hash::group_hash_axioms;

use crate::common::PortTouch;
use crate::rate::model::{
    code_addr, code_port, is_code, law_pair_code_round_trip, pair_code, PortScanCountersSnapshot,
    PortScanIpBreadth, PORTS,
};
use crate::rate::ranking::{entries, is_ranking, lists, ranks_before, top_n};

verus! {

/// Whether a touch lies at most `window_ns` back.
pub open spec fn is_recent(touch: PortTouch, now_ns: u64, window_ns: u64) -> bool {
    now_ns - touch.last_seen_ns <= window_ns
}

/// The ports that `ip` has touched within the window.
pub open spec fn touched_ports(
    touches: Map<u64, PortTouch>,
    now_ns: u64,
    window_ns: u64,
    ip: u32,
) -> Set<u16> {
    Set::new(
        |port: u16|
            touches.contains_key(pair_code(ip, port)) && is_recent(
                touches[pair_code(ip, port)],
                now_ns,
                window_ns,
            ),
    )
}

/// The addresses that have touched a port within the window, and how many ports.
pub open spec fn scanners(
    touches: Map<u64, PortTouch>,
    now_ns: u64,
    window_ns: u64,
) -> Map<u32, nat> {
    Map::new(
        |ip: u32| touched_ports(touches, now_ns, window_ns, ip).len() > 0,
        |ip: u32| touched_ports(touches, now_ns, window_ns, ip).len(),
    )
}

/// Whether `r` lists `ip`.
pub open spec fn breadths_list(r: Seq<PortScanIpBreadth>, ip: u32) -> bool {
    exists|i: int| 0 <= i < r.len() && (#[trigger] r[i]).src_ip == ip
}

/// Whether `r` lists the `n` broadest of `scanners` with their number of ports, broadest first,
/// each once. Which of several equally broad scanners come in is left open.
pub open spec fn is_top_breadths(
    r: Seq<PortScanIpBreadth>,
    scanners: Map<u32, nat>,
    n: nat,
) -> bool {
    &&& r.len() == (if n < scanners.dom().len() {
        n
    } else {
        scanners.dom().len()
    })
    &&& forall|i: int|
        0 <= i < r.len() ==> scanners.contains_key((#[trigger] r[i]).src_ip)
            && scanners[r[i].src_ip] == r[i].distinct_ports
    &&& forall|i: int, j: int|
        0 <= i < j < r.len() ==> (#[trigger] r[i]).src_ip != (#[trigger] r[j]).src_ip
            && r[j].distinct_ports <= r[i].distinct_ports
    &&& forall|i: int, ip: u32|
        0 <= i < r.len() && #[trigger] scanners.contains_key(ip) && !breadths_list(r, ip)
            ==> scanners[ip] <= (#[trigger] r[i]).distinct_ports
}

/// The ports of `ip` among the recent ones of the first `n` entries.
spec fn seen_ports(
    all: Seq<(u64, PortTouch)>,
    now_ns: u64,
    window_ns: u64,
    ip: u32,
    n: nat,
) -> Set<u16>
    decreases n,
{
    if n == 0 {
        Set::empty()
    } else {
        let before = seen_ports(all, now_ns, window_ns, ip, (n - 1) as nat);
        let (code, touch) = all[n - 1];
        if code_addr(code) == ip && is_recent(touch, now_ns, window_ns) {
            before.insert(code_port(code))
        } else {
            before
        }
    }
}

/// A port is seen exactly if its entry is there and recent.
proof fn lemma_seen_ports(
    all: Seq<(u64, PortTouch)>,
    now_ns: u64,
    window_ns: u64,
    ip: u32,
    n: nat,
)
    requires
        n <= all.len(),
        forall|i: int| 0 <= i < all.len() ==> is_code((#[trigger] all[i]).0),
    ensures
        seen_ports(all, now_ns, window_ns, ip, n).finite(),
        forall|port: u16| #[trigger]
            seen_ports(all, now_ns, window_ns, ip, n).contains(port) <==> exists|i: int|
                0 <= i < n && (#[trigger] all[i]).0 == pair_code(ip, port) && is_recent(
                    all[i].1,
                    now_ns,
                    window_ns,
                ),
    decreases n,
{
    if n > 0 {
        let m = (n - 1) as nat;
        lemma_seen_ports(all, now_ns, window_ns, ip, m);
        let (code, touch) = all[m as int];
        assert(is_code(all[m as int].0));
        law_pair_code_round_trip(ip, 0, code);
        assert forall|port: u16| #[trigger]
            seen_ports(all, now_ns, window_ns, ip, n).contains(port) <==> exists|i: int|
                0 <= i < n && (#[trigger] all[i]).0 == pair_code(ip, port) && is_recent(
                    all[i].1,
                    now_ns,
                    window_ns,
                ) by {
            law_pair_code_round_trip(ip, port, code);
            let before = seen_ports(all, now_ns, window_ns, ip, m);
            if before.contains(port) {
                let i = choose|i: int|
                    0 <= i < m && (#[trigger] all[i]).0 == pair_code(ip, port) && is_recent(
                        all[i].1,
                        now_ns,
                        window_ns,
                    );
                assert(all[i].0 == pair_code(ip, port));
            }
            if seen_ports(all, now_ns, window_ns, ip, n).contains(port) && !before.contains(port) {
                assert(all[m as int].0 == pair_code(ip, port));
            }
        }
    }
}

/// There are `n` ports below `n`.
proof fn lemma_ports_below(n: nat)
    requires
        n <= 65536,
    ensures
        Set::new(|p: u16| p < n).finite(),
        Set::new(|p: u16| p < n).len() == n,
    decreases n,
{
    let all = Set::new(|p: u16| p < n);
    if n == 0 {
        assert(all =~= Set::empty());
    } else {
        let m = (n - 1) as nat;
        lemma_ports_below(m);
        assert(all =~= Set::new(|p: u16| p < m).insert(m as u16));
    }
}

/// There are no more ports than port numbers.
proof fn lemma_few_ports(s: Set<u16>)
    requires
        s.finite(),
    ensures
        s.len() <= 65536,
{
    lemma_ports_below(65536);
    lemma_len_subset(s, Set::new(|p: u16| p < 65536));
}

/// The `n` source addresses that have touched the most distinct ports within `window_ns` of
/// the snapshot, broadest first.
pub fn compute_port_scan_breadth(
    snapshot: &PortScanCountersSnapshot,
    window_ns: u64,
    n: usize,
) -> (r: Vec<PortScanIpBreadth>)
    ensures
        is_top_breadths(
            r@,
            scanners(snapshot.touch_map(), snapshot.now(), window_ns),
            n as nat,
        ),
{
    broadcast use group_hash_axioms;

    let now_ns: u64 = snapshot.now_ns();
    let all: Vec<(u64, PortTouch)> = snapshot.entries();
    let counts: HashMap<u32, u32> = count_ports(&all, now_ns, window_ns);
    let pool: Vec<(u32, u32)> = entries(&counts);
    let mut keys: Vec<u64> = Vec::new();
    let mut i: usize = 0;
    while i < pool.len()
        invariant
            i <= pool@.len(),
            keys@.len() == i,
            forall|k: int| 0 <= k < i ==> #[trigger] keys@[k] == pool@[k].1,
        decreases pool@.len() - i,
    {
        keys.push(pool[i].1 as u64);
        i = i + 1;
    }
    let picks: Vec<usize> = top_n(&keys, n);
    let mut r: Vec<PortScanIpBreadth> = Vec::new();
    let mut k: usize = 0;
    while k < picks.len()
        invariant
            k <= picks@.len(),
            is_ranking(picks@, keys@, n as nat),
            keys@.len() == pool@.len(),
            r@.len() == k,
            forall|m: int|
                0 <= m < k ==> #[trigger] r@[m] == (PortScanIpBreadth {
                    src_ip: pool@[picks@[m] as int].0,
                    distinct_ports: pool@[picks@[m] as int].1,
                }),
        decreases picks@.len() - k,
    {
        let (ip, ports) = pool[picks[k]];
        r.push(PortScanIpBreadth { src_ip: ip, distinct_ports: ports });
        k = k + 1;
    }
    proof {
        let found = scanners(snapshot.touch_map(), now_ns, window_ns);
        assert(keys.len() == keys@.len());
        assert forall|ip: u32| #[trigger] found.contains_key(ip) <==> counts@.contains_key(
            ip,
        ) by {
            lemma_all_seen(all@, snapshot.touch_map(), now_ns, window_ns, ip);
        }
        assert forall|ip: u32| #[trigger] found.contains_key(ip) implies found[ip]
            == counts@[ip] by {
            lemma_all_seen(all@, snapshot.touch_map(), now_ns, window_ns, ip);
        }
        lemma_picks_are_top(r@, picks@, pool@, keys@, counts@, found, n as nat);
    }
    r
}

/// Once all entries have been seen, the ports seen are the ports touched.
proof fn lemma_all_seen(
    all: Seq<(u64, PortTouch)>,
    touches: Map<u64, PortTouch>,
    now_ns: u64,
    window_ns: u64,
    ip: u32,
)
    requires
        lists(all, touches),
        forall|i: int| 0 <= i < all.len() ==> is_code((#[trigger] all[i]).0),
    ensures
        seen_ports(all, now_ns, window_ns, ip, all.len()) == touched_ports(
            touches,
            now_ns,
            window_ns,
            ip,
        ),
{
    lemma_seen_ports(all, now_ns, window_ns, ip, all.len());
    let seen = seen_ports(all, now_ns, window_ns, ip, all.len());
    let touched = touched_ports(touches, now_ns, window_ns, ip);
    assert forall|port: u16| #[trigger] seen.contains(port) <==> touched.contains(port) by {
        let code = pair_code(ip, port);
        if touches.contains_key(code) {
            let i = choose|i: int| 0 <= i < all.len() && (#[trigger] all[i]).0 == code;
            assert(all[i].1 == touches[code]);
        }
        if seen.contains(port) {
            let i = choose|i: int|
                0 <= i < all.len() && (#[trigger] all[i]).0 == pair_code(ip, port) && is_recent(
                    all[i].1,
                    now_ns,
                    window_ns,
                );
            assert(touches.contains_key(all[i].0));
        }
    }
    assert(seen =~= touched);
}

/// The number of recent ports of each address.
fn count_ports(all: &Vec<(u64, PortTouch)>, now_ns: u64, window_ns: u64) -> (counts: HashMap<
    u32,
    u32,
>)
    requires
        forall|i: int| 0 <= i < all@.len() ==> is_code((#[trigger] all@[i]).0),
        forall|i: int, j: int|
            0 <= i < j < all@.len() ==> (#[trigger] all@[i]).0 != (#[trigger] all@[j]).0,
    ensures
        forall|ip: u32| #[trigger]
            counts@.contains_key(ip) <==> seen_ports(
                all@,
                now_ns,
                window_ns,
                ip,
                all@.len(),
            ).len() > 0,
        forall|ip: u32| #[trigger]
            counts@.contains_key(ip) ==> counts@[ip] == seen_ports(
                all@,
                now_ns,
                window_ns,
                ip,
                all@.len(),
            ).len(),
{
    broadcast use group_hash_axioms;

    let mut counts: HashMap<u32, u32> = HashMap::new();
    let mut i: usize = 0;
    while i < all.len()
        invariant
            i <= all@.len(),
            forall|i: int| 0 <= i < all@.len() ==> is_code((#[trigger] all@[i]).0),
            forall|i: int, j: int|
                0 <= i < j < all@.len() ==> (#[trigger] all@[i]).0 != (#[trigger] all@[j]).0,
            forall|ip: u32| #[trigger]
                counts@.contains_key(ip) <==> seen_ports(
                    all@,
                    now_ns,
                    window_ns,
                    ip,
                    i as nat,
                ).len() > 0,
            forall|ip: u32| #[trigger]
                counts@.contains_key(ip) ==> counts@[ip] == seen_ports(
                    all@,
                    now_ns,
                    window_ns,
                    ip,
                    i as nat,
                ).len(),
        decreases all@.len() - i,
    {
        broadcast use group_hash_axioms;

        let (code, touch) = all[i];
        let ghost before = counts@;
        assert(is_code(all@[i as int].0));
        if now_ns.saturating_sub(touch.last_seen_ns) <= window_ns {
            let ip: u32 = (code / PORTS) as u32;
            let seen: u32 = match counts.get(&ip) {
                Some(c) => *c,
                None => 0,
            };
            proof {
                let ports = seen_ports(all@, now_ns, window_ns, ip, i as nat);
                lemma_seen_ports(all@, now_ns, window_ns, ip, i as nat);
                lemma_few_ports(ports);
                law_pair_code_round_trip(ip, code_port(code), code);
                if ports.contains(code_port(code)) {
                    let k = choose|k: int|
                        0 <= k < i && (#[trigger] all@[k]).0 == pair_code(ip, code_port(code))
                            && is_recent(all@[k].1, now_ns, window_ns);
                    assert(all@[k].0 != all@[i as int].0);
                }
                assert(seen == ports.len());
            }
            counts.insert(ip, seen + 1);
        }
        proof {
            assert forall|ip: u32| #[trigger]
                counts@.contains_key(ip) <==> seen_ports(
                    all@,
                    now_ns,
                    window_ns,
                    ip,
                    (i + 1) as nat,
                ).len() > 0 by {
                assert(before.contains_key(ip) <==> seen_ports(
                    all@,
                    now_ns,
                    window_ns,
                    ip,
                    i as nat,
                ).len() > 0);
                lemma_seen_ports(all@, now_ns, window_ns, ip, i as nat);
            }
            assert forall|ip: u32| #[trigger] counts@.contains_key(ip) implies counts@[ip]
                == seen_ports(all@, now_ns, window_ns, ip, (i + 1) as nat).len() by {
                assert(before.contains_key(ip) ==> before[ip] == seen_ports(
                    all@,
                    now_ns,
                    window_ns,
                    ip,
                    i as nat,
                ).len());
                lemma_seen_ports(all@, now_ns, window_ns, ip, i as nat);
            }
        }
        i = i + 1;
    }
    counts
}

/// The addresses of `pool`.
spec fn pool_ips(pool: Seq<(u32, u32)>) -> Seq<u32> {
    Seq::new(pool.len(), |i: int| pool[i].0)
}

proof fn lemma_picks_are_top(
    r: Seq<PortScanIpBreadth>,
    picks: Seq<usize>,
    pool: Seq<(u32, u32)>,
    keys: Seq<u64>,
    counts: Map<u32, u32>,
    found: Map<u32, nat>,
    n: nat,
)
    requires
        keys.len() <= usize::MAX,
        is_ranking(picks, keys, n),
        lists(pool, counts),
        keys.len() == pool.len(),
        forall|k: int| 0 <= k < keys.len() ==> #[trigger] keys[k] == pool[k].1,
        forall|ip: u32| #[trigger] found.contains_key(ip) <==> counts.contains_key(ip),
        forall|ip: u32| #[trigger] found.contains_key(ip) ==> found[ip] == counts[ip],
        r.len() == picks.len(),
        forall|m: int|
            0 <= m < r.len() ==> #[trigger] r[m] == (PortScanIpBreadth {
                src_ip: pool[picks[m] as int].0,
                distinct_ports: pool[picks[m] as int].1,
            }),
    ensures
        is_top_breadths(r, found, n),
{
    let ips = pool_ips(pool);
    assert(ips.no_duplicates()) by {
        assert forall|i: int, j: int|
            0 <= i < ips.len() && 0 <= j < ips.len() && i != j implies ips[i] != ips[j] by {
            if i < j {
                assert(pool[i].0 != pool[j].0);
            } else {
                assert(pool[j].0 != pool[i].0);
            }
        }
    }
    assert(ips.to_set() =~= found.dom()) by {
        assert forall|ip: u32| #[trigger] ips.to_set().contains(ip) <==> found.contains_key(
            ip,
        ) by {
            if ips.to_set().contains(ip) {
                let k = choose|k: int| 0 <= k < ips.len() && ips[k] == ip;
                assert(counts.contains_key(pool[k].0));
            }
            if found.contains_key(ip) {
                assert(counts.contains_key(ip));
                let k = choose|k: int| 0 <= k < pool.len() && (#[trigger] pool[k]).0 == ip;
                assert(ips[k] == ip);
            }
        }
    }
    ips.unique_seq_to_set();
    assert forall|m: int| 0 <= m < r.len() implies found.contains_key((#[trigger] r[m]).src_ip)
        && found[r[m].src_ip] == r[m].distinct_ports by {
        assert(picks[m] < keys.len());
        let (ip, ports) = pool[picks[m] as int];
        assert(counts.contains_key(pool[picks[m] as int].0));
        assert(found.contains_key(ip));
    }
    assert forall|i: int, j: int| 0 <= i < j < r.len() implies (#[trigger] r[i]).src_ip != (
    #[trigger] r[j]).src_ip && r[j].distinct_ports <= r[i].distinct_ports by {
        let a = picks[i] as int;
        let b = picks[j] as int;
        assert(ranks_before(keys, a, b));
        assert(ips[a] != ips[b]);
    }
    assert forall|i: int, ip: u32|
        0 <= i < r.len() && #[trigger] found.contains_key(ip) && !breadths_list(
            r,
            ip,
        ) implies found[ip] <= (#[trigger] r[i]).distinct_ports by {
        assert(counts.contains_key(ip));
        let k = choose|k: int| 0 <= k < pool.len() && (#[trigger] pool[k]).0 == ip;
        let a = picks[i] as int;
        assert(a < keys.len());
        if picks.contains(k as usize) {
            let m = choose|m: int| 0 <= m < picks.len() && picks[m] == k as usize;
            assert(r[m].src_ip == ip);
            assert(breadths_list(r, ip));
        } else {
            assert(ranks_before(keys, a, k));
        }
    }
}

/// A port counts for an address exactly if the pair was touched at most `window_ns` before the
/// reading, or after it; an address is a scanner exactly if a port counts for it, and its
/// breadth is the number of such ports.
pub proof fn law_ports_within_the_window_count(
    touches: Map<u64, PortTouch>,
    now_ns: u64,
    window_ns: u64,
    ip: u32,
    port: u16,
)
    ensures
        ({
            let code = (ip * 65536 + port) as u64;
            let ports = touched_ports(touches, now_ns, window_ns, ip);
            let found = scanners(touches, now_ns, window_ns);
            &&& ports.contains(port) <==> touches.contains_key(code) && now_ns
                <= touches[code].last_seen_ns + window_ns
            &&& found.contains_key(ip) <==> ports.len() > 0
            &&& found.contains_key(ip) ==> found[ip] == ports.len()
            &&& ports.contains(port) ==> found.contains_key(ip)
        }),
{
    let ports = touched_ports(touches, now_ns, window_ns, ip);
    lemma_ports_below(65536);
    lemma_len_subset(ports, Set::new(|p: u16| p < 65536));
    if ports.contains(port) && ports.len() == 0 {
        ports.lemma_len0_is_empty();
    }
}

/// What a list of the `n` broadest scanners is: at most `n` entries, all scanners where there
/// are no more; each entry a scanner with its number of ports, none twice; no entry narrower
/// than a later one; and no scanner that is left out broader than any entry.
pub proof fn law_top_scanners_are_the_broadest(
    r: Seq<PortScanIpBreadth>,
    found: Map<u32, nat>,
    n: nat,
    i: int,
    j: int,
    ip: u32,
)
    requires
        is_top_breadths(r, found, n),
        0 <= i <= j < r.len(),
    ensures
        r.len() <= n,
        r.len() <= found.dom().len(),
        r.len() == n || r.len() == found.dom().len(),
        found.contains_key(r[i].src_ip) && found[r[i].src_ip] == r[i].distinct_ports,
        i < j ==> r[i].src_ip != r[j].src_ip && r[j].distinct_ports <= r[i].distinct_ports,
        found.contains_key(ip) ==> found[ip] <= r[i].distinct_ports || exists|k: int|
            0 <= k < r.len() && (#[trigger] r[k]).src_ip == ip,
{
    if found.contains_key(ip) && !breadths_list(r, ip) {
        assert(found[ip] <= r[i].distinct_ports);
    }
}

} // verus!
