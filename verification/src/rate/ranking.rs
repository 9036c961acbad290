//! The largest entries of a list, in descending order.
use std::collections::HashMap;
use std::hash::Hash;

use vstd::prelude::*;
use vstd::std_specs::hash::{group_hash_axioms, obeys_key_model};
use vstd::std_specs::iter::IteratorSpec;

verus! {

/// Whether entry `a` ranks before entry `b`: it is larger, or as large and earlier.
pub open spec fn ranks_before(keys: Seq<u64>, a: int, b: int) -> bool {
    keys[a] > keys[b] || (keys[a] == keys[b] && a < b)
}

/// Whether `r` lists the positions of the `n` largest of `keys`, largest first.
pub open spec fn is_ranking(r: Seq<usize>, keys: Seq<u64>, n: nat) -> bool {
    &&& r.len() == (if n < keys.len() {
        n
    } else {
        keys.len()
    })
    &&& forall|i: int| 0 <= i < r.len() ==> (#[trigger] r[i]) < keys.len()
    &&& forall|i: int, j: int|
        0 <= i < j < r.len() ==> ranks_before(keys, #[trigger] r[i] as int, #[trigger] r[j] as int)
    &&& forall|i: int, k: int|
        0 <= i < r.len() && 0 <= k < keys.len() && !r.contains(k as usize)
            ==> #[trigger] ranks_before(keys, r[i] as int, k)
}

/// The positions of the `n` largest of `keys`, largest first, equal ones in their order.
pub fn top_n(keys: &Vec<u64>, n: usize) -> (r: Vec<usize>)
    ensures
        is_ranking(r@, keys@, n as nat),
{
    let mut r: Vec<usize> = Vec::new();
    let mut taken: Vec<bool> = Vec::new();
    let mut i: usize = 0;
    while i < keys.len()
        invariant
            i <= keys@.len(),
            taken@.len() == i,
            forall|k: int| 0 <= k < i ==> !(#[trigger] taken@[k]),
        decreases keys@.len() - i,
    {
        taken.push(false);
        i = i + 1;
    }
    while r.len() < n && r.len() < keys.len()
        invariant
            taken@.len() == keys@.len(),
            r@.len() <= keys@.len(),
            r@.len() <= n,
            forall|i: int| 0 <= i < r@.len() ==> (#[trigger] r@[i]) < keys@.len(),
            forall|k: int| 0 <= k < keys@.len() ==> (#[trigger] taken@[k]) == r@.contains(k as usize),
            forall|i: int, j: int|
                0 <= i < j < r@.len() ==> ranks_before(
                    keys@,
                    #[trigger] r@[i] as int,
                    #[trigger] r@[j] as int,
                ),
            forall|i: int, k: int|
                0 <= i < r@.len() && 0 <= k < keys@.len() && !r@.contains(k as usize)
                    ==> #[trigger] ranks_before(keys@, r@[i] as int, k),
        decreases keys@.len() - r@.len(),
    {
        let mut best: usize = 0;
        proof {
            lemma_one_is_left(r@, keys@.len());
            let k = choose|k: usize| k < keys@.len() && !r@.contains(k);
            assert(!taken@[k as int]);
        }
        let len: usize = keys.len();
        while taken[best]
            invariant
                len == keys@.len(),
                taken@.len() == keys@.len(),
                best < keys@.len(),
                exists|k: int| best <= k < keys@.len() && !(#[trigger] taken@[k]),
                forall|k: int| 0 <= k < best ==> #[trigger] taken@[k],
            decreases keys@.len() - best,
        {
            best = best + 1;
        }
        let mut k: usize = best + 1;
        while k < keys.len()
            invariant
                taken@.len() == keys@.len(),
                best < k <= keys@.len(),
                !taken@[best as int],
                forall|m: int|
                    0 <= m < k && m != best && !(#[trigger] taken@[m]) ==> ranks_before(
                        keys@,
                        best as int,
                        m,
                    ),
            decreases keys@.len() - k,
        {
            if !taken[k] && keys[k] > keys[best] {
                best = k;
            }
            k = k + 1;
        }
        let ghost before = r@;
        proof {
            assert(!before.contains(best));
        }
        r.push(best);
        taken.set(best, true);
        proof {
            assert forall|m: usize| (#[trigger] r@.contains(m)) == (before.contains(m) || m
                == best) by {
                assert(r@[before.len() as int] == best);
                if before.contains(m) {
                    let x = choose|x: int| 0 <= x < before.len() && before[x] == m;
                    assert(r@[x] == m);
                }
                if r@.contains(m) && m != best {
                    let x = choose|x: int| 0 <= x < r@.len() && r@[x] == m;
                    assert(before[x] == m);
                }
            }
            assert forall|i: int, j: int| 0 <= i < j < r@.len() implies ranks_before(
                keys@,
                #[trigger] r@[i] as int,
                #[trigger] r@[j] as int,
            ) by {
                if j < before.len() {
                    assert(before[i] == r@[i] && before[j] == r@[j]);
                } else {
                    assert(before[i] == r@[i]);
                    assert(ranks_before(keys@, before[i] as int, best as int));
                }
            }
            assert forall|i: int, k: int|
                0 <= i < r@.len() && 0 <= k < keys@.len() && !r@.contains(
                    k as usize,
                ) implies #[trigger] ranks_before(keys@, r@[i] as int, k) by {
                assert(r@.contains(k as usize) == (before.contains(k as usize) || k == best));
                if i < before.len() {
                    assert(before[i] == r@[i]);
                    assert(ranks_before(keys@, before[i] as int, k));
                } else {
                    assert(!taken@[k]);
                }
            }
        }
    }
    r
}

/// A list of distinct positions below `n` that is shorter than `n` misses one.
proof fn lemma_one_is_left(r: Seq<usize>, n: nat)
    requires
        r.len() < n,
        n <= usize::MAX,
    ensures
        exists|k: usize| k < n && !r.contains(k),
{
    if forall|k: usize| k < n ==> r.contains(k) {
        let all = Set::new(|k: usize| k < n);
        let have = r.to_set();
        lemma_below(n);
        assert forall|k: usize| all.contains(k) implies have.contains(k) by {
            assert(r.contains(k));
        }
        vstd::seq_lib::seq_to_set_is_finite(r);
        r.lemma_cardinality_of_set();
        vstd::set_lib::lemma_len_subset(all, have);
    }
}

/// There are `n` positions below `n`.
proof fn lemma_below(n: nat)
    requires
        n <= usize::MAX,
    ensures
        Set::new(|k: usize| k < n).finite(),
        Set::new(|k: usize| k < n).len() == n,
    decreases n,
{
    let all = Set::new(|k: usize| k < n);
    if n == 0 {
        assert(all =~= Set::empty());
    } else {
        let m = (n - 1) as nat;
        lemma_below(m);
        assert(all =~= Set::new(|k: usize| k < m).insert(m as usize));
    }
}

/// Whether `entries` lists the entries of `m`, each once.
pub open spec fn lists<K, V>(entries: Seq<(K, V)>, m: Map<K, V>) -> bool {
    &&& forall|i: int|
        0 <= i < entries.len() ==> m.contains_key((#[trigger] entries[i]).0) && m[entries[i].0]
            == entries[i].1
    &&& forall|i: int, j: int|
        0 <= i < j < entries.len() ==> (#[trigger] entries[i]).0 != (#[trigger] entries[j]).0
    &&& forall|k: K| #[trigger]
        m.contains_key(k) ==> exists|i: int| 0 <= i < entries.len() && (#[trigger] entries[i]).0 == k
}

/// The entries of a map, in no particular order.
pub fn entries<K: Copy + Eq + Hash, V: Copy>(m: &HashMap<K, V>) -> (r: Vec<(K, V)>)
    requires
        obeys_key_model::<K>(),
    ensures
        lists(r@, m@),
{
    broadcast use group_hash_axioms;

    let mut r: Vec<(K, V)> = Vec::new();
    let walk = m.iter();
    let ghost all = walk.remaining();
    for (k, v) in it: walk
        invariant
            it.seq() == all,
            r@.len() == it.index(),
            forall|i: int|
                0 <= i < r@.len() ==> (#[trigger] r@[i]).0 == *all[i].0 && r@[i].1 == *all[i].1,
    {
        r.push((*k, *v));
    }
    proof {
        assert forall|i: int| 0 <= i < r@.len() implies m@.contains_key((#[trigger] r@[i]).0)
            && m@[r@[i].0] == r@[i].1 by {
            assert(m@.contains_key(*all[i].0));
        }
        assert forall|i: int, j: int| 0 <= i < j < r@.len() implies (#[trigger] r@[i]).0
            != (#[trigger] r@[j]).0 by {
            if r@[i].0 == r@[j].0 {
                assert(all[i] == all[j]);
            }
        }
        assert forall|k: K| #[trigger] m@.contains_key(k) implies exists|i: int|
            0 <= i < r@.len() && (#[trigger] r@[i]).0 == k by {
            assert(all.contains((&k, &m@[k])));
            let i = choose|i: int| 0 <= i < all.len() && all[i] == (&k, &m@[k]);
            assert(r@[i].0 == k);
        }
    }
    r
}

} // verus!
