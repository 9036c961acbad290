//! Lists that keep some entries of another list, in order.
use vstd::prelude::*;

verus! {

/// Whether `at` lists the positions below `n` at which `keep` holds: all of them, each once,
/// in ascending order.
pub open spec fn picks(at: Seq<int>, n: nat, keep: spec_fn(int) -> bool) -> bool {
    &&& forall|k: int| 0 <= k < at.len() ==> 0 <= (#[trigger] at[k]) < n && keep(at[k])
    &&& forall|j: int, k: int| 0 <= j < k < at.len() ==> (#[trigger] at[j]) < (#[trigger] at[k])
    &&& forall|i: int| 0 <= i < n && #[trigger] keep(i) ==> at.contains(i)
}

/// No position is picked below 0.
pub proof fn lemma_picks_none(keep: spec_fn(int) -> bool)
    ensures
        picks(Seq::<int>::empty(), 0, keep),
{
}

/// One position more.
pub proof fn lemma_picks_step(at: Seq<int>, n: nat, keep: spec_fn(int) -> bool)
    requires
        picks(at, n, keep),
    ensures
        keep(n as int) ==> picks(at.push(n as int), n + 1, keep),
        !keep(n as int) ==> picks(at, n + 1, keep),
{
    let more = at.push(n as int);
    if keep(n as int) {
        assert forall|i: int| 0 <= i < n + 1 && #[trigger] keep(i) implies more.contains(i) by {
            if i < n {
                let k = choose|k: int| 0 <= k < at.len() && at[k] == i;
                assert(more[k] == i);
            } else {
                assert(more[at.len() as int] == i);
            }
        }
    }
}

} // verus!
