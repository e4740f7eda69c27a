//! Counter laws: what a run of committed increments does to the stored
//! value, stated over the abstract counter.

use vstd::prelude::*;

verus! {

/// A serialization of successful compare-and-swap increments on one
/// counter, with no outside mutation in between: each swap is recorded as
/// (expected value, installed value); every installed value is the
/// successor of the expected one, and each swap after the first expects
/// what the previous one installed.
pub open spec fn swap_chain(initial: nat, swaps: Seq<(nat, nat)>) -> bool {
    forall|i: int| 0 <= i < swaps.len() ==> {
        &&& (#[trigger] swaps[i]).1 == swaps[i].0 + 1
        &&& swaps[i].0 == (if i == 0 {
            initial
        } else {
            swaps[i - 1].1
        })
    }
}

/// Monotonicity: across a run of successfully committed increments with no
/// external mutation of the key, the value at each step is the initial
/// value plus the number of commits so far, so the final value is the
/// initial value plus the length of the run.
proof fn lemma_chain_value_at(initial: nat, swaps: Seq<(nat, nat)>, i: int)
    requires
        swap_chain(initial, swaps),
        0 <= i < swaps.len(),
    ensures
        swaps[i].0 == initial + i,
    decreases i,
{
    if i > 0 {
        lemma_chain_value_at(initial, swaps, i - 1);
    }
}

pub proof fn lemma_monotonic_increments(initial: nat, swaps: Seq<(nat, nat)>)
    requires
        swap_chain(initial, swaps),
    ensures
        forall|i: int| 0 <= i < swaps.len() ==> (#[trigger] swaps[i]).0 == initial + i,
        swaps.len() >= 1 ==> swaps.last().1 == initial + swaps.len(),
{
    assert forall|i: int| 0 <= i < swaps.len() implies (#[trigger] swaps[i]).0 == initial + i by {
        lemma_chain_value_at(initial, swaps, i);
    }
    if swaps.len() >= 1 {
        assert(swaps.last().0 == initial + swaps.len() - 1);
    }
}

/// No lost updates: in any such run, no two successful swaps used the same
/// expected value, so no two racing increment attempts can both commit
/// against the same observed value; with the monotonicity above, M commits
/// move the counter from `initial` to exactly `initial + M`.
pub proof fn lemma_no_lost_updates(initial: nat, swaps: Seq<(nat, nat)>)
    requires
        swap_chain(initial, swaps),
    ensures
        forall|i: int, j: int| 0 <= i < j < swaps.len()
            ==> (#[trigger] swaps[i]).0 != (#[trigger] swaps[j]).0,
        swaps.len() >= 1 ==> swaps.last().1 == initial + swaps.len(),
{
    lemma_monotonic_increments(initial, swaps);
}

} // verus!
