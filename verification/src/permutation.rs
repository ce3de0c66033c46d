//! Seeded, reproducible orders of an index range.

use vstd::prelude::*;
use rand::seq::SliceRandom;
use rand::SeedableRng;
use rand_chacha::ChaCha8Rng;
use crate::matrix::all_below;

verus! {

/// The seed that is used where the caller gives none.
pub const DEFAULT_SEED: u64 = 42;

/// The indices `0, 1, .., n - 1` in their natural order.
pub open spec fn identity(n: nat) -> Seq<usize> {
    Seq::new(n, |i: int| i as usize)
}

/// `order` holds every index below `n` exactly once.
pub open spec fn is_permutation(order: Seq<usize>, n: nat) -> bool {
    &&& order.len() == n
    &&& all_below(order, n)
    &&& order.no_duplicates()
}

/// The order in which `items` stand after the generator seeded with `seed`
/// has shuffled them.
pub uninterp spec fn shuffled(items: Seq<usize>, seed: u64) -> Seq<usize>;

/// The order that `seed` gives to the indices below `n`.
pub open spec fn seeded_order(n: nat, seed: u64) -> Seq<usize> {
    shuffled(identity(n), seed)
}

/// Shuffles `items` in place with `SliceRandom::shuffle` of `rand`, drawing
/// from a `ChaCha8Rng` of `rand_chacha` that `SeedableRng::seed_from_u64`
/// made from `seed`.
///
/// Trusted: the outcome is a function of the items and the seed alone, and
/// the shuffle only swaps items, so nothing is added, lost or repeated.
#[verifier::external_body]
fn shuffle_seeded(items: &mut Vec<usize>, seed: u64)
    ensures
        final(items)@ == shuffled(old(items)@, seed),
        final(items)@.to_multiset() == old(items)@.to_multiset(),
{
    let mut rng = ChaCha8Rng::seed_from_u64(seed);
    items.shuffle(&mut rng);
}

/// A rearrangement of the natural order of the indices below `n` is a
/// permutation of them.
pub proof fn lemma_rearranged_identity(order: Seq<usize>, n: nat)
    requires
        n <= usize::MAX,
        order.to_multiset() == identity(n).to_multiset(),
    ensures
        is_permutation(order, n),
{
    let id = identity(n);
    assert(id.no_duplicates());
    id.lemma_multiset_has_no_duplicates();
    order.lemma_multiset_has_no_duplicates_conv();
    vstd::seq_lib::to_multiset_len(order);
    vstd::seq_lib::to_multiset_len(id);
    assert forall|k: int| 0 <= k < order.len() implies (#[trigger] order[k]) < n by {
        assert(order.contains(order[k]));
        vstd::seq_lib::to_multiset_contains(order, order[k]);
        vstd::seq_lib::to_multiset_contains(id, order[k]);
        let j = choose|j: int| 0 <= j < id.len() && id[j] == order[k];
        assert(id[j] == j);
    }
}

/// In a permutation of the indices below `n` every such index stands somewhere.
pub proof fn lemma_permutation_covers(order: Seq<usize>, n: nat)
    requires
        n <= usize::MAX,
        is_permutation(order, n),
    ensures
        forall|v: usize| v < n ==> order.contains(v),
{
    let values = order.to_set();
    order.unique_seq_to_set();
    assert(values.len() == n);
    let all = Set::new(|v: usize| v < n);
    assert(values.subset_of(all)) by {
        assert forall|v: usize| values.contains(v) implies all.contains(v) by {
            let k = choose|k: int| 0 <= k < order.len() && order[k] == v;
            assert(order[k] < n);
        }
    }
    lemma_below_set_len(n);
    vstd::set_lib::lemma_subset_equality(values, all);
    assert forall|v: usize| v < n implies order.contains(v) by {
        assert(all.contains(v));
        assert(values.contains(v));
    }
}

/// There are `n` indices below `n`.
proof fn lemma_below_set_len(n: nat)
    requires
        n <= usize::MAX + 1,
    ensures
        Set::new(|v: usize| v < n).finite(),
        Set::new(|v: usize| v < n).len() == n,
    decreases n,
{
    let s = Set::new(|v: usize| v < n);
    if n == 0 {
        assert(s =~= Set::<usize>::empty());
    } else {
        let m = (n - 1) as nat;
        lemma_below_set_len(m);
        let t = Set::new(|v: usize| v < m);
        assert(s =~= t.insert(m as usize));
    }
}

/// The indices below `n` in their natural order.
pub fn identity_indices(n: usize) -> (indices: Vec<usize>)
    ensures
        indices@ == identity(n as nat),
        is_permutation(indices@, n as nat),
{
    let mut indices: Vec<usize> = Vec::new();
    let mut i: usize = 0;
    while i < n
        invariant
            0 <= i <= n,
            indices@ == identity(i as nat),
        decreases n - i,
    {
        indices.push(i);
        i = i + 1;
        assert(indices@ =~= identity(i as nat));
    }
    indices
}

/// The indices below `n` in the order that `seed` gives them. The same `n`
/// and `seed` always give the same order.
pub fn seeded_indices(n: usize, seed: u64) -> (indices: Vec<usize>)
    ensures
        indices@ == seeded_order(n as nat, seed),
        is_permutation(indices@, n as nat),
{
    let mut indices = identity_indices(n);
    shuffle_seeded(&mut indices, seed);
    proof {
        lemma_rearranged_identity(indices@, n as nat);
    }
    indices
}

} // verus!
