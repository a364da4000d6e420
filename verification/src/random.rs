use rand::seq::SliceRandom;
use rand::Rng;
use rand::SeedableRng;
use rand_chacha::ChaCha8Rng;
use vstd::prelude::*;

verus! {

/// The ChaCha generator with eight rounds, of the crate `rand_chacha`.
#[verifier::external_type_specification]
#[verifier::external_body]
pub struct ExChaCha8Rng(rand_chacha::ChaCha8Rng);

/// `rand::SeedableRng::seed_from_u64` for `ChaCha8Rng`.
///
/// Trusted: the call returns for every seed. Nothing is claimed of the
/// generator's state.
#[verifier::external_body]
pub(crate) fn seeded(seed: u64) -> (rng: ChaCha8Rng) {
    ChaCha8Rng::seed_from_u64(seed)
}

/// `rand::seq::SliceRandom::shuffle` on a slice of indices.
///
/// Trusted: the shuffle exchanges elements in place, so the slice holds the
/// same elements as before, each as often as before. Nothing is claimed of
/// their order.
#[verifier::external_body]
pub(crate) fn shuffle(items: &mut Vec<usize>, rng: &mut ChaCha8Rng)
    ensures
        final(items)@.to_multiset() == old(items)@.to_multiset(),
{
    items.shuffle(rng);
}

/// `rand::Rng::random_range` over `0..=upper`.
///
/// Trusted: the value drawn lies in the range. The range is never empty, so
/// the call does not panic.
#[verifier::external_body]
pub(crate) fn random_at_most(rng: &mut ChaCha8Rng, upper: u128) -> (drawn: u128)
    ensures
        drawn <= upper,
{
    rng.random_range(0..=upper)
}

/// `rand::Rng::random` for `u64`.
///
/// Trusted: the call returns. Nothing is claimed of the value.
#[verifier::external_body]
pub(crate) fn random_seed(rng: &mut ChaCha8Rng) -> (drawn: u64) {
    rng.random()
}

/// The indices `0, 1, ..., n - 1` in ascending order.
pub open spec fn ascending(n: nat) -> Seq<usize> {
    Seq::new(n, |i: int| i as usize)
}

/// `order` holds each of `0, 1, ..., n - 1` exactly once.
pub open spec fn is_permutation(order: Seq<usize>, n: nat) -> bool {
    &&& order.len() == n
    &&& forall|i: int| 0 <= i < n ==> #[trigger] order[i] < n
    &&& order.no_duplicates()
}

/// A sequence with the same elements as `ascending(n)` is a permutation.
pub proof fn lemma_rearranged_is_permutation(order: Seq<usize>, n: nat)
    requires
        n <= usize::MAX,
        order.to_multiset() == ascending(n).to_multiset(),
    ensures
        is_permutation(order, n),
{
    let base = ascending(n);
    order.to_multiset_ensures();
    base.to_multiset_ensures();
    assert(base.no_duplicates());
    base.lemma_multiset_has_no_duplicates();
    order.lemma_multiset_has_no_duplicates_conv();
    assert forall|i: int| 0 <= i < n implies #[trigger] order[i] < n by {
        assert(order.contains(order[i]));
        assert(base.to_multiset().count(order[i]) > 0);
        assert(base.contains(order[i]));
        let j = choose|j: int| 0 <= j < base.len() && base[j] == order[i];
        assert(base[j] == j as usize);
    }
}

/// The indices `0, 1, ..., n - 1` in an order drawn from `rng`.
pub fn shuffled_indices(n: usize, rng: &mut ChaCha8Rng) -> (order: Vec<usize>)
    ensures
        is_permutation(order@, n as nat),
{
    let mut indices: Vec<usize> = Vec::new();
    let mut i: usize = 0;
    while i < n
        invariant
            i <= n,
            indices.len() == i,
            forall|j: int| 0 <= j < i ==> #[trigger] indices@[j] == j as usize,
        decreases n - i,
    {
        indices.push(i);
        i += 1;
    }
    assert(indices@ =~= ascending(n as nat));
    shuffle(&mut indices, rng);
    proof {
        lemma_rearranged_is_permutation(indices@, n as nat);
    }
    indices
}

/// One seed for each of `n` independent runs, drawn from `rng`.
pub fn draw_seeds(n: usize, rng: &mut ChaCha8Rng) -> (seeds: Vec<u64>)
    ensures
        seeds@.len() == n,
{
    let mut seeds: Vec<u64> = Vec::new();
    let mut i: usize = 0;
    while i < n
        invariant
            i <= n,
            seeds.len() == i,
        decreases n - i,
    {
        let seed: u64 = random_seed(rng);
        seeds.push(seed);
        i += 1;
    }
    seeds
}

/// The parameter indices that one optimizer run works on: the first
/// `subset_size` of the indices `0, ..., n_params - 1`, shuffled by a
/// generator started from `seed`.
pub fn param_subset(seed: u64, n_params: usize, subset_size: usize) -> (subset: Vec<usize>)
    ensures
        subset@.len() == (if subset_size < n_params { subset_size } else { n_params }),
        subset@.no_duplicates(),
        forall|i: int| 0 <= i < subset@.len() ==> #[trigger] subset@[i] < n_params,
{
    let mut rng = seeded(seed);
    let mut idxs = shuffled_indices(n_params, &mut rng);
    let keep: usize = if subset_size < n_params { subset_size } else { n_params };
    idxs.truncate(keep);
    idxs
}

} // verus!
