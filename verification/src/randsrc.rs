//! The injected randomness source: a seedable generator from the rand crate,
//! consumed through trusted wrappers that state only what holds of every
//! outcome.

use vstd::prelude::*;
use rand::seq::SliceRandom;
use rand::SeedableRng;

verus! {

#[verifier::external_type_specification]
#[verifier::external_body]
pub struct ExStdRng(rand::rngs::StdRng);

/// Relies on rand's `SeedableRng::seed_from_u64` for `StdRng`: builds a
/// generator from a caller-supplied seed.
#[verifier::external_body]
pub(crate) fn rng_from_seed(seed: u64) -> rand::rngs::StdRng {
    rand::rngs::StdRng::seed_from_u64(seed)
}

/// Relies on rand's `SeedableRng::from_entropy` for `StdRng`: builds a
/// generator from system randomness.
#[verifier::external_body]
pub(crate) fn rng_from_entropy() -> rand::rngs::StdRng {
    rand::rngs::StdRng::from_entropy()
}

/// Relies on rand's `SliceRandom::shuffle`: it permutes the slice in place,
/// so the multiset of entries is unchanged, whatever order comes out.
#[verifier::external_body]
pub(crate) fn shuffle_vertices(v: &mut Vec<usize>, rng: &mut rand::rngs::StdRng)
    ensures
        final(v)@.to_multiset() == old(v)@.to_multiset(),
{
    v.as_mut_slice().shuffle(rng);
}

/// Relies on rand's `SliceRandom::choose`: on a non-empty slice it returns
/// `Some` of one of the entries; which one is not stated.
#[verifier::external_body]
pub(crate) fn pick_one(v: &Vec<usize>, rng: &mut rand::rngs::StdRng) -> (r: usize)
    requires
        v@.len() > 0,
    ensures
        v@.contains(r),
{
    *v.as_slice().choose(rng).unwrap()
}

} // verus!
