//! Random choices on the host.

use ndarray_rand::rand::seq::SliceRandom;
use vstd::prelude::*;

verus! {

/// `rand::random`: any number.
#[verifier::external_body]
fn random_seed() -> (r: u64) {
    ndarray_rand::rand::random()
}

/// `rand::random`: true or false.
#[verifier::external_body]
pub(crate) fn random_flag() -> (r: bool) {
    ndarray_rand::rand::random()
}

/// `SliceRandom::shuffle` with `rand::thread_rng`: the same elements, as often as before,
/// in any order.
#[verifier::external_body]
pub(crate) fn shuffle(types: &mut Vec<(u16, bool)>)
    ensures
        final(types)@.to_multiset() == old(types)@.to_multiset(),
{
    types.shuffle(&mut ndarray_rand::rand::thread_rng());
}

/// The given seed, or a random one.
pub fn choose_seed(seed: Option<u64>) -> (r: u64)
    ensures
        seed matches Some(s) ==> r == s,
{
    let fallback = random_seed();
    seed.unwrap_or(fallback)
}

} // verus!
