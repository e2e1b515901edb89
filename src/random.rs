//! The random draws that spawning needs, taken from the thread-local generator of `rand`.
use rand::Rng;
use vstd::prelude::*;

verus! {

/// Relies on `rand::Rng::gen_range` on `rand::thread_rng()`: a draw from `0..bound`
/// always lies inside that range (the call panics on an empty range, which `requires`
/// rules out).
#[verifier::external_body]
pub(crate) fn random_below(bound: usize) -> (r: usize)
    requires
        bound > 0,
    ensures
        r < bound,
{
    rand::thread_rng().gen_range(0..bound)
}

/// Relies on `rand::Rng::gen_ratio(1, 2)` on `rand::thread_rng()`: a fair coin. Nothing
/// can be promised of which side comes up.
#[verifier::external_body]
pub(crate) fn random_coin() -> (r: bool) {
    rand::thread_rng().gen_ratio(1, 2)
}

} // verus!
