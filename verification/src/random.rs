//! The random numbers the generators draw, from the `rand` crate.

use vstd::prelude::*;
use rand::Rng;
use rand::rngs::ThreadRng;

verus! {

/// `rand::rngs::ThreadRng`, the thread-local generator; opaque here.
#[verifier::external_type_specification]
#[verifier::external_body]
pub struct ExThreadRng(ThreadRng);

/// `rand::rng()`: a handle on the thread-local generator. Nothing is claimed
/// of its state.
#[verifier::external_body]
pub(crate) fn thread_rng() -> ThreadRng {
    rand::rng()
}

/// `Rng::random_range(rng, 0..bound)`: the documentation promises a value in
/// the half-open range and a panic only when the range is empty, which
/// `requires` rules out. Which value comes is left to chance.
#[verifier::external_body]
pub(crate) fn random_below(rng: &mut ThreadRng, bound: usize) -> (r: usize)
    requires
        bound > 0,
    ensures
        r < bound,
{
    rng.random_range(0..bound)
}

/// `Rng::random_ratio(rng, numerator, denominator)`: `true` with probability
/// `numerator / denominator`. The documentation promises `false` when the
/// numerator is 0 and `true` when it equals the denominator, and a panic only
/// when the denominator is 0 or below the numerator, which `requires` rules
/// out. Otherwise the outcome is left to chance.
#[verifier::external_body]
pub(crate) fn random_ratio(rng: &mut ThreadRng, numerator: u32, denominator: u32) -> (r: bool)
    requires
        0 < denominator,
        numerator <= denominator,
    ensures
        numerator == 0 ==> !r,
        numerator == denominator ==> r,
{
    rng.random_ratio(numerator, denominator)
}

} // verus!
