//! The random draws behind `work` and `gamble`, taken from the `rand` crate.
use vstd::prelude::*;
use rand::Rng;

verus! {

/// The thread-local random generator of `rand`.
#[verifier::external_type_specification]
#[verifier::external_body]
pub struct ExThreadRng(rand::rngs::ThreadRng);

/// `rand::rng`: a handle to the thread-local generator. Nothing is claimed of it.
pub assume_specification[ rand::rng ]() -> rand::rngs::ThreadRng;

/// `Rng::random_range` on the inclusive range `low..=high` of `u64`: the draw lies
/// within the bounds. `rand` panics on an empty range, hence `low <= high`.
/// Which value comes out is left open: it is chance.
#[verifier::external_body]
pub(crate) fn random_range_inclusive(rng: &mut rand::rngs::ThreadRng, low: u64, high: u64) -> (r: u64)
    requires
        low <= high,
    ensures
        low <= r <= high,
{
    rng.random_range(low..=high)
}

} // verus!
