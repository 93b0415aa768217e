//! The random number generator that the pool draws its choices from.

use vstd::prelude::*;

verus! {

/// The generator of `fastrand`. Nothing is known of its state.
#[verifier::external_type_specification]
#[verifier::external_body]
pub struct ExRng(fastrand::Rng);

/// Calls `fastrand::Rng::new`, which makes a generator with a seed drawn from
/// the thread's own generator. Nothing is claimed of the result.
#[verifier::external_body]
pub(crate) fn new_rng() -> (rng: fastrand::Rng) {
    fastrand::Rng::new()
}

/// Calls `fastrand::Rng::usize` on the range from zero up to `bound`, which
/// returns a number in that range and panics when the range is empty. The
/// result is below `bound`; which number it is, is not said.
#[verifier::external_body]
pub(crate) fn random_below(rng: &fastrand::Rng, bound: usize) -> (choice: usize)
    requires
        bound > 0,
    ensures
        choice < bound,
{
    rng.usize(0..bound)
}

} // verus!
