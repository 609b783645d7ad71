//! The random generator that the sampling functions draw from, and the two
//! calls that are made on it.

use rand::Rng;
use vstd::prelude::*;

verus! {

/// `rand::rngs::StdRng`, the generator that is handed to every function of
/// this crate that samples. Its state is opaque to the proofs: nothing is
/// ever claimed about which value a draw returns.
#[verifier::external_type_specification]
#[verifier::external_body]
pub struct ExStdRng(rand::rngs::StdRng);

/// `rand::Rng::random_range` on the half-open range `0..bound`.
///
/// The contract claims only what the method documents: the value drawn lies
/// in the range. The method panics on an empty range, which `bound > 0`
/// excludes.
#[verifier::external_body]
pub(crate) fn random_below(rng: &mut rand::rngs::StdRng, bound: u64) -> (r: u64)
    requires
        bound > 0,
    ensures
        r < bound,
{
    rng.random_range(0..bound)
}

/// `rand::Rng::random` at type `u8`. Nothing is claimed about the byte.
#[verifier::external_body]
pub(crate) fn random_u8(rng: &mut rand::rngs::StdRng) -> (r: u8) {
    rng.random::<u8>()
}

} // verus!
