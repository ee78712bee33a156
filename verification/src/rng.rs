//! Randomness for the ambient spawners. The spawners take the generator as
//! an explicit argument, so a fixed seed reproduces a whole scene; the
//! contracts state only what holds of every sample.

use vstd::prelude::*;

verus! {

/// The random number generator the spawners draw from (rand's standard one).
#[verifier::external_type_specification]
#[verifier::external_body]
pub struct ExStdRng(rand::rngs::StdRng);

/// Relies on rand::Rng::gen_range over an inclusive integer range: the
/// sample lies between the bounds. An empty range would panic, so the
/// bounds must be ordered.
#[verifier::external_body]
pub(crate) fn sample_inclusive(rng: &mut rand::rngs::StdRng, lo: u64, hi: u64) -> (r: u64)
    requires
        lo <= hi,
    ensures
        lo <= r <= hi,
{
    rand::Rng::gen_range(rng, lo..=hi)
}

/// Relies on rand::Rng::gen for bool: a coin flip, with no promise about
/// which side comes up.
#[verifier::external_body]
pub(crate) fn sample_bool(rng: &mut rand::rngs::StdRng) -> bool {
    rand::Rng::gen::<bool>(rng)
}

} // verus!
