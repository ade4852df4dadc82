//! The source of randomness for the animations that need one.
//!
//! Nothing is proved of the numbers drawn here: the animations that use
//! them are verified for every value that may come back.

use rand::rngs::SmallRng;
use rand::RngCore;
use rand::SeedableRng;
use vstd::prelude::*;

verus! {

/// The generator of `rand`, carried through as an opaque value.
#[verifier::external_type_specification]
#[verifier::external_body]
pub struct ExSmallRng(rand::rngs::SmallRng);

/// Calls `SmallRng::from_entropy` of `rand`: a generator seeded by the
/// operating system. Nothing is claimed of the generator; the call panics
/// only if the operating system cannot supply a seed.
#[verifier::external_body]
pub(crate) fn rng_from_entropy() -> SmallRng {
    SmallRng::from_entropy()
}

/// Calls `RngCore::next_u32` on the generator. Any `u32` may come back.
#[verifier::external_body]
pub(crate) fn draw_u32(rng: &mut SmallRng) -> u32 {
    rng.next_u32()
}

/// Calls `RngCore::next_u64` on the generator. Any `u64` may come back.
#[verifier::external_body]
pub(crate) fn draw_u64(rng: &mut SmallRng) -> u64 {
    rng.next_u64()
}

} // verus!
