//! Randomness for the diversity selection, drawn from a PCG generator.
//!
//! The generator itself is an outside permuted-congruential engine; nothing
//! is promised of its draws.  Everything the engine builds on top — index
//! draws below a bound, sampling, shuffling — is verified for every value
//! the generator can hand back.

use vstd::prelude::*;

use rand::RngCore;
use rand::SeedableRng;

verus! {

/// A 64-bit PCG random number generator, opaque to the verifier.
///
/// The engine type's own declaration names the outside crate's mixin
/// traits, which the verifier cannot take as bounds, so the generator is
/// held behind an opaque struct instead.
#[verifier::external_body]
pub struct PcgThreadRng {
    rng: pcg_rand::Pcg64,
}

/// A freshly entropy-seeded generator.
///
/// Relies on `rand::SeedableRng::from_entropy` for `pcg_rand::Pcg64`;
/// nothing is promised of a seed drawn from the operating system.
#[verifier::external_body]
pub fn pcg_thread_rng() -> PcgThreadRng {
    PcgThreadRng { rng: pcg_rand::Pcg64::from_entropy() }
}

impl PcgThreadRng {
    /// One raw draw.
    ///
    /// Relies on `pcg_rand`'s `rand::RngCore::next_u64` impl; nothing is
    /// promised of a random draw.
    #[verifier::external_body]
    pub fn next_u64(&mut self) -> u64 {
        self.rng.next_u64()
    }

    /// A draw reduced below `n`: an arbitrary valid index into a collection
    /// of length `n`.
    pub fn gen_index(&mut self, n: usize) -> (i: usize)
        requires
            n >= 1,
        ensures
            i < n,
    {
        (self.next_u64() % (n as u64)) as usize
    }
}

} // verus!
