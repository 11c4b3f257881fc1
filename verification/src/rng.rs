//! Pseudo-random stream for stochastic sampling.
//!
//! The generator is `rand`'s `StdRng`, seeded explicitly so that a render
//! is reproducible within one build. Nothing is assumed about the values
//! drawn: every function that consumes them states what holds of any
//! outcome.

use vstd::prelude::*;
use crate::fixed::SCALE;

verus! {

#[verifier::external_type_specification]
#[verifier::external_body]
pub struct ExStdRng(rand::rngs::StdRng);

/// Relies on rand's `SeedableRng::seed_from_u64`: builds a generator
/// from a 64-bit seed.
#[verifier::external_body]
fn seed_std_rng(seed: u64) -> rand::rngs::StdRng {
    <rand::rngs::StdRng as rand::SeedableRng>::seed_from_u64(seed)
}

/// Relies on rand's `Rng::next_u64`: returns the stream's next word.
/// Nothing is promised of the value.
#[verifier::external_body]
fn next_std_u64(rng: &mut rand::rngs::StdRng) -> u64 {
    rand::Rng::next_u64(rng)
}

/// An explicitly seeded random stream, handed through the render call chain.
pub struct RenderRng {
    inner: rand::rngs::StdRng,
}

impl RenderRng {
    /// A stream reproducing the same values for the same seed within one build.
    pub fn new(seed: u64) -> RenderRng {
        RenderRng { inner: seed_std_rng(seed) }
    }

    /// The next raw 64-bit word of the stream.
    pub fn next_bits(&mut self) -> u64 {
        next_std_u64(&mut self.inner)
    }

    /// A scalar drawn from `[0, 1)`: a raw value in `[0, SCALE)`.
    pub fn uniform_unit(&mut self) -> (r: i64)
        ensures
            0 <= r < SCALE,
    {
        let bits: u64 = self.next_bits();
        (bits % (SCALE as u64)) as i64
    }
}

} // verus!
