//! A seedable pseudo-random source for the sampling loops.
//!
//! The generator itself comes from the rand crate; the library only draws
//! raw 32-bit values from it and reduces them to fixed-point samples in
//! [0, 1). Nothing is assumed about the values drawn.

use vstd::prelude::*;

verus! {

#[verifier::external_type_specification]
#[verifier::external_body]
pub struct ExStdRng(rand::rngs::StdRng);

/// A pseudo-random source, deterministic for a fixed seed within one build.
pub struct Rng {
    inner: rand::rngs::StdRng,
}

/// Relies on rand's `SeedableRng::seed_from_u64` (implemented by `StdRng`):
/// builds a generator state from the seed. Nothing is assumed of the values
/// it will produce.
#[verifier::external_body]
fn stdrng_from_seed(seed: u64) -> rand::rngs::StdRng {
    <rand::rngs::StdRng as rand::SeedableRng>::seed_from_u64(seed)
}

/// Relies on rand's `Rng::next_u32` for `StdRng`: hands back the generator's
/// next 32 pseudo-random bits. Nothing is promised of the value.
#[verifier::external_body]
fn next_raw(rng: &mut Rng) -> u32 {
    rand::Rng::next_u32(&mut rng.inner)
}

impl Rng {
    /// A generator seeded from a 64-bit value.
    pub fn from_seed(seed: u64) -> Rng {
        Rng { inner: stdrng_from_seed(seed) }
    }

    /// Draw a fixed-point sample in [0, 1): a raw value in [0, SCALE).
    pub fn next_unit(&mut self) -> (r: i64)
        ensures
            0 <= r < 65536,
    {
        let raw = next_raw(self);
        (raw % 65536) as i64
    }
}

} // verus!
