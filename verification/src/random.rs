//! The explicit random stream that drives all sampling.
//!
//! Randomness comes from rand's `StdRng`, seeded once, so a render is a
//! deterministic function of the scene, the camera and the seed.  The two
//! wrappers below are the only trusted surface: nothing beyond a range
//! bound can be promised of a random sample.

use vstd::prelude::*;

verus! {

#[verifier::external_type_specification]
#[verifier::external_body]
pub struct ExStdRng(rand::rngs::StdRng);

/// A seeded stream of uniform samples.
pub struct RandomStream {
    inner: rand::rngs::StdRng,
}

impl RandomStream {
    /// Relies on rand's `StdRng::seed_from_u64`: builds a generator whose
    /// output depends on the seed alone.
    #[verifier::external_body]
    pub fn new(seed: u64) -> (r: RandomStream) {
        RandomStream { inner: <rand::rngs::StdRng as rand::SeedableRng>::seed_from_u64(seed) }
    }

    /// Relies on rand's `Rng::gen_range`: a sample uniform in `[lo, hi)`;
    /// the nonempty-range precondition keeps it from panicking.
    #[verifier::external_body]
    pub(crate) fn next_in_range(&mut self, lo: i64, hi: i64) -> (r: i64)
        requires
            lo < hi,
        ensures
            lo <= r < hi,
    {
        rand::Rng::gen_range(&mut self.inner, lo..hi)
    }
}

} // verus!
