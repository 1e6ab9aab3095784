//! The seeded random source used to draw initial synapse weights and types.
//!
//! The generator is `rand`'s `StdRng`, seeded from a caller-supplied 64-bit
//! seed so that construction is reproducible.  In the version built here,
//! `StdRng` wraps the ChaCha block cipher with 12 rounds (the `chacha20`
//! crate), a pure function of its seed: the whole stream of draws is
//! determined by the seed and by the bounds of the draws made so far, which
//! is what `std_rng_range` names.

use vstd::prelude::*;

verus! {

#[verifier::external_type_specification]
#[verifier::external_body]
pub struct ExStdRng(rand::rngs::StdRng);

/// The value `rand`'s `RngExt::random_range(lo..hi)` returns from a `StdRng`
/// seeded with `seed` after the draws in `history` (each recorded by its
/// bounds) have been made.  ChaCha12 is a deterministic cipher, so this is a
/// function of those arguments alone.
pub uninterp spec fn std_rng_range(seed: u64, history: Seq<(u64, u64)>, lo: u64, hi: u64) -> u64;

/// A `StdRng` together with the seed and the draw history that determine its
/// state.
pub struct SeededRng {
    inner: rand::rngs::StdRng,
    seed: Ghost<u64>,
    history: Ghost<Seq<(u64, u64)>>,
}

impl SeededRng {
    pub closed spec fn seed(&self) -> u64 {
        self.seed@
    }

    pub closed spec fn history(&self) -> Seq<(u64, u64)> {
        self.history@
    }

    /// A generator seeded with `seed`, before any draw.
    pub fn new(seed: u64) -> (r: SeededRng)
        ensures
            r.seed() == seed,
            r.history() == Seq::<(u64, u64)>::empty(),
    {
        SeededRng {
            inner: std_rng_from_seed(seed),
            seed: Ghost(seed),
            history: Ghost(Seq::empty()),
        }
    }

    /// Relies on `rand::RngExt::random_range`: a uniform draw in `[lo, hi)`,
    /// which panics on an empty range and otherwise returns a value of the
    /// deterministic stream.
    #[verifier::external_body]
    pub fn random_range(&mut self, lo: u64, hi: u64) -> (r: u64)
        requires
            lo < hi,
        ensures
            lo <= r < hi,
            r == std_rng_range(old(self).seed(), old(self).history(), lo, hi),
            final(self).seed() == old(self).seed(),
            final(self).history() == old(self).history().push((lo, hi)),
    {
        rand::RngExt::random_range(&mut self.inner, lo..hi)
    }
}

/// Relies on `rand_core::SeedableRng::seed_from_u64`: a deterministic
/// expansion of the 64-bit seed into the generator's state.
#[verifier::external_body]
fn std_rng_from_seed(seed: u64) -> rand::rngs::StdRng {
    <rand::rngs::StdRng as rand::SeedableRng>::seed_from_u64(seed)
}

} // verus!
