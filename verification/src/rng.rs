//! The explicit source of randomness the simulation threads through every
//! stochastic step, and the source of fresh agent identities.
//!
//! The generator is rand's `StdRng`, seeded explicitly so that runs are
//! deterministic and tests can replay them. Nothing is assumed of a drawn
//! value beyond its range.

use vstd::prelude::*;
use rand::Rng;
use rand::SeedableRng;

verus! {

/// rand's standard generator, declared so a field can hold one.
#[verifier::external_type_specification]
#[verifier::external_body]
pub struct ExStdRng(rand::rngs::StdRng);

/// A seeded pseudo-random generator.
pub struct RandomSource {
    inner: rand::rngs::StdRng,
}

impl RandomSource {
    /// Relies on rand's `StdRng::seed_from_u64`: builds a deterministic
    /// generator from the seed.
    #[verifier::external_body]
    pub fn new(seed: u64) -> (r: RandomSource) {
        RandomSource { inner: rand::rngs::StdRng::seed_from_u64(seed) }
    }

    /// Relies on rand's `Rng::gen_range` over `0..n`: returns a uniform
    /// value below `n`. The call panics only on an empty range, which the
    /// precondition excludes.
    #[verifier::external_body]
    pub fn below(&mut self, n: u64) -> (r: u64)
        requires
            n >= 1,
        ensures
            r < n,
    {
        self.inner.gen_range(0..n)
    }

    /// A uniform draw from `[0, n)` as a signed value.
    pub fn below_i64(&mut self, n: i64) -> (r: i64)
        requires
            1 <= n,
        ensures
            0 <= r < n,
    {
        let d = self.below(n as u64);
        d as i64
    }

    /// One chance in `n`: true with probability `1 / n`.
    pub fn one_in(&mut self, n: u64) -> (r: bool)
        requires
            n >= 1,
    {
        self.below(n) == 0
    }
}

/// Fresh agent identities: a counter, so that an identity handed out once is
/// never handed out again.
pub struct IdGen {
    pub next: u64,
}

impl IdGen {
    pub fn new() -> (r: IdGen)
        ensures
            r.next == 0,
    {
        IdGen { next: 0 }
    }

    /// The next unused identity.
    pub fn fresh(&mut self) -> (r: u64)
        requires
            old(self).next < u64::MAX,
        ensures
            r == old(self).next,
            final(self).next == old(self).next + 1,
    {
        let r = self.next;
        self.next = self.next + 1;
        r
    }
}

} // verus!
