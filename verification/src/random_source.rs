//! The injected source of randomness.
//!
//! The generator never produces its own entropy: every random draw goes
//! through [`RandomSource`], so a deterministic source makes the whole
//! generation deterministic and testable.

use vstd::prelude::*;

verus! {

/// A uniform integer generator over a half-open range.
///
/// Implementations decide the distribution; the contract only pins the
/// range, which is all the map generator relies on.
pub trait RandomSource {
    /// Draw a value in `[lo, hi)`. The width of the range must be
    /// representable, which every caller in this crate satisfies trivially.
    fn next_in_range(&mut self, lo: isize, hi: isize) -> (r: isize)
        requires
            lo < hi,
            hi - lo <= isize::MAX,
        ensures
            lo <= r < hi,
    ;
}

/// A small deterministic linear congruential generator, handy as a default
/// `RandomSource` and for reproducing a map from a seed.
pub struct Lcg {
    pub state: u64,
}

impl Lcg {
    /// Start the stream at `seed`.
    pub fn new(seed: u64) -> (r: Self)
        ensures
            r.state == seed,
    {
        Lcg { state: seed }
    }
}

impl RandomSource for Lcg {
    /// Advance the stream and reduce the draw into `[lo, hi)`.
    fn next_in_range(&mut self, lo: isize, hi: isize) -> (r: isize) {
        self.state = self.state.wrapping_mul(6364136223846793005).wrapping_add(1442695040888963407);
        let span = (hi - lo) as usize;
        let offset = (#[verifier::truncate] ((self.state >> 16) as usize)) % span;
        lo + offset as isize
    }
}

} // verus!
