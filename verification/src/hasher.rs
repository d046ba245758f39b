//! A pass-through 64-bit hasher state.
//!
//! The container keys its table by exact identity values, so it never feeds
//! elements through a hash function itself; callers that precompute 64-bit
//! digests can route them through this state unchanged.

use vstd::prelude::*;

verus! {

/// Builder for [`NoHashHasher`]: it carries no seed, so every hasher it
/// hands out starts from zero.
#[derive(Clone, Copy, Debug, Default, PartialEq, Eq, Structural)]
pub struct NoHashBuildHasher;

impl NoHashBuildHasher {
    /// Creates the builder.
    pub fn new() -> (r: Self)
        ensures
            r == NoHashBuildHasher,
    {
        NoHashBuildHasher
    }

    /// Hands out a hasher whose state starts at zero.
    pub fn build_hasher(&self) -> (r: NoHashHasher)
        ensures
            r.0 == 0,
    {
        NoHashHasher(0)
    }
}

/// A hasher state that stores the one 64-bit value written to it and hands
/// it back unchanged.
pub struct NoHashHasher(pub u64);

impl NoHashHasher {
    /// The state accumulated so far.
    pub fn finish(&self) -> (r: u64)
        ensures
            r == self.0,
    {
        self.0
    }

    /// Replaces the state with the written value.
    pub fn write_u64(&mut self, i: u64)
        ensures
            final(self).0 == i,
    {
        self.0 = i;
    }
}

} // verus!
