//! Stable per-connection peer identifiers.
//!
//! The transport layer assigns each connection a 128-bit identifier. The
//! library stores it as two 64-bit halves; equality is bitwise.

use vstd::prelude::*;

verus! {

/// Identifier of one peer connection, assigned by the signaling layer.
/// A reconnecting peer receives a fresh identifier.
#[derive(Clone, Copy, PartialEq, Eq, Structural, Hash, Debug)]
pub struct PeerId {
    /// Most significant 64 bits of the 128-bit identifier.
    pub hi: u64,
    /// Least significant 64 bits of the 128-bit identifier.
    pub lo: u64,
}

impl PeerId {
    /// Builds an identifier from its two 64-bit halves.
    pub fn new(hi: u64, lo: u64) -> (r: PeerId)
        ensures
            r.hi == hi,
            r.lo == lo,
    {
        PeerId { hi, lo }
    }
}

} // verus!
