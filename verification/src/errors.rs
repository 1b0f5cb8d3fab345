//! Errors raised by a circuit-PSI run.
//!
//! A run either completes with a valid [`crate::Intersection`] or aborts with
//! one of these; partial results are never returned.

use vstd::prelude::*;

verus! {

/// Why a protocol run was aborted.
#[derive(Clone, Copy, Debug, PartialEq, Eq, Structural)]
pub enum Error {
    /// A primary key does not have exactly `PRIMARY_KEY_SIZE` bytes.
    InvalidKeyLength,
    /// A party's payload count differs from its key count.
    PayloadLengthMismatch,
    /// The sender's mask count differs from its key count.
    MaskLengthMismatch,
    /// The programmable-PRF miss values cover fewer entries than the
    /// receiver's set.
    MissLengthMismatch,
}

} // verus!
