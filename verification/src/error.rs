//! The errors of the container layer and of the pixel codec.

use vstd::prelude::*;

verus! {

/// Why an operation was refused. Every error ends the operation that raised
/// it; none is retried, since each describes the input itself.
#[derive(Clone, Copy, Debug, PartialEq, Eq, Structural)]
pub enum PngError {
    /// The stream does not begin with the eight signature bytes.
    InvalidSignature,
    /// At `offset`, `required` bytes were due and only `available` remain.
    TruncatedStream { offset: usize, required: usize, available: usize },
    /// The chunk that starts at `offset` stores the checksum `stored`, but
    /// its type and data give `computed`.
    ChecksumMismatch { offset: usize, stored: u32, computed: u32 },
    /// The header data holds `available` bytes, fewer than the thirteen it
    /// must have.
    MalformedHeader { available: usize },
    /// The payload has `required` bits and the carrier only `capacity`
    /// channel bytes.
    PayloadTooLarge { required: usize, capacity: usize },
    /// `required` bits were asked for and the carrier has only `capacity`
    /// channel bytes.
    InsufficientCapacity { required: usize, capacity: usize },
    /// The method names a derivation that is not implemented for this
    /// container.
    UnsupportedEncodingMethod,
}

} // verus!
