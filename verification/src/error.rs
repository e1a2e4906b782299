//! The error taxonomy for embedding and extraction.

use vstd::prelude::*;

verus! {

/// Why an embed or extract operation was refused.
#[derive(Debug, Clone, Copy, PartialEq, Eq, Structural)]
pub enum Error {
    /// The surface cannot hold the requested frame(s); raised before any
    /// mutation, so the surface is left exactly as it was.
    InsufficientCapacity,
    /// A read or write was attempted past the last coordinate of the
    /// traversal.
    ExhaustedSequence,
    /// A decoded length header, together with the header itself, would
    /// exceed the surface's capacity.
    HeaderDecodeImplausible,
}

} // verus!
