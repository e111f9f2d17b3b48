//! The error taxonomy shared by every component of the runtime core.
//!
//! All operations are local and synchronous: each returns either success or
//! one of these kinds. There is no exception-style control flow, no silent
//! failure, and no process to terminate — even fatal conditions such as
//! memory exhaustion surface as ordinary error results.

use vstd::prelude::*;

verus! {

/// Everything that can go wrong inside the runtime core.
#[derive(Clone, Copy, Debug, PartialEq, Eq, Structural)]
pub enum Error {
    /// An index or offset lies outside the valid bounds of a structure.
    OutOfRange,
    /// A checked set found the bit already set.
    AlreadySet,
    /// A checked clear found the bit already clear.
    AlreadyClear,
    /// An allocation request exceeds the number of free blocks.
    InsufficientFree,
    /// A request exceeds the total capacity of the structure.
    InvalidSize,
    /// A freed region does not match the allocator's block granularity.
    Unaligned,
    /// A read was attempted on an empty buffer.
    Empty,
    /// A relative index points at a slot that has not been written yet.
    NotYetWritten,
    /// A lock release was attempted while the lock was not held.
    NotLocked,
    /// A region was constructed from an inverted (end before begin) range.
    InvalidRange,
    /// A bounded search was given a bound beyond the structure, or the found
    /// run ends past the bound.
    OutOfBounds,
}

} // verus!
