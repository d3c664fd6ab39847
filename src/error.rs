//! The errors that the library reports.
use vstd::prelude::*;

verus! {

/// Why an operation of the library was refused.
#[derive(Clone, Copy, Debug, PartialEq, Eq, Structural)]
pub enum BloomError {
    /// A bit array was asked for with more bytes than this machine can address,
    /// or with more bits than a `u64` can count.
    SizeTooLarge,
    /// A filter that selects positions for each element was asked for with no bits.
    InvalidArgument,
    /// Two filters differ in their number of positions per element, in their
    /// bit count, or in their hash function.
    IncompatibleFilters,
    /// A filter that relies on the host's default hash cannot be saved.
    InvalidState,
    /// A saved filter ended before its record was complete.
    UnexpectedEof,
}

} // verus!
