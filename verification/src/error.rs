//! Error values reported by the read side of the codec.

use vstd::prelude::*;

verus! {

/// A failure while interpreting an untrusted byte buffer.
///
/// Every read-side failure is an ordinary returned value, never a panic:
/// malformed input is rejected, not crashed on.
#[derive(Clone, Copy, Debug, PartialEq, Eq, Structural)]
pub enum ReadError {
    /// A read or a resolved range reached past the end of the buffer.
    OutOfBounds,
    /// A leading discriminant did not match any known record shape.
    /// Carries the raw value for diagnostics.
    UnrecognizedFormat(u32),
    /// An offset was null where a target was required.
    NullOffset,
    /// A font file's leading version word named no known container
    /// format.  Carries the raw value.
    InvalidSfnt(u32),
    /// A collection file did not start with the collection tag.
    /// Carries the raw leading word.
    InvalidTtc(u32),
    /// A font was requested at an index the collection does not have.
    InvalidCollectionIndex(u32),
}

} // verus!
