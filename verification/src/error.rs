//! What can go wrong while encoding or decoding.

use vstd::prelude::*;

verus! {

/// Why an encode or decode step was refused.
///
/// The first two come from misuse of a schema by the caller; the others from the
/// bytes that were handed in.
#[derive(Debug, Clone, Copy, PartialEq, Eq, Structural)]
pub enum MessageError {
    /// An accessor met a chunk of another kind, a chunk with a width outside
    /// one to eight, or no chunk at all.
    SchemaMismatch,
    /// `finalize` was called before every schema position was written or read.
    IncompleteSchema,
    /// The bytes end before the field does.
    OutOfBounds,
    /// The container carries a tag that names no message kind.
    UnknownMessageTag,
    /// A record stream ends in the middle of a record.
    CorruptRecordStream,
    /// A text field holds bytes that are not UTF-8.
    InvalidUtf8,
    /// A status field holds a number that names no player status.
    InvalidStatus,
}

} // verus!
