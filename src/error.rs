use vstd::prelude::*;

verus! {

/// Failure kinds of the storage core.
#[derive(Debug, Clone, Copy, PartialEq, Eq, Structural)]
pub enum Error {
    /// A chunk's digest or size disagrees with what the client declared.
    IntegrityMismatch,
    /// `finalize` found a different number of receipts than announced.
    ChunkCountMismatch,
    /// An optimistic content update lost against a concurrent writer.
    VersionConflict,
    /// Unknown block, file or session.
    NotFound,
    /// The caller does not own the session or file.
    Unauthorized,
    /// A sibling with the same name already exists.
    AlreadyExists,
    /// The request itself is malformed (empty name, a directory with content).
    InvalidInput,
    /// The wall clock went backwards; no further identifiers may be issued.
    ClockRegression,
    /// The wall clock reads a time that the identifier layout cannot hold.
    ClockOutOfRange,
    /// Every sequence number of the current millisecond has been used.
    SequenceExhausted,
    /// No fresh unique name could be drawn: the clock read before 1970, the operating
    /// system's random source failed, or two names of one batch collided.
    IdUnavailable,
    /// The block backend failed to read or write.
    StorageIO,
    /// A size or version counter would exceed its integer range.
    LimitExceeded,
}

} // verus!
