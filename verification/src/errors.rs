//! Error taxonomy of the archive engine.
use vstd::prelude::*;

verus! {

/// What went wrong while creating, reading, or checking an archive.
#[derive(Clone, Copy, Debug, PartialEq, Eq, Structural)]
pub enum ArchiveError {
    /// Bad magic, bad version, an unknown algorithm byte, or a short read:
    /// the bytes are not a well-formed container.
    Format,
    /// A stored digest does not match the recomputed one, or a stored size
    /// does not match the bytes it describes.
    Integrity,
    /// An offset or length points outside the file or its section.
    Bounds,
    /// A compression codec failed.
    Codec,
    /// A precondition of the operation does not hold, such as an input set
    /// too large for the counters of the format.
    Precondition,
}

impl ArchiveError {
    /// A short description of the error.
    pub fn message(&self) -> (r: &'static str)
        ensures
            r@ == spec_message(*self),
    {
        match self {
            ArchiveError::Format => "invalid archive format",
            ArchiveError::Integrity => "integrity check failed",
            ArchiveError::Bounds => "offset or length out of bounds",
            ArchiveError::Codec => "compression codec failure",
            ArchiveError::Precondition => "operation precondition not met",
        }
    }
}

/// The description `message` returns for each error.
pub open spec fn spec_message(e: ArchiveError) -> Seq<char> {
    match e {
        ArchiveError::Format => "invalid archive format"@,
        ArchiveError::Integrity => "integrity check failed"@,
        ArchiveError::Bounds => "offset or length out of bounds"@,
        ArchiveError::Codec => "compression codec failure"@,
        ArchiveError::Precondition => "operation precondition not met"@,
    }
}

} // verus!
