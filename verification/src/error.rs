//! The ways in which decoding or editing a file can fail.

use vstd::prelude::*;

verus! {

/// The kind of a [`ChunkError`], without the detail that it may carry.
#[derive(Debug, Copy, Clone, PartialEq, Eq, Structural)]
pub enum ErrorKind {
    /// A sequence of bytes of an invalid length was found.
    InvalidLen,
    /// A stored checksum differs from the one computed again from the data.
    ChecksumFail,
    /// The bytes do not start with the magic bytes of the format.
    IllegalHeader,
    /// An index points past the last chunk.
    NonExistentChunk,
    /// The number of chunks is not the product of the dimensions.
    DimensionMismatch,
    /// A dimension read from the bytes does not fit the machine's word.
    ByteParseFail,
}

/// Everything that can go wrong while decoding or editing a file.
#[derive(Debug)]
pub enum ChunkError {
    /// A sequence of bytes of an invalid length was found.
    InvalidLen,
    /// A stored checksum differs from the one computed again from the data.
    ChecksumFail,
    /// The bytes do not start with the magic bytes of the format.
    IllegalHeader,
    /// An index points past the last chunk.
    NonExistentChunk,
    /// The number of chunks is not the product of the dimensions.
    DimensionMismatch,
    /// A dimension read from the bytes does not fit the machine's word.
    ByteParseFail(core::num::TryFromIntError),
}

impl ChunkError {
    /// The kind of this error.
    pub open spec fn kind_spec(&self) -> ErrorKind {
        match self {
            ChunkError::InvalidLen => ErrorKind::InvalidLen,
            ChunkError::ChecksumFail => ErrorKind::ChecksumFail,
            ChunkError::IllegalHeader => ErrorKind::IllegalHeader,
            ChunkError::NonExistentChunk => ErrorKind::NonExistentChunk,
            ChunkError::DimensionMismatch => ErrorKind::DimensionMismatch,
            ChunkError::ByteParseFail(_) => ErrorKind::ByteParseFail,
        }
    }

    /// The kind of this error.
    #[verifier::when_used_as_spec(kind_spec)]
    pub fn kind(&self) -> (kind: ErrorKind)
        ensures
            kind == self.kind_spec(),
    {
        match self {
            ChunkError::InvalidLen => ErrorKind::InvalidLen,
            ChunkError::ChecksumFail => ErrorKind::ChecksumFail,
            ChunkError::IllegalHeader => ErrorKind::IllegalHeader,
            ChunkError::NonExistentChunk => ErrorKind::NonExistentChunk,
            ChunkError::DimensionMismatch => ErrorKind::DimensionMismatch,
            ChunkError::ByteParseFail(_) => ErrorKind::ByteParseFail,
        }
    }

    /// The message that describes this error.
    pub fn message(&self) -> (text: &'static str)
        ensures
            text@ == self.message_spec(),
    {
        match self {
            ChunkError::InvalidLen => "A sequence of bytes of an invalid length was found.",
            ChunkError::ChecksumFail => "A checksum check has failed. This may mean that the data has been modified or corrupted.",
            ChunkError::IllegalHeader => "A illegal header was found in the file.",
            ChunkError::NonExistentChunk => "An access to a non-existent chunk was attempted.",
            ChunkError::DimensionMismatch => "The dimensions do not correspond to the amount of chunks in the file.",
            ChunkError::ByteParseFail(_) => "Failed to parse bytes",
        }
    }

    /// The text of [`ChunkError::message`].
    pub open spec fn message_spec(&self) -> Seq<char> {
        match self {
            ChunkError::InvalidLen => "A sequence of bytes of an invalid length was found."@,
            ChunkError::ChecksumFail => "A checksum check has failed. This may mean that the data has been modified or corrupted."@,
            ChunkError::IllegalHeader => "A illegal header was found in the file."@,
            ChunkError::NonExistentChunk => "An access to a non-existent chunk was attempted."@,
            ChunkError::DimensionMismatch => "The dimensions do not correspond to the amount of chunks in the file."@,
            ChunkError::ByteParseFail(_) => "Failed to parse bytes"@,
        }
    }
}

} // verus!
