//! The errors of the archive engine.

use crate::refpack::decompress::Error as RefPackError;
use vstd::prelude::*;

verus! {

/// Why an archive, or one of its chunks, could not be read or written.
#[derive(Debug, Clone, Copy, PartialEq, Eq, Structural)]
pub enum Error {
    /// The file does not start with the bytes `DBPF`.
    BadMagic,
    /// The header names a version other than 2.0 with index version 7.3, or
    /// a name map names a version other than 1.
    BadVersion,
    /// The input ended where more bytes were required.
    TruncatedInput,
    /// The index size in the header is not the size that the mask and the
    /// entry count give.
    IndexMismatch,
    /// A compressed chunk holds an invalid RefPack stream.
    CompressionFailed(RefPackError),
    /// A parser was handed an entry of another resource type.
    WrongResourceType,
    /// A chunk handle was presented to a reader that it does not belong to.
    BrandMismatch,
    /// A chunk that lives in a file was asked of a context without a file.
    NoReader,
    /// The archive does not fit the 32-bit sizes and offsets of the format.
    TooLarge,
    /// A seek to a position before the start of the stream, or past the
    /// largest position.
    InvalidSeek,
}

impl Error {
    /// A short, fixed description of the error.
    pub fn description(&self) -> (s: &'static str)
        ensures
            s@ == match *self {
                Error::BadMagic => "Not a DBPF archive."@,
                Error::BadVersion => "Unsupported format version."@,
                Error::TruncatedInput => "Unexpected end of input."@,
                Error::IndexMismatch => "The index size does not match the index."@,
                Error::CompressionFailed(e) => match e {
                    RefPackError::ExpectedAnotherByte => "Expected another byte, found none."@,
                    RefPackError::OffsetOutOfBounds => "The offset to copy is not contained in the decompressed buffer."@,
                    RefPackError::InvalidMagic => "Invalid compression magic."@,
                },
                Error::WrongResourceType => "Not an NMAP tag."@,
                Error::BrandMismatch => "The chunk belongs to another reader."@,
                Error::NoReader => "Unable to get chunk reader from unwritten file!"@,
                Error::TooLarge => "The archive is too large for the format."@,
                Error::InvalidSeek => "Invalid seek to a negative or overflowing position."@,
            },
    {
        match self {
            Error::BadMagic => "Not a DBPF archive.",
            Error::BadVersion => "Unsupported format version.",
            Error::TruncatedInput => "Unexpected end of input.",
            Error::IndexMismatch => "The index size does not match the index.",
            Error::CompressionFailed(e) => e.description(),
            Error::WrongResourceType => "Not an NMAP tag.",
            Error::BrandMismatch => "The chunk belongs to another reader.",
            Error::NoReader => "Unable to get chunk reader from unwritten file!",
            Error::TooLarge => "The archive is too large for the format.",
            Error::InvalidSeek => "Invalid seek to a negative or overflowing position.",
        }
    }
}

} // verus!
