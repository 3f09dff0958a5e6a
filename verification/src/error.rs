//! Error types for the MiniBit wire protocol

use vstd::prelude::*;

verus! {

/// Errors that can occur during frame encoding or decoding
#[derive(Debug, Clone, Copy, PartialEq, Eq, Structural)]
pub enum Error {
    /// Buffer too small for the operation
    ShortBuffer,
    /// CRC32C checksum mismatch
    CrcMismatch,
    /// Invalid magic number in frame header
    InvalidMagic,
    /// Unsupported protocol version
    UnsupportedVersion,
    /// Unexpected end of frame data
    UnexpectedEof,
    /// Integer overflow in calculations
    Overflow,
    /// Conflicting flags in header
    FlagConflict,
    /// Decode invariant violated (internal consistency error)
    DecodeInvariant,
    /// Unsupported message type
    UnsupportedMsgType,
    /// Invalid varint encoding
    InvalidVarint,
}

/// The text that `Error::description` gives for each error.
pub open spec fn error_text(e: Error) -> Seq<char> {
    match e {
        Error::ShortBuffer => "buffer too small for operation"@,
        Error::CrcMismatch => "CRC32C checksum verification failed"@,
        Error::InvalidMagic => "invalid magic number in frame header"@,
        Error::UnsupportedVersion => "unsupported protocol version"@,
        Error::UnexpectedEof => "unexpected end of frame data"@,
        Error::Overflow => "integer overflow in calculations"@,
        Error::FlagConflict => "conflicting flags in frame header"@,
        Error::DecodeInvariant => "decode invariant violated"@,
        Error::UnsupportedMsgType => "unsupported message type"@,
        Error::InvalidVarint => "invalid varint encoding"@,
    }
}

impl Error {
    /// Returns a human-readable description of the error
    pub fn description(&self) -> (s: &'static str)
        ensures
            s@ == error_text(*self),
    {
        match self {
            Error::ShortBuffer => "buffer too small for operation",
            Error::CrcMismatch => "CRC32C checksum verification failed",
            Error::InvalidMagic => "invalid magic number in frame header",
            Error::UnsupportedVersion => "unsupported protocol version",
            Error::UnexpectedEof => "unexpected end of frame data",
            Error::Overflow => "integer overflow in calculations",
            Error::FlagConflict => "conflicting flags in frame header",
            Error::DecodeInvariant => "decode invariant violated",
            Error::UnsupportedMsgType => "unsupported message type",
            Error::InvalidVarint => "invalid varint encoding",
        }
    }
}

/// Result type alias for MiniBit operations
pub type Result<T> = core::result::Result<T, Error>;

} // verus!
