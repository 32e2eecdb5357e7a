//! The ways in which an operation on chunks or containers can fail.
use vstd::prelude::*;

verus! {

/// Why an operation was refused.
#[derive(Debug, Clone, Copy, PartialEq, Eq, Structural)]
pub enum Error {
    /// A type code is not four ASCII letters.
    InvalidFormat,
    /// A buffer does not start with the eight signature bytes.
    InvalidSignature,
    /// A chunk needs more bytes than the buffer holds.
    UnexpectedEof,
    /// The checksum stored with a chunk is not the checksum of its contents.
    CrcMismatch,
    /// A chunk sequence is empty or does not end with the terminal chunk.
    MissingTerminator,
    /// No chunk of the requested type can be taken from the container.
    NotFound,
    /// A payload is not valid UTF-8.
    EncodingError,
}

} // verus!
