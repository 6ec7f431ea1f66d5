//! The ways in which decoding can fail.

use vstd::prelude::*;
use vstd::utf8::{decode_utf8, valid_utf8};

verus! {

/// `core::str::Utf8Error`, carried as it comes: nothing is said of what it holds.
#[verifier::external_type_specification]
#[verifier::external_body]
pub struct ExUtf8Error(core::str::Utf8Error);

/// `core::str::from_utf8`: succeeds exactly on UTF-8, and the text it gives is
/// what the bytes spell.
#[verifier::external_body]
pub(crate) fn utf8_text(bytes: &[u8]) -> (r: Result<&str, core::str::Utf8Error>)
    ensures
        r is Ok <==> valid_utf8(bytes@),
        r matches Ok(s) ==> s@ == decode_utf8(bytes@),
{
    core::str::from_utf8(bytes)
}

/// Why a buffer did not yield a frame.
///
/// `NotComplete` is the routine outcome of a partial read: the bytes seen so far
/// are not enough to decide, and the caller retries once more have arrived. Every
/// other variant says that the bytes can never become a frame.
#[derive(Debug, PartialEq, Eq)]
pub enum RespError {
    /// The bytes are structurally wrong; the text says in which way.
    InvalidFrame(String),
    /// The leading byte, or a fixed literal, is not the expected one; the text
    /// names what was expected.
    InvalidFrameType(String),
    /// A length or count field holds a negative number that is not the null
    /// marker of its frame type.
    InvalidFrameLength(isize),
    /// More bytes are needed.
    NotComplete,
    /// A text body is not UTF-8.
    Utf8Error(core::str::Utf8Error),
}

/// A `RespError` without its explanatory payloads: what contracts speak of.
pub enum ErrorKind {
    InvalidFrame,
    InvalidFrameType,
    InvalidFrameLength(isize),
    NotComplete,
    Utf8Error,
}

impl RespError {
    pub open spec fn kind(&self) -> ErrorKind {
        match self {
            RespError::InvalidFrame(_) => ErrorKind::InvalidFrame,
            RespError::InvalidFrameType(_) => ErrorKind::InvalidFrameType,
            RespError::InvalidFrameLength(n) => ErrorKind::InvalidFrameLength(*n),
            RespError::NotComplete => ErrorKind::NotComplete,
            RespError::Utf8Error(_) => ErrorKind::Utf8Error,
        }
    }

    /// Whether the caller should wait for more bytes and try again.
    pub fn is_incomplete(&self) -> (b: bool)
        ensures
            b == (self.kind() == ErrorKind::NotComplete),
    {
        match self {
            RespError::NotComplete => true,
            _ => false,
        }
    }
}

} // verus!
