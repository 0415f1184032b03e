//! Errors raised while decoding an archive.
//!
//! Every validation failure aborts the whole decode: no partial result is
//! ever returned. `ErrorSpec` is the mathematical image of an `Error`, used
//! by the decoder contracts.

use vstd::prelude::*;

verus! {

/// XOR mask tying `head`/`tail` to their detection copies in the encoded
/// header variant.
pub const HEAD_TAIL_XOR: u8 = 0x11;

/// XOR mask tying the encoded header's integer token to its detection copy.
pub const ENCODE_VALUE_XOR: u32 = 0x016B4423;

/// Why a decode failed.
#[derive(Debug)]
pub enum Error {
    /// The source ended in the middle of a field, or a stored byte range
    /// reaches outside the source.
    UnexpectedEof,
    /// A separator byte did not hold any of the values the format allows
    /// at that index.
    InvalidControlByte { index: usize, expected_one_of: [u8; 2], obtained: u8 },
    /// The version field held neither accepted value.
    InvalidVersion { expected: u32, obtained: u32 },
    /// The encoded variant's `detect_head` byte did not match `head`.
    InvalidDetectHead { head: u8, detect_head: u8 },
    /// The encoded variant's `detect_tail` byte did not match `tail`.
    InvalidDetectTail { tail: u8, detect_tail: u8 },
    /// An encoded integer token was not valid UTF-8.
    InvalidEncodeUtf8 { detection_value: bool, bytes: Vec<u8> },
    /// An encoded integer token did not parse as a decimal integer.
    InvalidEncodeInteger { detection_value: bool, string: String },
    /// The detection copy of the encoded integer did not match.
    EncodeValueMismatch { encode_value: u32, detect_encode_value: u32 },
    /// A directory block held an entry whose type code is neither a
    /// resource nor a directory; such an entry is never skipped.
    UnknownEntryType { type_code: u32 },
    /// Nested directory blocks exceeded the decoder's depth bound.
    TooDeep,
}

/// The mathematical image of an `Error`.
pub ghost enum ErrorSpec {
    UnexpectedEof,
    InvalidControlByte { index: int, expected_one_of: Seq<u8>, obtained: u8 },
    InvalidVersion { expected: u32, obtained: u32 },
    InvalidDetectHead { head: u8, detect_head: u8 },
    InvalidDetectTail { tail: u8, detect_tail: u8 },
    InvalidEncodeUtf8 { detection_value: bool, bytes: Seq<u8> },
    InvalidEncodeInteger { detection_value: bool, string: Seq<char> },
    EncodeValueMismatch { encode_value: u32, detect_encode_value: u32 },
    UnknownEntryType { type_code: u32 },
    TooDeep,
}

impl View for Error {
    type V = ErrorSpec;

    open spec fn view(&self) -> ErrorSpec {
        match self {
            Error::UnexpectedEof => ErrorSpec::UnexpectedEof,
            Error::InvalidControlByte { index, expected_one_of, obtained } => {
                ErrorSpec::InvalidControlByte {
                    index: *index as int,
                    expected_one_of: expected_one_of@,
                    obtained: *obtained,
                }
            },
            Error::InvalidVersion { expected, obtained } => {
                ErrorSpec::InvalidVersion { expected: *expected, obtained: *obtained }
            },
            Error::InvalidDetectHead { head, detect_head } => {
                ErrorSpec::InvalidDetectHead { head: *head, detect_head: *detect_head }
            },
            Error::InvalidDetectTail { tail, detect_tail } => {
                ErrorSpec::InvalidDetectTail { tail: *tail, detect_tail: *detect_tail }
            },
            Error::InvalidEncodeUtf8 { detection_value, bytes } => {
                ErrorSpec::InvalidEncodeUtf8 { detection_value: *detection_value, bytes: bytes@ }
            },
            Error::InvalidEncodeInteger { detection_value, string } => {
                ErrorSpec::InvalidEncodeInteger {
                    detection_value: *detection_value,
                    string: string@,
                }
            },
            Error::EncodeValueMismatch { encode_value, detect_encode_value } => {
                ErrorSpec::EncodeValueMismatch {
                    encode_value: *encode_value,
                    detect_encode_value: *detect_encode_value,
                }
            },
            Error::UnknownEntryType { type_code } => {
                ErrorSpec::UnknownEntryType { type_code: *type_code }
            },
            Error::TooDeep => ErrorSpec::TooDeep,
        }
    }
}

} // verus!
