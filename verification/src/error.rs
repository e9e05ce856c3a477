//! The decode error taxonomy: every way a malformed or truncated buffer
//! can fail, as explicit values rather than assertions.

use vstd::prelude::*;

verus! {

/// Why a decode failed. Every structural violation of the wire format is
/// reported through its own variant, so malformed input degrades to an error
/// value instead of aborting the process.
#[derive(Debug, Clone, PartialEq)]
pub enum DecodeError {
    /// A read would pass the end of the buffer, or a declared element count
    /// implies more data than the buffer holds.
    Truncated,
    /// The container's nullability flag held something other than 1.
    BadPresence(i32),
    /// A negative byte length where a non-negative one is required.
    NegativeLength(i32),
    /// A negative element count.
    BadCount(i32),
    /// After decoding a length-prefixed value the cursor did not sit exactly
    /// at the start of the payload plus its declared length.
    LengthMismatch,
    /// A tag the protocol knows but this decoder does not implement.
    UnsupportedValueKind(i32),
    /// A polymorphic record named a type with no registered creator; the
    /// missing name is carried along.
    NameNotFound(String),
    /// A String8 field lacked its NUL terminator.
    MissingTerminator,
    /// A string field held bytes that are not valid UTF-8.
    InvalidUtf8,
    /// A power-monitor record carried an unknown monitor kind code.
    UnknownMonitorKind(i32),
}

/// The mathematical image of a `DecodeError`: identical, except that the
/// missing type name is a character sequence.
pub enum DecodeErrorV {
    Truncated,
    BadPresence(i32),
    NegativeLength(i32),
    BadCount(i32),
    LengthMismatch,
    UnsupportedValueKind(i32),
    NameNotFound(Seq<char>),
    MissingTerminator,
    InvalidUtf8,
    UnknownMonitorKind(i32),
}

impl View for DecodeError {
    type V = DecodeErrorV;

    open spec fn view(&self) -> DecodeErrorV {
        match self {
            DecodeError::Truncated => DecodeErrorV::Truncated,
            DecodeError::BadPresence(x) => DecodeErrorV::BadPresence(*x),
            DecodeError::NegativeLength(x) => DecodeErrorV::NegativeLength(*x),
            DecodeError::BadCount(x) => DecodeErrorV::BadCount(*x),
            DecodeError::LengthMismatch => DecodeErrorV::LengthMismatch,
            DecodeError::UnsupportedValueKind(x) => DecodeErrorV::UnsupportedValueKind(*x),
            DecodeError::NameNotFound(s) => DecodeErrorV::NameNotFound(s@),
            DecodeError::MissingTerminator => DecodeErrorV::MissingTerminator,
            DecodeError::InvalidUtf8 => DecodeErrorV::InvalidUtf8,
            DecodeError::UnknownMonitorKind(x) => DecodeErrorV::UnknownMonitorKind(*x),
        }
    }
}

} // verus!
