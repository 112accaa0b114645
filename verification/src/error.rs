//! The error taxonomy of the bencode codec and of the typed mapping layer.

use vstd::prelude::*;

verus! {

/// A structural bencode decoding or encoding error.
#[derive(Clone, Copy, Debug, PartialEq, Eq, Structural)]
pub enum Error {
    /// The input ended where another byte was owed.
    UnexpectedEnd,
    /// A byte that no production of the grammar allows at its position.
    UnexpectedToken { found: u8, index: usize },
    /// A number with a leading zero (only the literal `0` may start with one).
    LeadingZero,
    /// The integer `-0`, which the format forbids.
    NegativeZero,
    /// The input ended inside the payload of a byte string.
    EofInString,
    /// Input left over after the decoded value (consume-all mode only).
    TrailingBytes,
    /// An integer outside the range this implementation holds,
    /// `-(2^63) ..= 2^64 - 1`.
    OutOfBound,
    /// Dictionary keys not in strictly ascending byte order (encoder only).
    UnsortedKeys,
}

impl Error {
    /// Build an `UnexpectedToken` error for the byte found at an index.
    pub fn unexpected_token(found: u8, index: usize) -> (r: Self)
        ensures
            r == (Error::UnexpectedToken { found, index }),
    {
        Error::UnexpectedToken { found, index }
    }

    /// A short description of the error.
    pub fn message(&self) -> (r: &'static str)
        ensures
            r@ == self.spec_message(),
    {
        match self {
            Error::UnexpectedEnd => "unexpected end of input",
            Error::UnexpectedToken { .. } => "unexpected token",
            Error::LeadingZero => "leading zeros are forbidden",
            Error::NegativeZero => "negative zero is not a valid bencode number",
            Error::EofInString => "unexpected end of input inside a byte string",
            Error::TrailingBytes => "trailing bytes",
            Error::OutOfBound => "integer out of bound",
            Error::UnsortedKeys => "unsorted dictionary keys",
        }
    }

    /// The description `message` returns for each variant.
    pub open spec fn spec_message(&self) -> Seq<char> {
        match self {
            Error::UnexpectedEnd => "unexpected end of input"@,
            Error::UnexpectedToken { .. } => "unexpected token"@,
            Error::LeadingZero => "leading zeros are forbidden"@,
            Error::NegativeZero => "negative zero is not a valid bencode number"@,
            Error::EofInString => "unexpected end of input inside a byte string"@,
            Error::TrailingBytes => "trailing bytes"@,
            Error::OutOfBound => "integer out of bound"@,
            Error::UnsortedKeys => "unsorted dictionary keys"@,
        }
    }
}

/// The four shapes a bencode value can take, used to report mismatches when
/// mapping values onto typed records.
#[derive(Clone, Copy, Debug, PartialEq, Eq, Structural)]
pub enum Shape {
    ByteString,
    Integer,
    List,
    Dictionary,
}

/// An error of the typed mapping layer: decoding a `Value` into an
/// application record.
#[derive(Clone, Copy, Debug, PartialEq, Eq, Structural)]
pub enum DecodingError {
    /// The document itself did not decode.
    Structure(Error),
    /// A required key was absent. The field is named by `FieldName`.
    MissingField { field: FieldName },
    /// A value had the wrong shape for its key.
    TypeMismatch { expected: Shape, actual: Shape },
    /// A byte string that had to be text was not valid UTF-8.
    Utf8,
    /// An integer field that had to be non-negative, or out of range.
    IntegerOutOfRange,
    /// The `pieces` string is not a whole number of 20-byte digests.
    PiecesLengthNotMultipleOf20,
}

impl DecodingError {
    /// A short description of the error.
    pub fn message(&self) -> (r: &'static str)
        ensures
            r@ == self.spec_message(),
    {
        match self {
            DecodingError::Structure(_) => "the document does not decode",
            DecodingError::MissingField { .. } => "a required key is absent",
            DecodingError::TypeMismatch { .. } => "a value has the wrong shape for its key",
            DecodingError::Utf8 => "a text field is not valid UTF-8",
            DecodingError::IntegerOutOfRange => "an integer field is out of range",
            DecodingError::PiecesLengthNotMultipleOf20 => "the pieces string is not a whole number of digests",
        }
    }

    /// The description `message` returns for each variant.
    pub open spec fn spec_message(&self) -> Seq<char> {
        match self {
            DecodingError::Structure(_) => "the document does not decode"@,
            DecodingError::MissingField { .. } => "a required key is absent"@,
            DecodingError::TypeMismatch { .. } => "a value has the wrong shape for its key"@,
            DecodingError::Utf8 => "a text field is not valid UTF-8"@,
            DecodingError::IntegerOutOfRange => "an integer field is out of range"@,
            DecodingError::PiecesLengthNotMultipleOf20 => "the pieces string is not a whole number of digests"@,
        }
    }
}

/// The fields the metainfo mapping can miss.
#[derive(Clone, Copy, Debug, PartialEq, Eq, Structural)]
pub enum FieldName {
    Info,
    Name,
    PieceLength,
    Pieces,
    Length,
    Path,
    MessageIds,
}

} // verus!
