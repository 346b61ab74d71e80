//! Closed error taxonomy: binary decoding errors and extraction errors.

use vstd::prelude::*;

verus! {

/// Failure of the maker-note / directory decoder. Every malformed input path
/// returns one of these; no decode path panics.
#[derive(Clone, Copy, PartialEq, Eq, Structural, Debug)]
pub enum DecodeError {
    /// The blob is too small to hold what the format requires.
    TooShort,
    /// The footer's byte-order marker is neither of the two defined markers;
    /// carries the 16-bit value that was found.
    InvalidByteOrderMarker(u16),
    /// The footer's fixed magic constant is not 42; carries the value found.
    BadMagic(u16),
    /// An entry uses a type code with no defined element width; carries the code.
    UnsupportedType(u16),
    /// An entry's `width * count` does not fit the format's 32-bit address
    /// space; carries the entry's tag.
    Overflow(u16),
    /// An entry's out-of-line data does not lie inside the buffer; carries the
    /// entry's tag.
    OutOfBounds(u16),
}

/// Failure of the metadata extraction protocol. `Unsupported*` variants mark
/// well-formed input outside the supported domain; the others mark
/// structurally malformed or inconsistent field content.
#[derive(Clone, Copy, PartialEq, Eq, Structural, Debug)]
pub enum MetaError {
    /// A required field is absent from the tag store; carries the tag.
    MissingField(u16),
    /// A field holds a value of the wrong variant; carries the tag.
    WrongType(u16),
    /// A field does not hold exactly one element; carries the tag.
    WrongCardinality(u16),
    /// The version field's digits are not numeric ASCII.
    BadVersionDigits,
    /// The metadata format version is below the supported minimum.
    UnsupportedVersion,
    /// The sensitivity type code is outside the seven defined codes.
    UnsupportedSensitivityType(u16),
    /// The manufacturer is not the one whose maker note is supported.
    UnsupportedMake,
    /// The maker-note blob failed to decode.
    MakerNote(DecodeError),
    /// No directory entry carries the shot-information tag.
    MissingShotInfo,
    /// The shot-information entry is not an unsigned 16-bit array.
    ShotInfoNotShort,
    /// The shot-information array is too short to hold the temperature element.
    ShotInfoTooShort,
}

impl MetaError {
    /// Whether this error marks recognized-but-unhandled input, as opposed to
    /// malformed input.
    pub open spec fn spec_is_unsupported(self) -> bool {
        match self {
            MetaError::UnsupportedVersion => true,
            MetaError::UnsupportedSensitivityType(_) => true,
            MetaError::UnsupportedMake => true,
            _ => false,
        }
    }

    pub fn is_unsupported(&self) -> (r: bool)
        ensures
            r == self.spec_is_unsupported(),
    {
        match self {
            MetaError::UnsupportedVersion => true,
            MetaError::UnsupportedSensitivityType(_) => true,
            MetaError::UnsupportedMake => true,
            _ => false,
        }
    }
}

} // verus!
