//! The closed set of error kinds that parsing, validation and lookup return.

use vstd::prelude::*;

verus! {

/// Everything that can go wrong while validating a type code, decoding a
/// byte stream, or looking up a record.
#[derive(Debug, Clone, Copy, PartialEq, Eq)]
pub enum PngError {
    /// Type-code bytes or text fail the ASCII-letter or length constraint.
    /// Where a single byte is at fault, it is carried here.
    TypeError { bad_byte: Option<u8> },
    /// The wire buffer is too short for a declared field.
    FormatError,
    /// The recomputed checksum does not match the stored one: corrupted data.
    IntegrityError,
    /// The payload is not valid UTF-8 where text was requested.
    DecodeError,
    /// No record matches the requested type code.
    NotFoundError,
}

} // verus!
