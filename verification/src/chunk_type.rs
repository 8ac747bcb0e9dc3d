//! Four-byte ASCII type codes and their bit-encoded flags.
//!
//! Each of the four bytes must be an ASCII letter. Bit 5 of a byte (value
//! 0x20, counting from the least-significant bit) decides the flag that the
//! byte carries: ancillary-or-critical, public-or-private, reserved-bit
//! validity and safe-to-copy for bytes 0 to 3 respectively.

use vstd::prelude::*;

use crate::errors::PngError;
use crate::text::ascii_chars_of;
use crate::text::ascii_to_string;
use vstd::string::StrSliceExecFns;

verus! {

/// An ASCII letter: `A`..`Z` or `a`..`z`.
pub open spec fn is_letter(b: u8) -> bool {
    (65 <= b && b <= 90) || (97 <= b && b <= 122)
}

/// A character whose code point is an ASCII letter.
pub open spec fn is_letter_char(c: char) -> bool {
    (65 <= (c as u32) && (c as u32) <= 90) || (97 <= (c as u32) && (c as u32) <= 122)
}

/// Bit 5 of the byte, in a fixed eight-bit view of it.
pub open spec fn bit5_set(b: u8) -> bool {
    b & 0x20 != 0
}

/// The error that rejecting four candidate type bytes reports: the first
/// byte, in order, that is not an ASCII letter.
pub open spec fn bytes_error(s: Seq<u8>) -> PngError
    recommends
        s.len() == 4,
{
    if !is_letter(s[0]) {
        PngError::TypeError { bad_byte: Some(s[0]) }
    } else if !is_letter(s[1]) {
        PngError::TypeError { bad_byte: Some(s[1]) }
    } else if !is_letter(s[2]) {
        PngError::TypeError { bad_byte: Some(s[2]) }
    } else {
        PngError::TypeError { bad_byte: Some(s[3]) }
    }
}

/// The error that rejecting a candidate type-code character reports: its code
/// point where it fits in a byte.
pub open spec fn char_error(c: char) -> PngError {
    if (c as u32) < 256 {
        PngError::TypeError { bad_byte: Some(c as u8) }
    } else {
        PngError::TypeError { bad_byte: None }
    }
}

/// The error that rejecting a candidate type-code text reports: a wrong
/// length carries no byte; otherwise the first character that is not an
/// ASCII letter is at fault.
pub open spec fn text_error(text: Seq<char>) -> PngError {
    if text.len() != 4 {
        PngError::TypeError { bad_byte: None }
    } else if !is_letter_char(text[0]) {
        char_error(text[0])
    } else if !is_letter_char(text[1]) {
        char_error(text[1])
    } else if !is_letter_char(text[2]) {
        char_error(text[2])
    } else {
        char_error(text[3])
    }
}

/// A validated four-byte type code. The bytes never change after
/// construction; equality is byte-wise.
#[derive(Debug, Clone, Copy, PartialEq, Eq)]
pub struct ChunkType {
    bytes: [u8; 4],
}

impl View for ChunkType {
    type V = Seq<u8>;

    closed spec fn view(&self) -> Seq<u8> {
        self.bytes@
    }
}

impl ChunkType {
    /// The bytes are four ASCII letters: what every constructor establishes.
    pub open spec fn wf(&self) -> bool {
        &&& self@.len() == 4
    &&& forall|i: int| 0 <= i < 4 ==> is_letter(#[trigger] self@[i])
    }

    /// The four raw bytes of the code.
    pub fn bytes(&self) -> (r: [u8; 4])
        ensures
            r@ == self@,
    {
        self.bytes
    }

    /// Accepts four bytes as a type code exactly when each is an ASCII
    /// letter; otherwise reports the first offending byte.
    pub fn from_bytes(value: [u8; 4]) -> (r: Result<ChunkType, PngError>)
        ensures
            r is Ok <==> (forall|i: int| 0 <= i < 4 ==> is_letter(#[trigger] value@[i])),
            r matches Ok(t) ==> t@ == value@ && t.wf(),
            r is Err ==> r == Err::<ChunkType, PngError>(bytes_error(value@)),
    {
        if !is_letter_byte(value[0]) {
            return Err(PngError::TypeError { bad_byte: Some(value[0]) });
        }
        if !is_letter_byte(value[1]) {
            return Err(PngError::TypeError { bad_byte: Some(value[1]) });
        }
        if !is_letter_byte(value[2]) {
            return Err(PngError::TypeError { bad_byte: Some(value[2]) });
        }
        if !is_letter_byte(value[3]) {
            return Err(PngError::TypeError { bad_byte: Some(value[3]) });
        }
        Ok(ChunkType { bytes: value })
    }

    /// Accepts a text as a type code exactly when it has four characters,
    /// each an ASCII letter. Any other length is rejected outright; no
    /// truncation and no padding happens.
    pub fn from_text(s: &str) -> (r: Result<ChunkType, PngError>)
        ensures
            r is Ok <==> (s@.len() == 4 && forall|i: int|
                0 <= i < 4 ==> is_letter_char(#[trigger] s@[i])),
            r matches Ok(t) ==> t.wf() && t@.len() == 4 && (forall|i: int|
                0 <= i < 4 ==> (#[trigger] t@[i]) == s@[i] as u8),
            r is Err ==> r == Err::<ChunkType, PngError>(text_error(s@)),
    {
        if s.unicode_len() != 4 {
            return Err(PngError::TypeError { bad_byte: None });
        }
        let c0 = s.get_char(0);
        let c1 = s.get_char(1);
        let c2 = s.get_char(2);
        let c3 = s.get_char(3);
        match Self::letter_char_to_byte(c0) {
            Ok(b0) => match Self::letter_char_to_byte(c1) {
                Ok(b1) => match Self::letter_char_to_byte(c2) {
                    Ok(b2) => match Self::letter_char_to_byte(c3) {
                        Ok(b3) => {
                            let t = ChunkType { bytes: [b0, b1, b2, b3] };
                            assert(t@[0] == b0 && t@[1] == b1 && t@[2] == b2 && t@[3] == b3);
                            Ok(t)
                        },
                        Err(e) => Err(e),
                    },
                    Err(e) => Err(e),
                },
                Err(e) => Err(e),
            },
            Err(e) => Err(e),
        }
    }

    /// Turns one candidate character into its letter byte, or reports it.
    fn letter_char_to_byte(c: char) -> (r: Result<u8, PngError>)
        ensures
            r is Ok <==> is_letter_char(c),
            r matches Ok(b) ==> b == c as u8 && is_letter(b),
            r is Err ==> r == Err::<u8, PngError>(char_error(c)),
    {
        let u = c as u32;
        if (65 <= u && u <= 90) || (97 <= u && u <= 122) {
            Ok(u as u8)
        } else if u < 256 {
            Err(PngError::TypeError { bad_byte: Some(u as u8) })
        } else {
            Err(PngError::TypeError { bad_byte: None })
        }
    }

    /// Renders the four bytes as ASCII text.
    pub fn to_text(&self) -> (r: String)
        requires
            self.wf(),
        ensures
            r@ == ascii_chars_of(self@),
            r@.len() == 4,
    {
        let b = self.bytes;
        let mut v: Vec<u8> = Vec::new();
        v.push(b[0]);
        v.push(b[1]);
        v.push(b[2]);
        v.push(b[3]);
        assert(v@ =~= self@);
        ascii_to_string(&v)
    }

    /// Overall validity: the critical flag is clear (byte 0) and the
    /// reserved bit is valid (byte 2), both by the bit-5 rule.
    pub fn is_valid(&self) -> (r: bool)
        ensures
            r == (!bit5_set(self@[0]) && !bit5_set(self@[2])),
    {
        self.is_critical() && self.is_reserved_bit_valid()
    }

    /// Bit 5 of byte 0 clear: the code marks a critical record.
    pub fn is_critical(&self) -> (r: bool)
        ensures
            r == !bit5_set(self@[0]),
    {
        self.bytes[0] & 0x20 == 0
    }

    /// Bit 5 of byte 1 clear: the code is public.
    pub fn is_public(&self) -> (r: bool)
        ensures
            r == !bit5_set(self@[1]),
    {
        self.bytes[1] & 0x20 == 0
    }

    /// Bit 5 of byte 2 clear: the reserved bit is valid.
    pub fn is_reserved_bit_valid(&self) -> (r: bool)
        ensures
            r == !bit5_set(self@[2]),
    {
        self.bytes[2] & 0x20 == 0
    }

    /// Bit 5 of byte 3 set: the record is safe to copy.
    pub fn is_safe_to_copy(&self) -> (r: bool)
        ensures
            r == bit5_set(self@[3]),
    {
        let b: u8 = self.bytes[3];
        proof {
            assert(((b & 0x20) == 0x20) == ((b & 0x20) != 0)) by (bit_vector);
        }
        b & 0x20 == 0x20
    }
}

/// Whether the byte is an ASCII letter.
fn is_letter_byte(b: u8) -> (r: bool)
    ensures
        r == is_letter(b),
{
    (65 <= b && b <= 90) || (97 <= b && b <= 122)
}

} // verus!
