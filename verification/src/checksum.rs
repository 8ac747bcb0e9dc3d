//! The CRC-32/ISO-HDLC integrity check over a record's type and payload bytes.

use vstd::prelude::*;

verus! {

/// The CRC-32/ISO-HDLC checksum of a byte sequence. What it computes is fixed
/// by the bytes alone; its definition lives in the crc crate.
pub uninterp spec fn crc32_of(bytes: Seq<u8>) -> u32;

/// Relies on crc::Crc::<u32>::checksum with the CRC_32_ISO_HDLC algorithm:
/// the checksum is a pure function of the input bytes.
#[verifier::external_body]
pub(crate) fn crc32_checksum(bytes: &Vec<u8>) -> (r: u32)
    ensures
        r == crc32_of(bytes@),
{
    crc::Crc::<u32>::new(&crc::CRC_32_ISO_HDLC).checksum(bytes.as_slice())
}

} // verus!
