//! A binary codec and in-memory container for a chunked, checksummed file
//! format: a fixed eight-byte signature followed by self-describing records,
//! each carrying a big-endian length, a four-byte ASCII type code with
//! bit-encoded flags, a payload, and a CRC-32 integrity check.

pub mod checksum;
pub mod chunk;
pub mod chunk_type;
pub mod errors;
pub mod png;
pub mod text;
pub mod wire;

pub use errors::PngError;
