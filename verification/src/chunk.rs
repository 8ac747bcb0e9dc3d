//! One record of the container: length, type code, payload and checksum.
//!
//! On the wire a record is a big-endian 32-bit payload length, the four type
//! bytes, the payload, and a big-endian CRC-32 over type and payload. A
//! record in memory always carries the checksum of its own type and payload
//! bytes; decoding rejects a mismatch as corrupted data.

use vstd::prelude::*;

use crate::checksum::crc32_checksum;
use crate::checksum::crc32_of;
use crate::chunk_type::bytes_error;
use crate::chunk_type::is_letter;
use crate::chunk_type::ChunkType;
use crate::errors::PngError;
use crate::text::utf8_to_string;
use crate::wire::be32_val;
use crate::wire::lemma_be32_val_bytes;
use crate::wire::lemma_u32_be_round_trip;
use crate::wire::push_u32_be;
use crate::wire::read_u32_be;
use crate::wire::u32_be;

verus! {

/// The mathematical content of a record: its type bytes, payload and stored
/// checksum.
pub ghost struct ChunkModel {
    pub type_bytes: Seq<u8>,
    pub data: Seq<u8>,
    pub crc: u32,
}

/// A record is well formed when its type is four ASCII letters, its payload
/// length is representable in 32 bits, and its checksum is the checksum of
/// its type and payload bytes.
pub open spec fn model_wf(m: ChunkModel) -> bool {
    &&& m.type_bytes.len() == 4
    &&& forall|i: int| 0 <= i < 4 ==> is_letter(#[trigger] m.type_bytes[i])
    &&& m.data.len() <= u32::MAX
    &&& m.crc == crc32_of(m.type_bytes + m.data)
}

/// The full wire encoding of a record.
pub open spec fn chunk_wire(m: ChunkModel) -> Seq<u8> {
    u32_be(m.data.len() as u32) + m.type_bytes + m.data + u32_be(m.crc)
}

/// The payload length that the first four wire bytes declare.
pub open spec fn parsed_len(s: Seq<u8>) -> int
    recommends
        s.len() >= 4,
{
    be32_val(s[0], s[1], s[2], s[3]) as int
}

/// Whether the four type bytes on the wire are ASCII letters.
pub open spec fn type_ok(s: Seq<u8>) -> bool
    recommends
        s.len() >= 8,
{
    forall|i: int| 4 <= i < 8 ==> is_letter(#[trigger] s[i])
}

/// The checksum stored after the payload on the wire.
pub open spec fn stored_crc(s: Seq<u8>) -> u32
    recommends
        s.len() >= 12 + parsed_len(s),
{
    let l = parsed_len(s);
    be32_val(s[8 + l], s[9 + l], s[10 + l], s[11 + l])
}

/// Whether a record parses from the front of `s`: the buffer holds the
/// declared fields whole, the type bytes are letters, and the stored
/// checksum matches the one recomputed over type and payload.
pub open spec fn chunk_parse_ok(s: Seq<u8>) -> bool {
    &&& s.len() >= 8
    &&& type_ok(s)
    &&& s.len() >= 12 + parsed_len(s)
    &&& stored_crc(s) == crc32_of(s.subrange(4, 8 + parsed_len(s)))
}

/// The error parsing reports, by the order in which the fields are read:
/// a buffer too short for length and type, then an invalid type byte, then a
/// buffer too short for the declared payload and checksum, then corruption.
pub open spec fn chunk_parse_err(s: Seq<u8>) -> PngError
    recommends
        !chunk_parse_ok(s),
{
    if s.len() < 8 {
        PngError::FormatError
    } else if !type_ok(s) {
        bytes_error(s.subrange(4, 8))
    } else if s.len() < 12 + parsed_len(s) {
        PngError::FormatError
    } else {
        PngError::IntegrityError
    }
}

/// The record that a successful parse of the front of `s` yields.
pub open spec fn chunk_parse_model(s: Seq<u8>) -> ChunkModel
    recommends
        chunk_parse_ok(s),
{
    ChunkModel {
        type_bytes: s.subrange(4, 8),
        data: s.subrange(8, 8 + parsed_len(s)),
        crc: stored_crc(s),
    }
}

/// One length-prefixed, type-tagged, checksummed record.
#[derive(Debug)]
pub struct Chunk {
    chunk_type: ChunkType,
    chunk_data: Vec<u8>,
    crc: u32,
}

impl View for Chunk {
    type V = ChunkModel;

    closed spec fn view(&self) -> ChunkModel {
        ChunkModel { type_bytes: self.chunk_type@, data: self.chunk_data@, crc: self.crc }
    }
}

impl Chunk {
    /// The in-memory invariant: see [`model_wf`].
    pub open spec fn wf(&self) -> bool {
        model_wf(self@)
    }

    /// Builds a record over a type code and payload, computing the length
    /// and the checksum.
    pub fn new(chunk_type: ChunkType, data: Vec<u8>) -> (r: Chunk)
        requires
            chunk_type.wf(),
            data@.len() <= u32::MAX,
        ensures
            r.wf(),
            r@.type_bytes == chunk_type@,
            r@.data == data@,
            r@.crc == crc32_of(chunk_type@ + data@),
    {
        let buf = crc_input(&chunk_type, &data);
        let c = crc32_checksum(&buf);
        Chunk { chunk_type, chunk_data: data, crc: c }
    }

    /// The payload length.
    pub fn length(&self) -> (r: u32)
        requires
            self.wf(),
        ensures
            r as int == self@.data.len(),
    {
        self.chunk_data.len() as u32
    }

    /// The type code.
    pub fn chunk_type(&self) -> (r: &ChunkType)
        ensures
            r@ == self@.type_bytes,
    {
        &self.chunk_type
    }

    /// The raw payload bytes.
    pub fn data(&self) -> (r: &Vec<u8>)
        ensures
            r@ == self@.data,
    {
        &self.chunk_data
    }

    /// The stored checksum.
    pub fn crc(&self) -> (r: u32)
        ensures
            r == self@.crc,
    {
        self.crc
    }

    /// Decodes the payload as UTF-8 text; invalid UTF-8 is a decode error.
    pub fn data_as_string(&self) -> (r: Result<String, PngError>)
        ensures
            r is Ok <==> vstd::utf8::valid_utf8(self@.data),
            r matches Ok(s) ==> s@ == vstd::utf8::decode_utf8(self@.data),
            r is Err ==> r == Err::<String, PngError>(PngError::DecodeError),
    {
        match utf8_to_string(&self.chunk_data) {
            Some(s) => Ok(s),
            None => Err(PngError::DecodeError),
        }
    }

    /// The full wire encoding: length, type, payload, checksum.
    pub fn as_bytes(&self) -> (r: Vec<u8>)
        requires
            self.wf(),
        ensures
            r@ == chunk_wire(self@),
    {
        let mut out: Vec<u8> = Vec::new();
        push_u32_be(&mut out, self.chunk_data.len() as u32);
        let tb = self.chunk_type.bytes();
        out.push(tb[0]);
        out.push(tb[1]);
        out.push(tb[2]);
        out.push(tb[3]);
        let ghost head = u32_be(self@.data.len() as u32) + self@.type_bytes;
        assert(out@ =~= head);
        let mut i: usize = 0;
        while i < self.chunk_data.len()
            invariant
                i <= self@.data.len(),
                out@ == head + self@.data.subrange(0, i as int),
            decreases self@.data.len() - i,
        {
            out.push(self.chunk_data[i]);
            i += 1;
            assert(out@ =~= head + self@.data.subrange(0, i as int));
        }
        assert(out@ =~= head + self@.data);
        push_u32_be(&mut out, self.crc);
        assert(out@ =~= chunk_wire(self@));
        out
    }

    /// Parses one record from the front of the buffer; trailing bytes are
    /// left alone.
    pub fn parse(bytes: &Vec<u8>) -> (r: Result<Chunk, PngError>)
        ensures
            r is Ok <==> chunk_parse_ok(bytes@),
            r matches Ok(c) ==> c@ == chunk_parse_model(bytes@) && c.wf(),
            r is Err ==> r == Err::<Chunk, PngError>(chunk_parse_err(bytes@)),
    {
        assert(bytes@.skip(0) =~= bytes@);
        Self::parse_at(bytes, 0)
    }

    /// Parses one record from the bytes that start at `start`.
    pub fn parse_at(bytes: &Vec<u8>, start: usize) -> (r: Result<Chunk, PngError>)
        requires
            start <= bytes@.len(),
        ensures
            r is Ok <==> chunk_parse_ok(bytes@.skip(start as int)),
            r matches Ok(c) ==> c@ == chunk_parse_model(bytes@.skip(start as int)) && c.wf() && 12
                + c@.data.len() <= bytes@.len() - start,
            r is Err ==> r == Err::<Chunk, PngError>(chunk_parse_err(bytes@.skip(start as int))),
    {
        let ghost s = bytes@.skip(start as int);
        let n: usize = bytes.len();
        if n - start < 8 {
            return Err(PngError::FormatError);
        }
        let len_val: u32 = read_u32_be(bytes, start);
        assert(len_val as int == parsed_len(s));
        let t0 = bytes[start + 4];
        let t1 = bytes[start + 5];
        let t2 = bytes[start + 6];
        let t3 = bytes[start + 7];
        assert([t0, t1, t2, t3]@ =~= s.subrange(4, 8));
        let ct = match ChunkType::from_bytes([t0, t1, t2, t3]) {
            Ok(t) => t,
            Err(e) => {
                assert(!type_ok(s));
                return Err(e);
            },
        };
        assert(type_ok(s));
        let l: usize = len_val as usize;
        if n - start < 12 || l > n - start - 12 {
            return Err(PngError::FormatError);
        }
        let mut payload: Vec<u8> = Vec::new();
        let mut i: usize = 0;
        while i < l
            invariant
                i <= l,
                start + 12 + l <= bytes@.len(),
                bytes@.len() <= usize::MAX,
                s == bytes@.skip(start as int),
                payload@ == s.subrange(8, 8 + i as int),
            decreases l - i,
        {
            payload.push(bytes[start + 8 + i]);
            i += 1;
            assert(payload@ =~= s.subrange(8, 8 + i as int));
        }
        let stored: u32 = read_u32_be(bytes, start + 8 + l);
        assert(stored == stored_crc(s));
        let buf = crc_input(&ct, &payload);
        let computed = crc32_checksum(&buf);
        assert(buf@ =~= s.subrange(4, 8 + l as int));
        if computed != stored {
            return Err(PngError::IntegrityError);
        }
        let c = Chunk { chunk_type: ct, chunk_data: payload, crc: stored };
        assert(c@.type_bytes + c@.data =~= s.subrange(4, 8 + l as int));
        Ok(c)
    }
}

/// The byte sequence the checksum runs over: type bytes, then payload.
fn crc_input(t: &ChunkType, data: &Vec<u8>) -> (r: Vec<u8>)
    ensures
        r@ == t@ + data@,
{
    let tb = t.bytes();
    let mut buf: Vec<u8> = Vec::new();
    buf.push(tb[0]);
    buf.push(tb[1]);
    buf.push(tb[2]);
    buf.push(tb[3]);
    assert(buf@ =~= t@ + data@.subrange(0, 0));
    let mut i: usize = 0;
    while i < data.len()
        invariant
            i <= data@.len(),
            buf@ == t@ + data@.subrange(0, i as int),
        decreases data@.len() - i,
    {
        buf.push(data[i]);
        i += 1;
        assert(buf@ =~= t@ + data@.subrange(0, i as int));
    }
    assert(buf@ =~= t@ + data@);
    buf
}

/// Encoding a record and parsing the result yields the record back: the
/// parse succeeds and returns the same type bytes, payload and checksum.
/// Holds with any bytes following the encoding, which parsing leaves alone.
pub proof fn lemma_chunk_wire_parse(m: ChunkModel, tail: Seq<u8>)
    requires
        model_wf(m),
    ensures
        chunk_parse_ok(chunk_wire(m) + tail),
        chunk_parse_model(chunk_wire(m) + tail) == m,
        parsed_len(chunk_wire(m) + tail) == m.data.len(),
        (chunk_wire(m) + tail).skip(12 + m.data.len() as int) == tail,
{
    let w = chunk_wire(m) + tail;
    let len = m.data.len() as u32;
    lemma_u32_be_round_trip(len);
    assert(w[0] == (len >> 24) as u8 && w[1] == (len >> 16) as u8 && w[2] == (len >> 8) as u8 && w[3]
        == len as u8);
    assert(parsed_len(w) == m.data.len());
    let l = m.data.len() as int;
    assert forall|i: int| 4 <= i < 8 implies is_letter(#[trigger] w[i]) by {
        assert(w[i] == m.type_bytes[i - 4]);
    }
    assert(w.len() == 12 + l + tail.len());
    lemma_u32_be_round_trip(m.crc);
    assert(w[8 + l] == (m.crc >> 24) as u8 && w[9 + l] == (m.crc >> 16) as u8 && w[10 + l] == (m.crc
        >> 8) as u8 && w[11 + l] == m.crc as u8);
    assert(stored_crc(w) == m.crc);
    assert(w.subrange(4, 8 + l) =~= m.type_bytes + m.data);
    assert(chunk_parse_ok(w));
    assert(w.subrange(4, 8) =~= m.type_bytes);
    assert(w.subrange(8, 8 + l) =~= m.data);
    assert(chunk_parse_model(w) == m);
    assert(w.skip(12 + l) =~= tail);
}

/// Encoding a record and parsing it back, with nothing following, yields the
/// record: same type bytes, same payload, same length, same checksum.
pub proof fn lemma_chunk_round_trip(m: ChunkModel)
    requires
        model_wf(m),
    ensures
        chunk_parse_ok(chunk_wire(m)),
        chunk_parse_model(chunk_wire(m)) == m,
{
    lemma_chunk_wire_parse(m, Seq::empty());
    assert(chunk_wire(m) + Seq::<u8>::empty() =~= chunk_wire(m));
}

/// A successful parse consumes exactly the record's own encoding: the
/// record that comes back is well formed and re-encodes to precisely the
/// bytes it was read from.
pub proof fn lemma_chunk_parse_wire(s: Seq<u8>)
    requires
        chunk_parse_ok(s),
    ensures
        model_wf(chunk_parse_model(s)),
        chunk_wire(chunk_parse_model(s)) == s.subrange(0, 12 + parsed_len(s)),
{
    let m = chunk_parse_model(s);
    let l = parsed_len(s);
    assert(m.data.len() == l);
    assert(m.type_bytes.len() == 4);
    assert forall|i: int| 0 <= i < 4 implies is_letter(#[trigger] m.type_bytes[i]) by {
        assert(m.type_bytes[i] == s[4 + i]);
    }
    assert(s.subrange(4, 8 + l) =~= m.type_bytes + m.data);
    assert(m.crc == crc32_of(m.type_bytes + m.data));
    assert(model_wf(m));
    lemma_be32_val_bytes(s[0], s[1], s[2], s[3]);
    assert(m.data.len() as u32 == be32_val(s[0], s[1], s[2], s[3]));
    assert(u32_be(m.data.len() as u32) == seq![s[0], s[1], s[2], s[3]]);
    lemma_be32_val_bytes(s[8 + l], s[9 + l], s[10 + l], s[11 + l]);
    assert(u32_be(m.crc) == seq![s[8 + l], s[9 + l], s[10 + l], s[11 + l]]);
    assert(chunk_wire(m) =~= s.subrange(0, 12 + l));
}

/// A corrupted bit in the type or payload region of a record's encoding is
/// never silently accepted. The altered bytes really differ from the
/// original ones; if parsing still succeeds, the stored checksum must equal
/// the checksum recomputed over the altered bytes, and whenever that
/// recomputed checksum differs from the stored one, parsing fails — with
/// IntegrityError as long as the altered type bytes are still letters.
pub proof fn lemma_bit_flip_detected(m: ChunkModel, i: int, mask: u8, s: Seq<u8>)
    requires
        model_wf(m),
        4 <= i < 8 + m.data.len(),
        mask != 0,
        s == chunk_wire(m).update(i, chunk_wire(m)[i] ^ mask),
    ensures
        s.subrange(4, 8 + m.data.len() as int) != m.type_bytes + m.data,
        chunk_parse_ok(s) ==> crc32_of(s.subrange(4, 8 + m.data.len() as int)) == m.crc,
        crc32_of(s.subrange(4, 8 + m.data.len() as int)) != m.crc ==> !chunk_parse_ok(s),
        crc32_of(s.subrange(4, 8 + m.data.len() as int)) != m.crc && type_ok(s)
            ==> chunk_parse_err(s) == PngError::IntegrityError,
{
    let w = chunk_wire(m);
    let b = w[i];
    let l = m.data.len() as int;
    let len32 = m.data.len() as u32;
    let altered = s.subrange(4, 8 + l);
    assert(w.len() == 12 + l);
    assert(s.len() == 12 + l);
    assert(w[0] == (len32 >> 24) as u8 && w[1] == (len32 >> 16) as u8 && w[2] == (len32 >> 8) as u8
        && w[3] == len32 as u8);
    assert(s[0] == w[0] && s[1] == w[1] && s[2] == w[2] && s[3] == w[3]);
    lemma_u32_be_round_trip(len32);
    assert(parsed_len(s) == l);
    assert(w[8 + l] == (m.crc >> 24) as u8 && w[9 + l] == (m.crc >> 16) as u8 && w[10 + l] == (m.crc
        >> 8) as u8 && w[11 + l] == m.crc as u8);
    assert(s[8 + l] == w[8 + l] && s[9 + l] == w[9 + l] && s[10 + l] == w[10 + l] && s[11 + l] == w[
        11 + l]);
    lemma_u32_be_round_trip(m.crc);
    assert(stored_crc(s) == m.crc);
    assert(b ^ mask != b) by (bit_vector)
        requires
            mask != 0,
    ;
    assert(w.subrange(4, 8 + l) =~= m.type_bytes + m.data);
    assert(altered[i - 4] == b ^ mask);
    assert((m.type_bytes + m.data)[i - 4] == w[i]);
    assert(altered != m.type_bytes + m.data);
    if chunk_parse_ok(s) {
        assert(crc32_of(s.subrange(4, 8 + parsed_len(s))) == stored_crc(s));
        assert(s.subrange(4, 8 + parsed_len(s)) == altered);
    }
    if crc32_of(altered) != m.crc {
        assert(!chunk_parse_ok(s));
        if type_ok(s) {
            assert(chunk_parse_err(s) == PngError::IntegrityError);
        }
    }
}

} // verus!
