//! The container: an eight-byte signature followed by an ordered sequence of
//! records. Lookup and removal resolve to the first record, in order, whose
//! type code renders to the requested text.

use vstd::prelude::*;

use crate::chunk::chunk_parse_err;
use crate::chunk::chunk_parse_model;
use crate::chunk::chunk_parse_ok;
use crate::chunk::chunk_wire;
use crate::chunk::lemma_chunk_parse_wire;
use crate::chunk::lemma_chunk_wire_parse;
use crate::chunk::model_wf;
use crate::chunk::parsed_len;
use crate::chunk::Chunk;
use crate::chunk::ChunkModel;
use crate::chunk_type::is_letter;
use crate::chunk_type::is_letter_char;
use crate::chunk_type::ChunkType;
use crate::errors::PngError;
use crate::text::ascii_chars_of;
use crate::text::ascii_to_string;
use crate::text::dec_bytes;
use crate::text::lemma_dec_bytes_ascii;
use crate::text::push_decimal;

verus! {

/// The fixed eight-byte signature that opens every container.
pub open spec fn signature() -> Seq<u8> {
    seq![0x89u8, 0x50u8, 0x4eu8, 0x47u8, 0x0du8, 0x0au8, 0x1au8, 0x0au8]
}

/// The wire encoding of a sequence of records, concatenated in order.
pub open spec fn chunks_wire(ms: Seq<ChunkModel>) -> Seq<u8>
    decreases ms.len(),
{
    if ms.len() == 0 {
        Seq::empty()
    } else {
        chunk_wire(ms[0]) + chunks_wire(ms.drop_first())
    }
}

/// Appending one record to a sequence appends its encoding to the wire.
pub proof fn lemma_chunks_wire_snoc(ms: Seq<ChunkModel>, m: ChunkModel)
    ensures
        chunks_wire(ms.push(m)) == chunks_wire(ms) + chunk_wire(m),
    decreases ms.len(),
{
    if ms.len() == 0 {
        assert(ms.push(m)[0] == m);
        assert(ms.push(m).drop_first() =~= Seq::<ChunkModel>::empty());
        assert(chunks_wire(Seq::<ChunkModel>::empty()) == Seq::<u8>::empty());
        assert(chunks_wire(ms.push(m)) == chunk_wire(m) + Seq::<u8>::empty());
        assert(chunks_wire(ms.push(m)) =~= chunks_wire(ms) + chunk_wire(m));
    } else {
        lemma_chunks_wire_snoc(ms.drop_first(), m);
        assert(ms.push(m)[0] == ms[0]);
        assert(ms.push(m).drop_first() =~= ms.drop_first().push(m));
        assert(chunks_wire(ms.push(m)) =~= chunks_wire(ms) + chunk_wire(m));
    }
}

/// Parses records one after the other until the bytes are exhausted. Any
/// record failure is the whole result; no partial sequence survives.
pub open spec fn chunks_parse(s: Seq<u8>) -> Result<Seq<ChunkModel>, PngError>
    decreases s.len(),
{
    if s.len() == 0 {
        Ok(Seq::empty())
    } else if !chunk_parse_ok(s) {
        Err(chunk_parse_err(s))
    } else {
        match chunks_parse(s.skip(12 + parsed_len(s))) {
            Ok(tail) => Ok(seq![chunk_parse_model(s)] + tail),
            Err(e) => Err(e),
        }
    }
}

/// What parsing a whole container yields: the signature must match exactly,
/// then every record must parse.
pub open spec fn png_parse(s: Seq<u8>) -> Result<Seq<ChunkModel>, PngError> {
    if s.len() < 8 || s.subrange(0, 8) != signature() {
        Err(PngError::FormatError)
    } else {
        chunks_parse(s.skip(8))
    }
}

/// A type code's bytes render to a text when the text spells exactly those
/// four bytes: each character's code point is the byte's value.
pub open spec fn renders_to(t: Seq<u8>, text: Seq<char>) -> bool {
    &&& text.len() == 4
    &&& t.len() == 4
    &&& forall|i: int| 0 <= i < 4 ==> text[i] as u32 == (#[trigger] t[i]) as u32
}

/// Whether some record's type renders to the text.
pub open spec fn has_match(ms: Seq<ChunkModel>, text: Seq<char>) -> bool {
    exists|i: int| 0 <= i < ms.len() && renders_to((#[trigger] ms[i]).type_bytes, text)
}

/// One line of the listing: type text, a space, the decimal payload length,
/// a line break.
pub open spec fn describe_line(m: ChunkModel) -> Seq<u8> {
    m.type_bytes + seq![32u8] + dec_bytes(m.data.len() as nat) + seq![10u8]
}

/// The listing of a whole sequence of records, line by line.
pub open spec fn describe_bytes(ms: Seq<ChunkModel>) -> Seq<u8>
    decreases ms.len(),
{
    if ms.len() == 0 {
        Seq::empty()
    } else {
        describe_bytes(ms.drop_last()) + describe_line(ms.last())
    }
}

/// The signature-prefixed, ordered sequence of records.
#[derive(Debug)]
pub struct Png {
    chunks: Vec<Chunk>,
}

impl View for Png {
    type V = Seq<ChunkModel>;

    closed spec fn view(&self) -> Seq<ChunkModel> {
        self.chunks@.map_values(|c: Chunk| c@)
    }
}

impl Png {
    /// Every record of the container is well formed.
    pub open spec fn wf(&self) -> bool {
        forall|i: int| 0 <= i < self@.len() ==> model_wf(#[trigger] self@[i])
    }

    /// A fresh container with no records.
    pub fn new() -> (r: Png)
        ensures
            r.wf(),
            r@ == Seq::<ChunkModel>::empty(),
    {
        let r = Png { chunks: Vec::new() };
        assert(r@ =~= Seq::<ChunkModel>::empty());
        r
    }

    /// The records, in order.
    pub fn chunks(&self) -> (r: &Vec<Chunk>)
        ensures
            r@.len() == self@.len(),
            forall|i: int| 0 <= i < self@.len() ==> (#[trigger] r@[i])@ == self@[i],
    {
        &self.chunks
    }

    /// Appends a record at the end; nothing else moves.
    pub fn append_chunk(&mut self, chunk: Chunk)
        requires
            old(self).wf(),
            chunk.wf(),
        ensures
            final(self).wf(),
            final(self)@ == old(self)@.push(chunk@),
    {
        self.chunks.push(chunk);
        assert(final(self)@ =~= old(self)@.push(chunk@));
    }

    /// Decodes a container from bytes: the signature must match exactly and
    /// every record must parse; any failure aborts the whole parse with that
    /// record's error.
    pub fn parse(bytes: &Vec<u8>) -> (r: Result<Png, PngError>)
        ensures
            r matches Ok(p) ==> png_parse(bytes@) == Ok::<Seq<ChunkModel>, PngError>(p@) && p.wf(),
            r matches Err(e) ==> png_parse(bytes@) == Err::<Seq<ChunkModel>, PngError>(e),
    {
        let n: usize = bytes.len();
        if n < 8 {
            return Err(PngError::FormatError);
        }
        if !(bytes[0] == 0x89 && bytes[1] == 0x50 && bytes[2] == 0x4e && bytes[3] == 0x47
            && bytes[4] == 0x0d && bytes[5] == 0x0a && bytes[6] == 0x1a && bytes[7] == 0x0a) {
            proof {
                if bytes@.subrange(0, 8) == signature() {
                    assert(bytes@[0] == signature()[0]);
                    assert(bytes@[1] == signature()[1]);
                    assert(bytes@[2] == signature()[2]);
                    assert(bytes@[3] == signature()[3]);
                    assert(bytes@[4] == signature()[4]);
                    assert(bytes@[5] == signature()[5]);
                    assert(bytes@[6] == signature()[6]);
                    assert(bytes@[7] == signature()[7]);
                }
            }
            return Err(PngError::FormatError);
        }
        assert(bytes@.subrange(0, 8) =~= signature());
        let mut chunks: Vec<Chunk> = Vec::new();
        let mut cursor: usize = 8;
        while cursor < n
            invariant
                8 <= cursor <= n,
                n == bytes@.len(),
                bytes@.subrange(0, 8) == signature(),
                forall|j: int| 0 <= j < chunks@.len() ==> (#[trigger] chunks@[j]).wf(),
                match chunks_parse(bytes@.skip(cursor as int)) {
                    Ok(tail) => chunks_parse(bytes@.skip(8)) == Ok::<Seq<ChunkModel>, PngError>(
                        chunks@.map_values(|c: Chunk| c@) + tail,
                    ),
                    Err(e) => chunks_parse(bytes@.skip(8)) == Err::<Seq<ChunkModel>, PngError>(e),
                },
            decreases n - cursor,
        {
            let ghost suffix = bytes@.skip(cursor as int);
            assert(suffix.len() == n - cursor);
            let c = match Chunk::parse_at(bytes, cursor) {
                Ok(c) => c,
                Err(e) => {
                    assert(chunks_parse(suffix) == Err::<Seq<ChunkModel>, PngError>(e));
                    return Err(e);
                },
            };
            let dl: usize = c.length() as usize;
            proof {
                assert(chunk_parse_ok(suffix));
                assert(c@.data.len() == parsed_len(suffix)) by {
                    assert(c@.data == suffix.subrange(8, 8 + parsed_len(suffix)));
                }
                assert(suffix.skip(12 + parsed_len(suffix)) =~= bytes@.skip(
                    cursor + 12 + dl as int,
                ));
            }
            let ghost old_models = chunks@.map_values(|c: Chunk| c@);
            chunks.push(c);
            proof {
                assert(chunks@.map_values(|c: Chunk| c@) =~= old_models.push(c@));
            }
            cursor = cursor + 12 + dl;
            proof {
                let rest = bytes@.skip(cursor as int);
                match chunks_parse(rest) {
                    Ok(tail) => {
                        assert(chunks_parse(suffix) == Ok::<Seq<ChunkModel>, PngError>(
                            seq![c@] + tail,
                        ));
                        assert(old_models + (seq![c@] + tail) =~= old_models.push(c@) + tail);
                    },
                    Err(e) => {
                        assert(chunks_parse(suffix) == Err::<Seq<ChunkModel>, PngError>(e));
                    },
                }
            }
        }
        assert(bytes@.skip(cursor as int).len() == 0);
        assert(chunks_parse(bytes@.skip(cursor as int)) == Ok::<Seq<ChunkModel>, PngError>(
            Seq::<ChunkModel>::empty(),
        ));
        let r = Png { chunks };
        assert(r@ + Seq::<ChunkModel>::empty() =~= r@);
        assert(forall|i: int| 0 <= i < r@.len() ==> model_wf(#[trigger] r@[i]));
        Ok(r)
    }

    /// Encodes the container: the signature, then every record's wire bytes,
    /// in order. The exact inverse of parsing.
    pub fn as_bytes(&self) -> (r: Vec<u8>)
        requires
            self.wf(),
        ensures
            r@ == signature() + chunks_wire(self@),
    {
        let mut out: Vec<u8> = Vec::new();
        out.push(0x89);
        out.push(0x50);
        out.push(0x4e);
        out.push(0x47);
        out.push(0x0d);
        out.push(0x0a);
        out.push(0x1a);
        out.push(0x0a);
        assert(out@ =~= signature());
        assert(signature() + chunks_wire(self@.take(0)) =~= signature());
        let mut i: usize = 0;
        while i < self.chunks.len()
            invariant
                self.wf(),
                i <= self.chunks@.len(),
                self@.len() == self.chunks@.len(),
                out@ == signature() + chunks_wire(self@.take(i as int)),
            decreases self.chunks@.len() - i,
        {
            assert((&self.chunks[i as int])@ == self@[i as int]);
            let mut cb = self.chunks[i].as_bytes();
            out.append(&mut cb);
            proof {
                lemma_chunks_wire_snoc(self@.take(i as int), self@[i as int]);
                assert(self@.take(i as int).push(self@[i as int]) =~= self@.take(i + 1));
            }
            i += 1;
        }
        assert(self@.take(self@.len() as int) =~= self@);
        out
    }

    /// The first record, in order, whose type code renders to the text; no
    /// record matches a text that is not four ASCII letters.
    pub fn chunk_by_type(&self, text: &str) -> (r: Option<&Chunk>)
        requires
            self.wf(),
        ensures
            r is Some <==> has_match(self@, text@),
            r matches Some(c) ==> exists|k: int|
                0 <= k < self@.len() && c@ == self@[k] && renders_to(
                    (#[trigger] self@[k]).type_bytes,
                    text@,
                ) && (forall|j: int| 0 <= j < k ==> !renders_to(self@[j].type_bytes, text@)),
    {
        match self.find_index(text) {
            Some(i) => Some(&self.chunks[i]),
            None => None,
        }
    }

    /// Removes and returns the first record whose type code renders to the
    /// text; the remaining records keep their relative order. Where none
    /// matches, nothing changes and the lookup failure is reported.
    pub fn remove_first_chunk(&mut self, text: &str) -> (r: Result<Chunk, PngError>)
        requires
            old(self).wf(),
        ensures
            final(self).wf(),
            !has_match(old(self)@, text@) ==> r == Err::<Chunk, PngError>(PngError::NotFoundError)
                && final(self)@ == old(self)@,
            r matches Ok(c) ==> has_match(old(self)@, text@) && exists|k: int|
                0 <= k < old(self)@.len() && c@ == old(self)@[k] && renders_to(
                    (#[trigger] old(self)@[k]).type_bytes,
                    text@,
                ) && (forall|j: int| 0 <= j < k ==> !renders_to(old(self)@[j].type_bytes, text@))
                    && final(self)@ == old(self)@.remove(k),
            r is Ok <==> has_match(old(self)@, text@),
    {
        match self.find_index(text) {
            Some(i) => {
                let ghost k = i as int;
                let c = self.chunks.remove(i);
                proof {
                    assert(final(self)@ =~= old(self)@.remove(k));
                    assert(forall|j: int|
                        0 <= j < final(self)@.len() ==> model_wf(#[trigger] final(self)@[j]));
                }
                Ok(c)
            },
            None => Err(PngError::NotFoundError),
        }
    }

    /// The index of the first record whose type renders to the text.
    fn find_index(&self, text: &str) -> (r: Option<usize>)
        requires
            self.wf(),
        ensures
            r is Some <==> has_match(self@, text@),
            r matches Some(i) ==> 0 <= i < self@.len() && renders_to(self@[i as int].type_bytes, text@)
                && (forall|j: int| 0 <= j < i ==> !renders_to(self@[j].type_bytes, text@)),
    {
        let target = match ChunkType::from_text(text) {
            Ok(t) => t,
            Err(_) => {
                proof {
                    assert forall|k: int| 0 <= k < self@.len() implies !renders_to(
                        (#[trigger] self@[k]).type_bytes,
                        text@,
                    ) by {
                        lemma_letters_render(self@[k].type_bytes, text@);
                    }
                }
                return None;
            },
        };
        let tb = target.bytes();
        let mut i: usize = 0;
        while i < self.chunks.len()
            invariant
                self.wf(),
                i <= self.chunks@.len(),
                self@.len() == self.chunks@.len(),
                text@.len() == 4,
                forall|j: int| 0 <= j < 4 ==> is_letter_char(#[trigger] text@[j]),
                tb@.len() == 4,
                forall|j: int| 0 <= j < 4 ==> (#[trigger] tb@[j]) == text@[j] as u8,
                forall|j: int| 0 <= j < i ==> !renders_to((#[trigger] self@[j]).type_bytes, text@),
            decreases self.chunks@.len() - i,
        {
            let cb = self.chunks[i].chunk_type().bytes();
            proof {
                assert(cb@ == self@[i as int].type_bytes);
                lemma_match_bytes(self@[i as int].type_bytes, text@, tb@);
            }
            if cb[0] == tb[0] && cb[1] == tb[1] && cb[2] == tb[2] && cb[3] == tb[3] {
                assert(cb@ =~= tb@);
                assert(renders_to(self@[i as int].type_bytes, text@));
                return Some(i);
            }
            proof {
                if cb@ == tb@ {
                    assert(cb@[0] == tb@[0] && cb@[1] == tb@[1] && cb@[2] == tb@[2] && cb@[3]
                        == tb@[3]);
                }
                assert(!renders_to(self@[i as int].type_bytes, text@));
            }
            i += 1;
        }
        None
    }

    /// A human-readable listing: one line per record, its type text and its
    /// decimal payload length.
    pub fn describe(&self) -> (r: String)
        requires
            self.wf(),
        ensures
            r@ == ascii_chars_of(describe_bytes(self@)),
    {
        let mut buf: Vec<u8> = Vec::new();
        let mut i: usize = 0;
        while i < self.chunks.len()
            invariant
                self.wf(),
                i <= self.chunks@.len(),
                self@.len() == self.chunks@.len(),
                buf@ == describe_bytes(self@.take(i as int)),
                forall|k: int| 0 <= k < buf@.len() ==> #[trigger] buf@[k] < 128,
            decreases self.chunks@.len() - i,
        {
            let ghost before = buf@;
            assert((&self.chunks[i as int])@ == self@[i as int]);
            let tb = self.chunks[i].chunk_type().bytes();
            buf.push(tb[0]);
            buf.push(tb[1]);
            buf.push(tb[2]);
            buf.push(tb[3]);
            buf.push(32);
            let len = self.chunks[i].length();
            push_decimal(&mut buf, len);
            buf.push(10);
            proof {
                lemma_dec_bytes_ascii(len as nat);
                assert(buf@ =~= before + describe_line(self@[i as int]));
                assert(self@.take(i + 1).drop_last() =~= self@.take(i as int));
                assert(self@.take(i + 1).last() == self@[i as int]);
            }
            i += 1;
        }
        assert(self@.take(self@.len() as int) =~= self@);
        ascii_to_string(&buf)
    }
}

/// An ASCII letter character survives the round trip through its byte.
proof fn lemma_letter_char_byte(c: char)
    requires
        is_letter_char(c),
    ensures
        (c as u8) as u32 == c as u32,
{
}

/// The byte comparison of the lookup loop agrees with the rendering
/// relation: letter bytes render to the text exactly when they equal the
/// text's own bytes.
proof fn lemma_match_bytes(t: Seq<u8>, text: Seq<char>, tb: Seq<u8>)
    requires
        text.len() == 4,
        forall|j: int| 0 <= j < 4 ==> is_letter_char(#[trigger] text[j]),
        tb.len() == 4,
        forall|j: int| 0 <= j < 4 ==> (#[trigger] tb[j]) == text[j] as u8,
        t.len() == 4,
    ensures
        renders_to(t, text) <==> t == tb,
{
    if t == tb {
        assert forall|j: int| 0 <= j < 4 implies text[j] as u32 == (#[trigger] t[j]) as u32 by {
            lemma_letter_char_byte(text[j]);
            assert(t[j] == text[j] as u8);
        }
        assert(renders_to(t, text));
    }
    if renders_to(t, text) {
        assert forall|j: int| 0 <= j < 4 implies t[j] == (#[trigger] tb[j]) by {
            lemma_letter_char_byte(text[j]);
            assert(text[j] as u32 == t[j] as u32);
            assert(tb[j] == text[j] as u8);
        }
        assert(t =~= tb);
    }
}

/// A text that four letter bytes render to is itself four ASCII letters, so
/// a text that type-code validation rejects matches no well-formed record.
proof fn lemma_letters_render(t: Seq<u8>, text: Seq<char>)
    requires
        t.len() == 4,
        forall|i: int| 0 <= i < 4 ==> is_letter(#[trigger] t[i]),
    ensures
        renders_to(t, text) ==> (text.len() == 4 && (forall|i: int|
            0 <= i < 4 ==> is_letter_char(#[trigger] text[i]))),
{
    if renders_to(t, text) {
        assert forall|i: int| 0 <= i < 4 implies is_letter_char(#[trigger] text[i]) by {
            assert(text[i] as u32 == t[i] as u32);
            assert(is_letter(t[i]));
        }
    }
}

/// Parsing the wire encoding of well-formed records yields exactly those
/// records back, in order.
#[verifier::rlimit(100)]
#[verifier::spinoff_prover]
pub proof fn lemma_chunks_round_trip(ms: Seq<ChunkModel>)
    requires
        forall|i: int| 0 <= i < ms.len() ==> model_wf(#[trigger] ms[i]),
    ensures
        chunks_parse(chunks_wire(ms)) == Ok::<Seq<ChunkModel>, PngError>(ms),
    decreases ms.len(),
{
    if ms.len() == 0 {
        assert(chunks_wire(ms).len() == 0);
        assert(ms =~= Seq::<ChunkModel>::empty());
    } else {
        let m = ms[0];
        let rest = ms.drop_first();
        assert(forall|i: int| 0 <= i < rest.len() ==> model_wf(#[trigger] rest[i]));
        lemma_chunks_round_trip(rest);
        lemma_chunks_round_trip_step(m, rest);
        assert(chunks_wire(ms) == chunk_wire(m) + chunks_wire(rest));
        assert(seq![m] + rest =~= ms);
    }
}

/// The inductive step of the round trip: a well-formed record in front of a
/// wire whose records parse back parses back with them.
proof fn lemma_chunks_round_trip_step(m: ChunkModel, rest: Seq<ChunkModel>)
    requires
        model_wf(m),
        chunks_parse(chunks_wire(rest)) == Ok::<Seq<ChunkModel>, PngError>(rest),
    ensures
        chunks_parse(chunk_wire(m) + chunks_wire(rest)) == Ok::<Seq<ChunkModel>, PngError>(
            seq![m] + rest,
        ),
{
    let w = chunk_wire(m) + chunks_wire(rest);
    lemma_chunk_wire_parse(m, chunks_wire(rest));
    assert(chunk_parse_ok(w));
    assert(parsed_len(w) == m.data.len());
    assert(w.skip(12 + parsed_len(w)) == chunks_wire(rest));
    lemma_chunks_parse_step(w, rest);
    assert(chunk_parse_model(w) == m);
}

/// Unfolds one step of the record-sequence parse: a leading record that
/// parses, followed by a tail that parses, parse together.
proof fn lemma_chunks_parse_step(s: Seq<u8>, tail: Seq<ChunkModel>)
    requires
        chunk_parse_ok(s),
        chunks_parse(s.skip(12 + parsed_len(s))) == Ok::<Seq<ChunkModel>, PngError>(tail),
    ensures
        chunks_parse(s) == Ok::<Seq<ChunkModel>, PngError>(seq![chunk_parse_model(s)] + tail),
{
    assert(s.len() >= 12 + parsed_len(s));
    assert(parsed_len(s) >= 0);
    assert(s.len() != 0);
}

/// Whatever parses re-encodes byte-identically: the records that a
/// successful parse yields are well formed and write back exactly the
/// bytes they came from.
#[verifier::rlimit(100)]
#[verifier::spinoff_prover]
pub proof fn lemma_chunks_parse_wire(s: Seq<u8>, ms: Seq<ChunkModel>)
    requires
        chunks_parse(s) == Ok::<Seq<ChunkModel>, PngError>(ms),
    ensures
        chunks_wire(ms) == s,
        forall|i: int| 0 <= i < ms.len() ==> model_wf(#[trigger] ms[i]),
    decreases s.len(),
{
    if s.len() == 0 {
        assert(ms == Seq::<ChunkModel>::empty());
        assert(chunks_wire(ms) =~= s);
    } else {
        assert(chunk_parse_ok(s));
        let l = parsed_len(s);
        let m = chunk_parse_model(s);
        let rest = s.skip(12 + l);
        lemma_chunk_parse_wire(s);
        match chunks_parse(rest) {
            Ok(tail) => {
                assert(ms == seq![m] + tail);
                lemma_chunks_parse_wire(rest, tail);
                assert(ms[0] == m);
                assert(ms.drop_first() =~= tail);
                assert(chunks_wire(ms) == chunk_wire(m) + chunks_wire(tail));
                assert(s.subrange(0, 12 + l) + rest =~= s);
                assert(chunks_wire(ms) =~= s);
                assert forall|i: int| 0 <= i < ms.len() implies model_wf(#[trigger] ms[i]) by {
                    if i > 0 {
                        assert(ms[i] == tail[i - 1]);
                    }
                }
            },
            Err(_) => {
                assert(false);
            },
        }
    }
}

/// Decoding then encoding is byte-identical: a container parsed from any
/// byte stream serializes back to exactly that stream.
pub proof fn lemma_parse_encode_identity(s: Seq<u8>, ms: Seq<ChunkModel>)
    requires
        png_parse(s) == Ok::<Seq<ChunkModel>, PngError>(ms),
    ensures
        signature() + chunks_wire(ms) == s,
{
    if s.len() < 8 || s.subrange(0, 8) != signature() {
        assert(png_parse(s) is Err);
        assert(false);
    }
    assert(chunks_parse(s.skip(8)) == Ok::<Seq<ChunkModel>, PngError>(ms));
    lemma_chunks_parse_wire(s.skip(8), ms);
    assert(chunks_wire(ms) == s.skip(8));
    let t = signature() + chunks_wire(ms);
    assert(t.len() == s.len());
    assert forall|i: int| 0 <= i < s.len() implies t[i] == s[i] by {
        if i < 8 {
            assert(s.subrange(0, 8)[i] == s[i]);
            assert(t[i] == signature()[i]);
        } else {
            assert(t[i] == chunks_wire(ms)[i - 8]);
            assert(s.skip(8)[i - 8] == s[i]);
        }
    }
    assert(t =~= s);
}

/// Round trip of a whole container: decoding the encoding of any sequence
/// of well-formed records reproduces the same ordered sequence of type
/// codes and payloads.
pub proof fn lemma_container_round_trip(ms: Seq<ChunkModel>)
    requires
        forall|i: int| 0 <= i < ms.len() ==> model_wf(#[trigger] ms[i]),
    ensures
        png_parse(signature() + chunks_wire(ms)) == Ok::<Seq<ChunkModel>, PngError>(ms),
{
    let s = signature() + chunks_wire(ms);
    assert(s.subrange(0, 8) =~= signature());
    assert(s.skip(8) =~= chunks_wire(ms));
    lemma_chunks_round_trip(ms);
}

} // verus!
