use pngme::chunk::Chunk;
use pngme::chunk_type::ChunkType;
use pngme::png::Png;
use pngme::PngError;

const SIGNATURE: [u8; 8] = [0x89, 0x50, 0x4e, 0x47, 0x0d, 0x0a, 0x1a, 0x0a];

fn record(type_text: &str, payload: &[u8]) -> Chunk {
    let chunk_type = ChunkType::from_text(type_text).unwrap();
    Chunk::new(chunk_type, payload.to_vec())
}

#[test]
fn test_empty_container_round_trip() {
    let png = Png::new();
    let bytes = png.as_bytes();
    assert_eq!(bytes, SIGNATURE.to_vec());
    let back = Png::parse(&bytes).unwrap();
    assert_eq!(back.chunks().len(), 0);
}

#[test]
fn test_container_round_trip_keeps_order() {
    let mut png = Png::new();
    png.append_chunk(record("RuSt", b"first"));
    png.append_chunk(record("abCD", b""));
    png.append_chunk(record("RuSt", b"third"));
    let bytes = png.as_bytes();
    let back = Png::parse(&bytes).unwrap();
    let chunks = back.chunks();
    assert_eq!(chunks.len(), 3);
    assert_eq!(chunks[0].chunk_type().to_text(), "RuSt");
    assert_eq!(chunks[0].data(), &b"first".to_vec());
    assert_eq!(chunks[1].chunk_type().to_text(), "abCD");
    assert_eq!(chunks[1].data(), &b"".to_vec());
    assert_eq!(chunks[2].chunk_type().to_text(), "RuSt");
    assert_eq!(chunks[2].data(), &b"third".to_vec());
    // Byte-identical re-serialization.
    assert_eq!(back.as_bytes(), bytes);
}

#[test]
fn test_bad_signature_is_format_error() {
    assert_eq!(Png::parse(&vec![]).unwrap_err(), PngError::FormatError);
    assert_eq!(
        Png::parse(&vec![0x89, 0x50, 0x4e]).unwrap_err(),
        PngError::FormatError
    );
    let mut wrong = SIGNATURE.to_vec();
    wrong[0] = 0x88;
    assert_eq!(Png::parse(&wrong).unwrap_err(), PngError::FormatError);
}

#[test]
fn test_corrupt_record_aborts_container_parse() {
    let mut png = Png::new();
    png.append_chunk(record("RuSt", b"data"));
    let mut bytes = png.as_bytes();
    let last = bytes.len() - 1;
    bytes[last] ^= 0x01;
    assert_eq!(Png::parse(&bytes).unwrap_err(), PngError::IntegrityError);
    bytes.truncate(last);
    assert_eq!(Png::parse(&bytes).unwrap_err(), PngError::FormatError);
}

#[test]
fn test_first_by_type_picks_first_match() {
    let mut png = Png::new();
    png.append_chunk(record("RuSt", b"one"));
    png.append_chunk(record("RuSt", b"two"));
    let found = png.chunk_by_type("RuSt").unwrap();
    assert_eq!(found.data_as_string().unwrap(), "one");
    assert!(png.chunk_by_type("ruSt").is_none());
    assert!(png.chunk_by_type("bad").is_none());
}

#[test]
fn test_remove_absent_type_leaves_container_unchanged() {
    let mut png = Png::new();
    png.append_chunk(record("RuSt", b"keep me"));
    png.append_chunk(record("abCD", b"me too"));
    let before = png.as_bytes();
    let r = png.remove_first_chunk("NoNe");
    assert_eq!(r.unwrap_err(), PngError::NotFoundError);
    assert_eq!(png.as_bytes(), before);
}

#[test]
fn test_remove_keeps_relative_order() {
    let mut png = Png::new();
    png.append_chunk(record("aaAA", b"0"));
    png.append_chunk(record("bbBB", b"1"));
    png.append_chunk(record("aaAA", b"2"));
    png.append_chunk(record("ccCC", b"3"));
    let removed = png.remove_first_chunk("aaAA").unwrap();
    assert_eq!(removed.data_as_string().unwrap(), "0");
    let texts: Vec<String> = png
        .chunks()
        .iter()
        .map(|c| c.chunk_type().to_text())
        .collect();
    assert_eq!(texts, vec!["bbBB", "aaAA", "ccCC"]);
}

#[test]
fn test_encode_then_decode_scenario() {
    let mut png = Png::new();
    png.append_chunk(record("abCD", b"hello world"));
    let bytes = png.as_bytes();
    let decoded = Png::parse(&bytes).unwrap();
    let found = decoded.chunk_by_type("abCD").unwrap();
    assert_eq!(found.data_as_string().unwrap(), "hello world");
    assert_eq!(found.length(), 11);
}

#[test]
fn test_remove_then_decode_scenario() {
    let mut png = Png::new();
    png.append_chunk(record("abCD", b"hello world"));
    let bytes = png.as_bytes();
    let mut decoded = Png::parse(&bytes).unwrap();
    decoded.remove_first_chunk("abCD").unwrap();
    let bytes_after = decoded.as_bytes();
    let reloaded = Png::parse(&bytes_after).unwrap();
    assert!(reloaded.chunk_by_type("abCD").is_none());
    let mut probe = reloaded;
    assert_eq!(
        probe.remove_first_chunk("abCD").unwrap_err(),
        PngError::NotFoundError
    );
}

#[test]
fn test_describe_lists_types_and_lengths() {
    let mut png = Png::new();
    png.append_chunk(record("RuSt", b"abc"));
    png.append_chunk(record("abCD", b"hello world"));
    png.append_chunk(record("zzZZ", b""));
    assert_eq!(png.describe(), "RuSt 3\nabCD 11\nzzZZ 0\n");
}

#[test]
fn test_parse_wire_bytes_built_by_hand() {
    // One record of type RuSt with payload "ab", assembled byte by byte.
    let chunk = record("RuSt", b"ab");
    let crc = chunk.crc();
    let mut bytes = SIGNATURE.to_vec();
    bytes.extend_from_slice(&[0, 0, 0, 2]);
    bytes.extend_from_slice(b"RuSt");
    bytes.extend_from_slice(b"ab");
    bytes.extend_from_slice(&crc.to_be_bytes());
    let png = Png::parse(&bytes).unwrap();
    assert_eq!(png.chunks().len(), 1);
    assert_eq!(png.chunks()[0].data_as_string().unwrap(), "ab");
    assert_eq!(png.as_bytes(), bytes);
}
