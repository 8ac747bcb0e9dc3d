use pngme::chunk_type::ChunkType;
use pngme::PngError;

#[test]
pub fn test_chunk_type_from_bytes() {
    let expected = [82, 117, 83, 116];
    let actual = ChunkType::from_bytes([82, 117, 83, 116]).unwrap();

    assert_eq!(expected, actual.bytes());
}

#[test]
pub fn test_chunk_type_from_str() {
    let expected = ChunkType::from_bytes([82, 117, 83, 116]).unwrap();
    let actual = ChunkType::from_text("RuSt").unwrap();
    assert_eq!(expected, actual);
}

#[test]
pub fn test_chunk_type_is_critical() {
    let chunk = ChunkType::from_text("RuSt").unwrap();
    assert!(chunk.is_critical());
}

#[test]
pub fn test_chunk_type_is_not_critical() {
    let chunk = ChunkType::from_text("ruSt").unwrap();
    assert!(!chunk.is_critical());
}

#[test]
pub fn test_chunk_type_is_public() {
    let chunk = ChunkType::from_text("RUSt").unwrap();
    assert!(chunk.is_public());
}

#[test]
pub fn test_chunk_type_is_not_public() {
    let chunk = ChunkType::from_text("RuSt").unwrap();
    assert!(!chunk.is_public());
}

#[test]
pub fn test_chunk_type_is_reserved_bit_valid() {
    let chunk = ChunkType::from_text("RuSt").unwrap();
    assert!(chunk.is_reserved_bit_valid());
}

#[test]
pub fn test_chunk_type_is_reserved_bit_invalid() {
    let chunk = ChunkType::from_text("Rust").unwrap();
    assert!(!chunk.is_reserved_bit_valid());
}

#[test]
pub fn test_chunk_type_is_safe_to_copy() {
    let chunk = ChunkType::from_text("RuSt").unwrap();
    assert!(chunk.is_safe_to_copy());
}

#[test]
pub fn test_chunk_type_is_unsafe_to_copy() {
    let chunk = ChunkType::from_text("RuST").unwrap();
    assert!(!chunk.is_safe_to_copy());
}

#[test]
pub fn test_valid_chunk_is_valid() {
    let chunk = ChunkType::from_text("RuSt").unwrap();
    assert!(chunk.is_valid());
}

#[test]
pub fn test_invalid_chunk_is_valid() {
    let chunk = ChunkType::from_text("Rust").unwrap();
    assert!(!chunk.is_valid());

    let chunk = ChunkType::from_text("Ru1t");
    assert!(chunk.is_err());
}

#[test]
pub fn test_chunk_type_string() {
    let chunk = ChunkType::from_text("RuSt").unwrap();
    assert_eq!(chunk.to_text(), "RuSt");
}

#[test]
pub fn test_chunk_type_trait_impls() {
    let chunk_type_1: ChunkType = ChunkType::from_bytes([82, 117, 83, 116]).unwrap();
    let chunk_type_2: ChunkType = ChunkType::from_text("RuSt").unwrap();
    let _chunk_string = format!("{:?}", chunk_type_1);
    let _are_chunks_equal = chunk_type_1 == chunk_type_2;
}

#[test]
fn test_validity_matrix_boundary_letters() {
    // Bit 5 is clear on the uppercase boundary bytes 65 and 90 and set on
    // the lowercase boundary bytes 97 and 122.
    let valid = [
        [65, 65, 65, 65],
        [90, 97, 90, 122],
        [65, 122, 90, 97],
        [90, 90, 65, 65],
    ];
    for bytes in valid {
        assert!(ChunkType::from_bytes(bytes).unwrap().is_valid());
    }
    let invalid = [
        [97, 65, 65, 65],
        [122, 90, 90, 90],
        [65, 65, 97, 65],
        [90, 97, 122, 97],
        [97, 65, 97, 65],
    ];
    for bytes in invalid {
        assert!(!ChunkType::from_bytes(bytes).unwrap().is_valid());
    }
}

#[test]
fn test_from_bytes_reports_offending_byte() {
    let r = ChunkType::from_bytes([82, 117, 49, 116]);
    assert_eq!(r, Err(PngError::TypeError { bad_byte: Some(49) }));
    let r = ChunkType::from_bytes([33, 49, 83, 116]);
    assert_eq!(r, Err(PngError::TypeError { bad_byte: Some(33) }));
}

#[test]
fn test_from_text_wrong_length_is_type_error() {
    assert_eq!(
        ChunkType::from_text("abc"),
        Err(PngError::TypeError { bad_byte: None })
    );
    assert_eq!(
        ChunkType::from_text("abcde"),
        Err(PngError::TypeError { bad_byte: None })
    );
    assert_eq!(
        ChunkType::from_text(""),
        Err(PngError::TypeError { bad_byte: None })
    );
}

#[test]
fn test_text_round_trip() {
    let chunk = ChunkType::from_text("abCD").unwrap();
    assert_eq!(chunk.to_text(), "abCD");
    assert_eq!(chunk.bytes(), [97, 98, 67, 68]);
}
