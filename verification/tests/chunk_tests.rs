use pngme::chunk::Chunk;
use pngme::chunk_type::ChunkType;
use pngme::PngError;

fn testing_chunk() -> Chunk {
    let data_length: u32 = 42;
    let chunk_type = "RuSt".as_bytes();
    let message_bytes = "This is where your secret message will be!".as_bytes();
    let crc: u32 = 2882656334;

    let chunk_data: Vec<u8> = data_length
        .to_be_bytes()
        .iter()
        .chain(chunk_type.iter())
        .chain(message_bytes.iter())
        .chain(crc.to_be_bytes().iter())
        .copied()
        .collect();

    Chunk::parse(&chunk_data).unwrap()
}

#[test]
fn test_new_chunk() {
    let chunk_type = ChunkType::from_text("RuSt").unwrap();
    let data = "This is where your secret message will be!"
        .as_bytes()
        .to_vec();
    let chunk = Chunk::new(chunk_type, data);
    assert_eq!(chunk.length(), 42);
    assert_eq!(chunk.crc(), 2882656334);
}

#[test]
fn test_chunk_length() {
    let chunk = testing_chunk();
    assert_eq!(chunk.length(), 42);
}

#[test]
fn test_chunk_type() {
    let chunk = testing_chunk();
    assert_eq!(chunk.chunk_type().to_text(), String::from("RuSt"));
}

#[test]
fn test_chunk_string() {
    let chunk = testing_chunk();
    let chunk_string = chunk.data_as_string().unwrap();
    let expected_chunk_string = String::from("This is where your secret message will be!");
    assert_eq!(chunk_string, expected_chunk_string);
}

#[test]
fn test_chunk_crc() {
    let chunk = testing_chunk();
    assert_eq!(chunk.crc(), 2882656334);
}

#[test]
fn test_valid_chunk_from_bytes() {
    let data_length: u32 = 42;
    let chunk_type = "RuSt".as_bytes();
    let message_bytes = "This is where your secret message will be!".as_bytes();
    let crc: u32 = 2882656334;

    let chunk_data: Vec<u8> = data_length
        .to_be_bytes()
        .iter()
        .chain(chunk_type.iter())
        .chain(message_bytes.iter())
        .chain(crc.to_be_bytes().iter())
        .copied()
        .collect();

    let chunk = Chunk::parse(&chunk_data).unwrap();

    let chunk_string = chunk.data_as_string().unwrap();
    let expected_chunk_string = String::from("This is where your secret message will be!");

    assert_eq!(chunk.length(), 42);
    assert_eq!(chunk.chunk_type().to_text(), String::from("RuSt"));
    assert_eq!(chunk_string, expected_chunk_string);
    assert_eq!(chunk.crc(), 2882656334);
}

#[test]
fn test_invalid_chunk_from_bytes() {
    let data_length: u32 = 42;
    let chunk_type = "RuSt".as_bytes();
    let message_bytes = "This is where your secret message will be!".as_bytes();
    let crc: u32 = 2882656333;

    let chunk_data: Vec<u8> = data_length
        .to_be_bytes()
        .iter()
        .chain(chunk_type.iter())
        .chain(message_bytes.iter())
        .chain(crc.to_be_bytes().iter())
        .copied()
        .collect();

    let chunk = Chunk::parse(&chunk_data);

    assert!(chunk.is_err());
}

#[test]
pub fn test_chunk_trait_impls() {
    let data_length: u32 = 42;
    let chunk_type = "RuSt".as_bytes();
    let message_bytes = "This is where your secret message will be!".as_bytes();
    let crc: u32 = 2882656334;

    let chunk_data: Vec<u8> = data_length
        .to_be_bytes()
        .iter()
        .chain(chunk_type.iter())
        .chain(message_bytes.iter())
        .chain(crc.to_be_bytes().iter())
        .copied()
        .collect();

    let chunk: Chunk = Chunk::parse(&chunk_data).unwrap();

    let _chunk_string = format!("{:?}", chunk);
}

#[test]
fn test_record_wire_round_trip() {
    let chunk_type = ChunkType::from_text("abCD").unwrap();
    let chunk = Chunk::new(chunk_type, vec![0, 1, 2, 254, 255]);
    let wire = chunk.as_bytes();
    let back = Chunk::parse(&wire).unwrap();
    assert_eq!(back.chunk_type().bytes(), [97, 98, 67, 68]);
    assert_eq!(back.data(), &vec![0u8, 1, 2, 254, 255]);
    assert_eq!(back.length(), 5);
    assert_eq!(back.crc(), chunk.crc());
}

#[test]
fn test_single_bit_flip_is_integrity_error() {
    let chunk_type = ChunkType::from_text("RuSt").unwrap();
    let chunk = Chunk::new(chunk_type, b"payload".to_vec());
    let wire = chunk.as_bytes();
    // Every bit of the type and payload region, one flip at a time.
    for i in 4..(8 + 7) {
        for bit in 0..8 {
            let mut corrupted = wire.clone();
            corrupted[i] ^= 1u8 << bit;
            let r = Chunk::parse(&corrupted);
            match r {
                Ok(_) => panic!("corruption went unnoticed"),
                Err(PngError::IntegrityError) => {}
                // A flip inside the type bytes may leave the letter range.
                Err(PngError::TypeError { .. }) => assert!(i < 8),
                Err(e) => panic!("unexpected error {:?}", e),
            }
        }
    }
}

#[test]
fn test_truncated_record_is_format_error() {
    assert_eq!(
        Chunk::parse(&vec![0u8, 0, 0]).unwrap_err(),
        PngError::FormatError
    );
    assert_eq!(
        Chunk::parse(&vec![0u8, 0, 0, 1, 82, 117]).unwrap_err(),
        PngError::FormatError
    );
    // Declared length runs past the end of the buffer.
    let short: Vec<u8> = vec![0, 0, 0, 9, 82, 117, 83, 116, 1, 2, 3, 0, 0, 0, 0];
    assert_eq!(Chunk::parse(&short).unwrap_err(), PngError::FormatError);
}

#[test]
fn test_invalid_utf8_payload_is_decode_error() {
    let chunk_type = ChunkType::from_text("RuSt").unwrap();
    let chunk = Chunk::new(chunk_type, vec![0xff, 0xfe, 0x41]);
    assert_eq!(chunk.data_as_string(), Err(PngError::DecodeError));
}

#[test]
fn test_empty_payload_record() {
    let chunk_type = ChunkType::from_text("RuSt").unwrap();
    let chunk = Chunk::new(chunk_type, Vec::new());
    assert_eq!(chunk.length(), 0);
    assert_eq!(chunk.data_as_string().unwrap(), "");
    let wire = chunk.as_bytes();
    assert_eq!(wire.len(), 12);
    let back = Chunk::parse(&wire).unwrap();
    assert_eq!(back.length(), 0);
}
