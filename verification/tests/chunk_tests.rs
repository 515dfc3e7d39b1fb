use pngme::chunk::{Chunk, ChunkError};
use pngme::chunk_type::{ChunkType, ChunkTypeError};
use std::convert::TryFrom;
use std::str::FromStr;

fn testing_chunk() -> Chunk {
    let data_length: u32 = 42;
    let chunk_type = "RuSt".as_bytes();
    let message_bytes = "This is where your secret message will be!".as_bytes();
    let crc: u32 = 2882656334;

    let chunk_data: Vec<u8> = data_length
        .to_be_bytes()
        .iter()
        .chain(chunk_type.iter())
        .chain(message_bytes.iter())
        .chain(crc.to_be_bytes().iter())
        .copied()
        .collect();

    Chunk::try_from(chunk_data.as_ref()).unwrap()
}

fn raw_chunk(length: u32, kind: &[u8], data: &[u8], crc: u32) -> Vec<u8> {
    length
        .to_be_bytes()
        .iter()
        .chain(kind.iter())
        .chain(data.iter())
        .chain(crc.to_be_bytes().iter())
        .copied()
        .collect()
}

#[test]
fn test_new_chunk() {
    let chunk_type = ChunkType::from_str("RuSt").unwrap();
    let data = "This is where your secret message will be!".as_bytes().to_vec();
    let chunk = Chunk::new(chunk_type, data);
    assert_eq!(chunk.length(), 42);
    assert_eq!(chunk.crc(), 2882656334);
}

#[test]
fn test_chunk_length() {
    let chunk = testing_chunk();
    assert_eq!(chunk.length(), 42);
}

#[test]
fn test_chunk_type() {
    let chunk = testing_chunk();
    assert_eq!(chunk.chunk_type().to_string(), String::from("RuSt"));
}

#[test]
fn test_chunk_string() {
    let chunk = testing_chunk();
    let chunk_string = chunk.data_as_string().unwrap();
    let expected_chunk_string = String::from("This is where your secret message will be!");
    assert_eq!(chunk_string, expected_chunk_string);
}

#[test]
fn test_chunk_crc() {
    let chunk = testing_chunk();
    assert_eq!(chunk.crc(), 2882656334);
}

#[test]
fn test_valid_chunk_from_bytes() {
    let data_length: u32 = 42;
    let chunk_type = "RuSt".as_bytes();
    let message_bytes = "This is where your secret message will be!".as_bytes();
    let crc: u32 = 2882656334;

    let chunk_data: Vec<u8> = data_length
        .to_be_bytes()
        .iter()
        .chain(chunk_type.iter())
        .chain(message_bytes.iter())
        .chain(crc.to_be_bytes().iter())
        .copied()
        .collect();

    let chunk = Chunk::try_from(chunk_data.as_ref()).unwrap();

    let chunk_string = chunk.data_as_string().unwrap();
    let expected_chunk_string = String::from("This is where your secret message will be!");

    assert_eq!(chunk.length(), 42);
    assert_eq!(chunk.chunk_type().to_string(), String::from("RuSt"));
    assert_eq!(chunk_string, expected_chunk_string);
    assert_eq!(chunk.crc(), 2882656334);
    assert_eq!(chunk.as_bytes(), chunk_data);
}

#[test]
fn test_invalid_chunk_from_bytes() {
    let data_length: u32 = 42;
    let chunk_type = "RuSt".as_bytes();
    let message_bytes = "This is where your secret message will be!".as_bytes();
    let crc: u32 = 2882656333;

    let chunk_data: Vec<u8> = data_length
        .to_be_bytes()
        .iter()
        .chain(chunk_type.iter())
        .chain(message_bytes.iter())
        .chain(crc.to_be_bytes().iter())
        .copied()
        .collect();

    let chunk = Chunk::try_from(chunk_data.as_ref());

    assert!(chunk.is_err());
}

#[test]
pub fn test_chunk_trait_impls() {
    let data_length: u32 = 42;
    let chunk_type = "RuSt".as_bytes();
    let message_bytes = "This is where your secret message will be!".as_bytes();
    let crc: u32 = 2882656334;

    let chunk_data: Vec<u8> = data_length
        .to_be_bytes()
        .iter()
        .chain(chunk_type.iter())
        .chain(message_bytes.iter())
        .chain(crc.to_be_bytes().iter())
        .copied()
        .collect();

    let chunk: Chunk = TryFrom::try_from(chunk_data.as_ref()).unwrap();

    let _chunk_string = format!("{}", chunk.to_string());
}

#[test]
fn a_wrong_checksum_is_bad_crc() {
    let message = "This is where your secret message will be!".as_bytes();
    let bytes = raw_chunk(42, b"RuSt", message, 2882656333);
    assert_eq!(Chunk::try_from(&bytes[..]), Err(ChunkError::BadCrc));
}

#[test]
fn fewer_than_twelve_bytes_are_bad_len() {
    let empty: [u8; 0] = [];
    assert_eq!(Chunk::try_from(&empty[..]), Err(ChunkError::BadLen));
    let eleven = [0u8, 0, 0, 0, b'R', b'u', b'S', b't', 0, 0, 0];
    assert_eq!(Chunk::try_from(&eleven[..]), Err(ChunkError::BadLen));
}

#[test]
fn a_declared_length_that_is_not_the_data_length_is_bad_data_len() {
    let message = "This is where your secret message will be!".as_bytes();
    let short = raw_chunk(41, b"RuSt", message, 2882656334);
    assert_eq!(Chunk::try_from(&short[..]), Err(ChunkError::BadDataLen));
    let long = raw_chunk(43, b"RuSt", message, 2882656334);
    assert_eq!(Chunk::try_from(&long[..]), Err(ChunkError::BadDataLen));
    let huge = raw_chunk(u32::MAX, b"RuSt", message, 2882656334);
    assert_eq!(Chunk::try_from(&huge[..]), Err(ChunkError::BadDataLen));
}

#[test]
fn a_type_field_that_is_no_type_is_reported_as_such() {
    let bytes = raw_chunk(0, b"Ru1t", b"", 0);
    assert_eq!(
        Chunk::try_from(&bytes[..]),
        Err(ChunkError::ChunkType(ChunkTypeError::ByteOutOfRange))
    );
}

#[test]
fn the_type_is_judged_before_the_checksum() {
    let message = "This is where your secret message will be!".as_bytes();
    let bytes = raw_chunk(42, b"Ru$t", message, 1);
    assert_eq!(
        Chunk::try_from(&bytes[..]),
        Err(ChunkError::ChunkType(ChunkTypeError::ByteOutOfRange))
    );
}

#[test]
fn an_empty_chunk_takes_twelve_bytes() {
    let chunk = Chunk::new(ChunkType::from_str("IEND").unwrap(), Vec::new());
    assert_eq!(chunk.length(), 0);
    assert_eq!(chunk.crc(), 2923585666);
    assert_eq!(chunk.data(), &[] as &[u8]);
    assert_eq!(chunk.as_bytes(), vec![0, 0, 0, 0, 73, 69, 78, 68, 0xae, 0x42, 0x60, 0x82]);
    assert_eq!(Chunk::try_from(&chunk.as_bytes()[..]), Ok(chunk));
}

#[test]
fn the_checksum_covers_type_and_data_in_this_order() {
    let chunk = Chunk::new(ChunkType::from_str("teSt").unwrap(), b"hello".to_vec());
    assert_eq!(chunk.crc(), 2716976590);
    assert_eq!(chunk.length(), 5);
    let only_type = Chunk::new(ChunkType::from_str("RuSt").unwrap(), Vec::new());
    assert_eq!(only_type.crc(), 3565422908);
}

#[test]
fn the_serialized_form_is_length_type_data_checksum() {
    let chunk = Chunk::new(ChunkType::from_str("teSt").unwrap(), b"hello".to_vec());
    let expected: Vec<u8> = vec![
        0, 0, 0, 5, b't', b'e', b'S', b't', b'h', b'e', b'l', b'l', b'o', 0xa1, 0xf1, 0xc5, 0xce,
    ];
    assert_eq!(2716976590u32.to_be_bytes(), [0xa1, 0xf1, 0xc5, 0xce]);
    assert_eq!(chunk.as_bytes(), expected);
}

#[test]
fn a_built_chunk_parses_back_from_its_bytes() {
    let cases: Vec<(&str, Vec<u8>)> = vec![
        ("RuSt", b"This is where your secret message will be!".to_vec()),
        ("IEND", Vec::new()),
        ("teSt", vec![0, 255, 1, 254, 128]),
        ("zTXt", (0..=255u8).collect()),
    ];
    for (name, data) in cases {
        let chunk = Chunk::new(ChunkType::from_str(name).unwrap(), data.clone());
        let bytes = chunk.as_bytes();
        assert_eq!(bytes.len(), 12 + data.len());
        let back = Chunk::try_from(&bytes[..]).unwrap();
        assert_eq!(back, chunk);
        assert_eq!(back.data(), &data[..]);
        assert_eq!(back.as_bytes(), bytes);
    }
}

#[test]
fn every_flipped_bit_of_type_or_data_is_refused() {
    let chunk = Chunk::new(ChunkType::from_str("RuSt").unwrap(), b"secret".to_vec());
    let bytes = chunk.as_bytes();
    for at in 4..bytes.len() - 4 {
        for bit in 0..8 {
            let mut tampered = bytes.clone();
            tampered[at] ^= 1 << bit;
            let letter = tampered[at].is_ascii_alphabetic();
            let parsed = Chunk::try_from(&tampered[..]);
            if at < 8 && !letter {
                assert_eq!(parsed, Err(ChunkError::ChunkType(ChunkTypeError::ByteOutOfRange)));
            } else {
                assert_eq!(parsed, Err(ChunkError::BadCrc));
            }
        }
    }
}

#[test]
fn data_that_is_no_text_is_a_utf8_error() {
    let chunk = Chunk::new(ChunkType::from_str("RuSt").unwrap(), vec![0xff, 0xfe, 0x00]);
    let err = chunk.data_as_string().unwrap_err();
    assert!(matches!(err, ChunkError::Utf8(_)));
    let expected = String::from_utf8(vec![0xff, 0xfe, 0x00]).unwrap_err();
    assert_eq!(err, ChunkError::Utf8(expected.clone()));
    assert_eq!(err.to_string(), format!("Error parsing data as utf-8: {}", expected));
}

#[test]
fn data_of_several_bytes_a_character_is_text() {
    let text = "h\u{e9}llo \u{4e16}\u{754c} \u{1f600}";
    let chunk = Chunk::new(ChunkType::from_str("teSt").unwrap(), text.as_bytes().to_vec());
    assert_eq!(chunk.data_as_string().unwrap(), text);
    assert_eq!(chunk.length() as usize, text.len());
}

#[test]
fn chunk_errors_in_words() {
    assert_eq!(ChunkError::BadLen.to_string(), "Too few bytes to parse as a chunk");
    assert_eq!(ChunkError::BadDataLen.to_string(), "Data length does not match header");
    assert_eq!(ChunkError::BadCrc.to_string(), "CRC mismatch");
    assert_eq!(
        ChunkError::ChunkType(ChunkTypeError::ByteOutOfRange).to_string(),
        "ChunkTypeError: Out of range byte encountered!"
    );
    assert_eq!(
        ChunkError::ChunkType(ChunkTypeError::BadLen).to_string(),
        "ChunkTypeError: Too few bytes to construct a Chunk Type"
    );
}

#[test]
fn a_chunk_in_one_line() {
    let chunk = Chunk::new(ChunkType::from_str("teSt").unwrap(), b"hello".to_vec());
    assert_eq!(
        chunk.to_string(),
        "Length: 5, Type: teSt, Data: [68, 65, 6c, 6c, 6f], CRC: a1f1c5ce"
    );
    let empty = Chunk::new(ChunkType::from_str("IEND").unwrap(), Vec::new());
    assert_eq!(empty.to_string(), "Length: 0, Type: IEND, Data: [], CRC: ae426082");
}

#[test]
fn a_clone_is_the_same_chunk() {
    let chunk = testing_chunk();
    let copy = chunk.clone();
    assert_eq!(copy, chunk);
    assert_eq!(copy.as_bytes(), chunk.as_bytes());
}
