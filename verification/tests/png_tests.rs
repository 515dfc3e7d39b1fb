use pngme::chunk::{Chunk, ChunkError};
use pngme::chunk_type::{ChunkType, ChunkTypeError};
use pngme::png::{Png, PngError, STANDARD_HEADER};
use std::convert::TryFrom;
use std::str::FromStr;

fn chunk_of(kind: &str, data: &str) -> Chunk {
    Chunk::new(ChunkType::from_str(kind).unwrap(), data.as_bytes().to_vec())
}

fn testing_chunks() -> Vec<Chunk> {
    vec![
        chunk_of("FrSt", "I am the first chunk"),
        chunk_of("miDl", "I am another chunk"),
        chunk_of("LASt", "I am the last chunk"),
    ]
}

fn testing_png() -> Png {
    let mut png = Png::new();
    for chunk in testing_chunks() {
        png.append_chunk(chunk);
    }
    png
}

fn kinds(png: &Png) -> Vec<String> {
    png.chunks().iter().map(|c| c.chunk_type().to_string()).collect()
}

#[test]
fn the_signature_is_the_png_magic() {
    assert_eq!(STANDARD_HEADER, [137, 80, 78, 71, 13, 10, 26, 10]);
    assert_eq!(STANDARD_HEADER, [0x89, 0x50, 0x4e, 0x47, 0x0d, 0x0a, 0x1a, 0x0a]);
}

#[test]
fn an_empty_file_is_the_signature_alone() {
    let png = Png::new();
    assert_eq!(png.chunks().len(), 0);
    assert_eq!(png.as_bytes(), STANDARD_HEADER.to_vec());
    let back = Png::try_from(&STANDARD_HEADER[..]).unwrap();
    assert_eq!(back.chunks().len(), 0);
    assert_eq!(back, png);
}

#[test]
fn a_file_is_the_signature_and_its_chunks_in_order() {
    let png = testing_png();
    let mut expected: Vec<u8> = STANDARD_HEADER.to_vec();
    for chunk in testing_chunks() {
        expected.extend(chunk.as_bytes());
    }
    assert_eq!(png.as_bytes(), expected);
}

#[test]
fn a_file_parses_back_from_its_bytes() {
    let png = testing_png();
    let bytes = png.as_bytes();
    let back = Png::try_from(&bytes[..]).unwrap();
    assert_eq!(back, png);
    assert_eq!(kinds(&back), vec!["FrSt", "miDl", "LASt"]);
    assert_eq!(back.as_bytes(), bytes);
}

#[test]
fn an_appended_message_is_read_back_after_a_round_trip() {
    let mut png = Png::new();
    png.append_chunk(chunk_of("teSt", "hello"));
    let bytes = png.as_bytes();
    let back = Png::try_from(&bytes[..]).unwrap();
    let found = back.chunk_by_type("teSt").unwrap();
    assert_eq!(found.data_as_string().unwrap(), "hello");
}

#[test]
fn chunks_are_appended_at_the_end() {
    let mut png = testing_png();
    png.append_chunk(chunk_of("TeSt", "Message"));
    assert_eq!(kinds(&png), vec!["FrSt", "miDl", "LASt", "TeSt"]);
    assert_eq!(png.chunks()[3].data_as_string().unwrap(), "Message");
}

#[test]
fn the_first_chunk_of_a_type_is_found() {
    let mut png = testing_png();
    png.append_chunk(chunk_of("miDl", "a second one of this type"));
    let found = png.chunk_by_type("miDl").unwrap();
    assert_eq!(found.data_as_string().unwrap(), "I am another chunk");
    assert_eq!(png.chunk_by_type("FrSt").unwrap().data_as_string().unwrap(), "I am the first chunk");
    assert_eq!(png.chunk_by_type("LASt").unwrap().data_as_string().unwrap(), "I am the last chunk");
}

#[test]
fn a_type_that_no_chunk_has_is_not_found() {
    let png = testing_png();
    assert!(png.chunk_by_type("IEND").is_none());
    assert!(png.chunk_by_type("frSt").is_none());
    assert!(Png::new().chunk_by_type("FrSt").is_none());
}

#[test]
fn text_that_is_no_type_finds_no_chunk() {
    let png = testing_png();
    assert!(png.chunk_by_type("").is_none());
    assert!(png.chunk_by_type("Fr1t").is_none());
    assert!(png.chunk_by_type("FrStFrSt").is_none());
}

#[test]
fn removing_takes_the_first_of_two_chunks_of_a_type() {
    let mut png = Png::new();
    png.append_chunk(chunk_of("FrSt", "before"));
    png.append_chunk(chunk_of("teSt", "one"));
    png.append_chunk(chunk_of("miDl", "between"));
    png.append_chunk(chunk_of("teSt", "two"));
    png.append_chunk(chunk_of("LASt", "after"));
    let removed = png.remove_chunk("teSt").unwrap();
    assert_eq!(removed.data_as_string().unwrap(), "one");
    assert_eq!(kinds(&png), vec!["FrSt", "miDl", "teSt", "LASt"]);
    assert_eq!(png.chunks()[0], chunk_of("FrSt", "before"));
    assert_eq!(png.chunks()[1], chunk_of("miDl", "between"));
    assert_eq!(png.chunks()[2], chunk_of("teSt", "two"));
    assert_eq!(png.chunks()[3], chunk_of("LASt", "after"));
    let removed = png.remove_chunk("teSt").unwrap();
    assert_eq!(removed.data_as_string().unwrap(), "two");
    assert_eq!(kinds(&png), vec!["FrSt", "miDl", "LASt"]);
    assert_eq!(png.remove_chunk("teSt"), Err(PngError::ChunkNotFound));
    assert_eq!(kinds(&png), vec!["FrSt", "miDl", "LASt"]);
}

#[test]
fn removing_with_text_that_is_no_type_changes_nothing() {
    let mut png = testing_png();
    assert_eq!(png.remove_chunk("Fr1t"), Err(PngError::ChunkType(ChunkTypeError::ByteOutOfRange)));
    assert_eq!(png.remove_chunk("FrS"), Err(PngError::ChunkType(ChunkTypeError::BadLen)));
    assert_eq!(png, testing_png());
}

#[test]
fn removing_a_type_that_no_chunk_has_changes_nothing() {
    let mut png = testing_png();
    assert_eq!(png.remove_chunk("IEND"), Err(PngError::ChunkNotFound));
    assert_eq!(png, testing_png());
    let mut empty = Png::new();
    assert_eq!(empty.remove_chunk("FrSt"), Err(PngError::ChunkNotFound));
}

#[test]
fn bytes_without_the_signature_are_refused_whatever_follows() {
    let good = testing_png().as_bytes();
    for at in 0..8 {
        let mut bytes = good.clone();
        bytes[at] ^= 1;
        assert_eq!(Png::try_from(&bytes[..]), Err(PngError::SignatureMismatch));
    }
    let mut bytes = vec![13, 80, 78, 71, 13, 10, 26, 10];
    assert_eq!(Png::try_from(&bytes[..]), Err(PngError::SignatureMismatch));
    bytes.extend(chunk_of("FrSt", "valid chunk").as_bytes());
    assert_eq!(Png::try_from(&bytes[..]), Err(PngError::SignatureMismatch));
    bytes.extend(vec![1, 2, 3]);
    assert_eq!(Png::try_from(&bytes[..]), Err(PngError::SignatureMismatch));
}

#[test]
fn fewer_than_eight_bytes_are_refused() {
    let empty: [u8; 0] = [];
    assert_eq!(Png::try_from(&empty[..]), Err(PngError::SignatureMismatch));
    assert_eq!(Png::try_from(&STANDARD_HEADER[..7]), Err(PngError::SignatureMismatch));
}

#[test]
fn a_file_that_ends_within_a_chunk_is_refused_by_the_chunk() {
    let good = testing_png().as_bytes();
    // within the twelve bytes around the data
    let mut bytes = STANDARD_HEADER.to_vec();
    bytes.extend(vec![0, 0, 0, 0, b'I', b'E', b'N']);
    assert_eq!(Png::try_from(&bytes[..]), Err(PngError::Chunk(ChunkError::BadLen)));
    // within the data that the length field declares
    assert_eq!(
        Png::try_from(&good[..good.len() - 1]),
        Err(PngError::Chunk(ChunkError::BadDataLen))
    );
    assert_eq!(Png::try_from(&good[..8 + 12]), Err(PngError::Chunk(ChunkError::BadDataLen)));
    // bytes left over after the last chunk
    let mut bytes = good.clone();
    bytes.push(0);
    assert_eq!(Png::try_from(&bytes[..]), Err(PngError::Chunk(ChunkError::BadLen)));
}

#[test]
fn a_chunk_that_is_wrong_fails_the_whole_file() {
    let good = testing_png().as_bytes();
    let mut bytes = good.clone();
    let last = bytes.len() - 1;
    bytes[last] ^= 0x10;
    assert_eq!(Png::try_from(&bytes[..]), Err(PngError::Chunk(ChunkError::BadCrc)));
    let mut bytes = good.clone();
    bytes[8 + 4] = b'1';
    assert_eq!(
        Png::try_from(&bytes[..]),
        Err(PngError::Chunk(ChunkError::ChunkType(ChunkTypeError::ByteOutOfRange)))
    );
    let mut bytes = good.clone();
    bytes[8 + 12] ^= 0x01;
    assert_eq!(Png::try_from(&bytes[..]), Err(PngError::Chunk(ChunkError::BadCrc)));
}

#[test]
fn a_file_in_lines() {
    let mut png = Png::new();
    assert_eq!(png.to_string(), "Signature: [137, 80, 78, 71, 13, 10, 26, 10]");
    png.append_chunk(chunk_of("teSt", "hello"));
    png.append_chunk(chunk_of("IEND", ""));
    assert_eq!(
        png.to_string(),
        "Signature: [137, 80, 78, 71, 13, 10, 26, 10]\n\
         Length: 5, Type: teSt, Data: [68, 65, 6c, 6c, 6f], CRC: a1f1c5ce\n\
         Length: 0, Type: IEND, Data: [], CRC: ae426082"
    );
}

#[test]
fn png_errors_in_words() {
    assert_eq!(PngError::SignatureMismatch.to_string(), "Signature mismatch");
    assert_eq!(PngError::ChunkNotFound.to_string(), "Chunk not found");
    assert_eq!(
        PngError::ChunkType(ChunkTypeError::BadLen).to_string(),
        "ChunkTypeError: Too few bytes to construct a Chunk Type"
    );
    assert_eq!(PngError::Chunk(ChunkError::BadCrc).to_string(), "ChunkError: CRC mismatch");
}
