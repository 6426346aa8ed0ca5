use pngme::args::{Args, ArgsError, PngArgs};
use pngme::chunk::{Chunk, ChunkError};
use pngme::chunk_type::{ChunkType, ChunkTypeError};
use pngme::png::{Png, PngError};
use std::str::FromStr;

fn stored_file() -> Vec<u8> {
    let chunks = vec![
        Chunk::new(ChunkType::from_str("FrSt").unwrap(), b"I am the first chunk".to_vec()),
        Chunk::new(ChunkType::from_str("biNr").unwrap(), vec![0xff, 0x00]),
        Chunk::new(ChunkType::from_str("LASt").unwrap(), b"I am the last chunk".to_vec()),
    ];
    Png::from_chunks(chunks).as_bytes()
}

fn args(func: PngArgs) -> Args {
    Args::new("picture.png", &stored_file(), func).unwrap()
}

#[test]
fn new_reads_the_file() {
    let a = args(PngArgs::Print());
    assert_eq!(a.png().chunks().len(), 3);
    assert_eq!(a.file_path(), "picture.png");
    assert!(matches!(a.func(), PngArgs::Print()));
    assert_eq!(a.png().as_bytes(), stored_file());
}

#[test]
fn new_refuses_what_is_no_file() {
    let r = Args::new("picture.png", b"not a png at all", PngArgs::Print());
    assert_eq!(r.err(), Some(PngError::BadSignature));
    let mut bytes = stored_file();
    bytes.truncate(8 + 20);
    let r = Args::new("picture.png", &bytes, PngArgs::Print());
    assert_eq!(
        r.err(),
        Some(PngError::MalformedChunk { offset: 8, cause: ChunkError::TruncatedPayload })
    );
}

#[test]
fn encode_appends_a_chunk() {
    let mut a = args(PngArgs::Encode(String::from("RuSt"), String::from("hello")));
    let written = a.encode().unwrap();
    let expected = Chunk::new(ChunkType::from_str("RuSt").unwrap(), b"hello".to_vec());
    assert_eq!(written, expected.as_bytes());
    assert_eq!(a.png().chunks().len(), 4);
    assert_eq!(a.png().chunks()[3], expected);
    let mut file = stored_file();
    file.extend_from_slice(&written);
    assert_eq!(a.png().as_bytes(), file);
}

#[test]
fn encode_refuses_a_bad_type_code() {
    let cases = [
        ("RuStx", ChunkTypeError::TooLong),
        ("Ru1t", ChunkTypeError::InvalidTypeByte(49)),
        ("Ru", ChunkTypeError::InvalidTypeByte(0)),
        ("Rust", ChunkTypeError::ReservedBitSet),
    ];
    for (text, error) in cases {
        let mut a = args(PngArgs::Encode(String::from(text), String::from("hello")));
        assert_eq!(a.encode(), Err(ArgsError::InvalidChunkType(error)));
        assert_eq!(a.png().as_bytes(), stored_file());
    }
}

#[test]
fn encode_needs_its_command() {
    let mut a = args(PngArgs::Decode(String::from("RuSt")));
    assert_eq!(a.encode(), Err(ArgsError::WrongCommand));
    let mut a = args(PngArgs::Print());
    assert_eq!(a.encode(), Err(ArgsError::WrongCommand));
    assert_eq!(a.png().as_bytes(), stored_file());
}

#[test]
fn decode_shows_the_message() {
    let a = args(PngArgs::Decode(String::from("LASt")));
    assert_eq!(a.decode(), Some(String::from("I am the last chunk")));
}

#[test]
fn decode_finds_nothing() {
    assert_eq!(args(PngArgs::Decode(String::from("RuSt"))).decode(), None);
    assert_eq!(args(PngArgs::Decode(String::from("toolong"))).decode(), None);
    assert_eq!(args(PngArgs::Decode(String::from("biNr"))).decode(), None);
    assert_eq!(args(PngArgs::Delete(String::from("LASt"))).decode(), None);
}

#[test]
fn remove_deletes_the_chunk() {
    let mut a = args(PngArgs::Delete(String::from("biNr")));
    let written = a.remove().unwrap();
    let expected = Png::from_chunks(vec![
        Chunk::new(ChunkType::from_str("FrSt").unwrap(), b"I am the first chunk".to_vec()),
        Chunk::new(ChunkType::from_str("LASt").unwrap(), b"I am the last chunk".to_vec()),
    ]);
    assert_eq!(written, expected.as_bytes());
    assert_eq!(a.png(), &expected);
}

#[test]
fn remove_fails_without_the_chunk() {
    let mut a = args(PngArgs::Delete(String::from("RuSt")));
    assert_eq!(a.remove(), Err(ArgsError::ChunkNotFound));
    assert_eq!(a.png().as_bytes(), stored_file());
    let mut a = args(PngArgs::Delete(String::from("Ru5t")));
    assert_eq!(a.remove(), Err(ArgsError::InvalidChunkType(ChunkTypeError::InvalidTypeByte(53))));
    let mut a = args(PngArgs::Decode(String::from("biNr")));
    assert_eq!(a.remove(), Err(ArgsError::WrongCommand));
    assert_eq!(a.png().as_bytes(), stored_file());
}

#[test]
fn encode_then_decode() {
    let mut a = args(PngArgs::Encode(String::from("RuSt"), String::from("a secret")));
    let written = a.encode().unwrap();
    let mut file = stored_file();
    file.extend_from_slice(&written);
    let b = Args::new("picture.png", &file, PngArgs::Decode(String::from("RuSt"))).unwrap();
    assert_eq!(b.decode(), Some(String::from("a secret")));
}
