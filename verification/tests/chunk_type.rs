use pngme::chunk_type::{ChunkType, ChunkTypeError};
use std::convert::TryFrom;
use std::str::FromStr;

#[test]
pub fn test_chunk_type_from_bytes() {
    let expected = [82, 117, 83, 116];
    let actual = ChunkType::try_from([82, 117, 83, 116]).unwrap();
    assert_eq!(expected, actual.bytes());
}

#[test]
pub fn test_chunk_type_from_str() {
    let expected = ChunkType::try_from([82, 117, 83, 116]).unwrap();
    let actual = ChunkType::from_str("RuSt").unwrap();
    assert_eq!(expected, actual);
}

#[test]
pub fn test_chunk_type_is_critical() {
    let chunk = ChunkType::from_str("RuSt").unwrap();
    assert!(chunk.is_critical());
}

#[test]
pub fn test_chunk_type_is_not_critical() {
    let chunk = ChunkType::from_str("ruSt").unwrap();
    assert!(!chunk.is_critical());
}

#[test]
pub fn test_chunk_type_is_public() {
    let chunk = ChunkType::from_str("RUSt").unwrap();
    assert!(chunk.is_public());
}

#[test]
pub fn test_chunk_type_is_not_public() {
    let chunk = ChunkType::from_str("RuSt").unwrap();
    assert!(!chunk.is_public());
}

#[test]
pub fn test_chunk_type_is_reserved_bit_valid() {
    let chunk = ChunkType::from_str("RuSt").unwrap();
    assert!(chunk.is_reserved_bit_valid());
}

#[test]
pub fn test_chunk_type_is_reserved_bit_invalid() {
    let chunk = ChunkType::from_str("Rust").unwrap();
    assert!(!chunk.is_reserved_bit_valid());
}

#[test]
pub fn test_chunk_type_is_safe_to_copy() {
    let chunk = ChunkType::from_str("RuSt").unwrap();
    assert!(chunk.is_safe_to_copy());
}

#[test]
pub fn test_chunk_type_is_unsafe_to_copy() {
    let chunk = ChunkType::from_str("RuST").unwrap();
    assert!(!chunk.is_safe_to_copy());
}

#[test]
pub fn test_valid_chunk_is_valid() {
    let chunk = ChunkType::from_str("RuSt").unwrap();
    assert!(chunk.is_valid());
}

#[test]
pub fn test_invalid_chunk_is_valid() {
    let chunk = ChunkType::from_str("Rust").unwrap();
    assert!(!chunk.is_valid());
    let chunk = ChunkType::from_str("Ru1t");
    assert!(chunk.is_err());
}

#[test]
pub fn test_chunk_type_string() {
    let chunk = ChunkType::from_str("RuSt").unwrap();
    assert_eq!(&chunk.to_string(), "RuSt");
}

#[test]
pub fn test_chunk_type_trait_impls() {
    let chunk_type_1: ChunkType = TryFrom::try_from([82, 117, 83, 116]).unwrap();
    let chunk_type_2: ChunkType = FromStr::from_str("RuSt").unwrap();
    let _chunk_string = chunk_type_1.to_string();
    let _are_chunks_equal = chunk_type_1 == chunk_type_2;
}

#[test]
fn strict_construction_names_the_first_bad_byte() {
    assert_eq!(
        ChunkType::try_from([82, 49, 50, 116]),
        Err(ChunkTypeError::InvalidTypeByte(49))
    );
}

#[test]
fn strict_construction_refuses_the_reserved_bit() {
    assert_eq!(ChunkType::try_from([82, 117, 115, 116]), Err(ChunkTypeError::ReservedBitSet));
}

#[test]
fn strict_construction_reports_letters_before_the_reserved_bit() {
    assert_eq!(
        ChunkType::try_from([82, 117, 115, 33]),
        Err(ChunkTypeError::InvalidTypeByte(33))
    );
}

#[test]
fn strict_construction_agrees_with_is_valid() {
    let samples: [[u8; 4]; 6] = [
        [82, 117, 83, 116],
        [82, 117, 115, 116],
        [98, 76, 79, 98],
        [65, 90, 97, 122],
        [64, 65, 66, 67],
        [65, 66, 67, 123],
    ];
    for bytes in samples {
        let letters = bytes.iter().all(|b| b.is_ascii_alphabetic());
        let expected = letters && bytes[2] & 0x20 == 0;
        assert_eq!(ChunkType::try_from(bytes).is_ok(), expected);
        if let Ok(raw) = ChunkType::from_raw(bytes) {
            assert_eq!(raw.is_valid(), expected);
        }
    }
}

#[test]
fn letter_bounds() {
    for b in [64u8, 91, 96, 123, 0, 255] {
        assert_eq!(
            ChunkType::from_raw([b, 65, 65, 65]),
            Err(ChunkTypeError::InvalidTypeByte(b))
        );
    }
    for b in [65u8, 90, 97, 122] {
        assert_eq!(ChunkType::from_raw([b, 65, 65, 65]).unwrap().bytes(), [b, 65, 65, 65]);
    }
}

#[test]
fn raw_construction_ignores_the_reserved_bit() {
    let raw = ChunkType::from_raw([82, 117, 115, 116]).unwrap();
    assert_eq!(raw.bytes(), [82, 117, 115, 116]);
    assert!(!raw.is_reserved_bit_valid());
    assert!(!raw.is_valid());
}

#[test]
fn text_longer_than_four_bytes() {
    assert_eq!(ChunkType::from_str("RuStx"), Err(ChunkTypeError::TooLong));
    assert_eq!(ChunkType::from_str("12345"), Err(ChunkTypeError::TooLong));
}

#[test]
fn text_with_a_non_letter() {
    assert_eq!(ChunkType::from_str("Ru1t"), Err(ChunkTypeError::InvalidTypeByte(49)));
    assert_eq!(ChunkType::from_str("R t"), Err(ChunkTypeError::InvalidTypeByte(32)));
}

#[test]
fn short_text_is_padded_with_zero_bytes() {
    let t = ChunkType::from_str("Ru").unwrap();
    assert_eq!(t.bytes(), [82, 117, 0, 0]);
    assert!(!t.is_valid());
    assert_eq!(ChunkType::from_str("").unwrap().bytes(), [0, 0, 0, 0]);
}

#[test]
fn text_does_not_enforce_the_reserved_bit() {
    assert_eq!(ChunkType::from_str("Rust").unwrap().bytes(), [82, 117, 115, 116]);
}

#[test]
fn toggling_bit_five_flips_one_property() {
    let base: [u8; 4] = [82, 117, 83, 116];
    let t = ChunkType::from_raw(base).unwrap();
    let before = [t.is_critical(), t.is_public(), t.is_reserved_bit_valid(), t.is_safe_to_copy()];
    assert_eq!(before, [true, false, true, true]);
    for i in 0..4 {
        let mut bytes = base;
        bytes[i] ^= 0x20;
        let u = ChunkType::from_raw(bytes).unwrap();
        let after = [u.is_critical(), u.is_public(), u.is_reserved_bit_valid(), u.is_safe_to_copy()];
        for k in 0..4 {
            assert_eq!(after[k] != before[k], k == i);
        }
    }
}

#[test]
fn text_of_a_type_code() {
    assert_eq!(ChunkType::from_str("bLOb").unwrap().to_string(), "bLOb");
    assert_eq!(ChunkType::from_str("Ru").unwrap().to_string(), "Ru\0\0");
}

#[test]
fn equality_is_by_bytes() {
    let a = ChunkType::from_str("RuSt").unwrap();
    let b = ChunkType::from_raw([82, 117, 83, 116]).unwrap();
    let c = ChunkType::from_str("RuSu").unwrap();
    assert!(a == b);
    assert!(a != c);
}
