use pngme::chunk_type::{ChunkType, InvalidTypeCode};

#[test]
pub fn test_chunk_type_from_bytes() {
    let expected = [82, 117, 83, 116];
    let actual = ChunkType::try_from([82, 117, 83, 116]).unwrap();

    assert_eq!(expected, actual.bytes());
}

#[test]
pub fn test_chunk_type_from_str() {
    let expected = ChunkType::try_from([82, 117, 83, 116]).unwrap();
    let actual = ChunkType::from_str("RuSt").unwrap();
    assert_eq!(expected, actual);
}

#[test]
pub fn test_chunk_type_is_critical() {
    let chunk = ChunkType::from_str("RuSt").unwrap();
    assert!(chunk.is_critical());
}

#[test]
pub fn test_chunk_type_is_not_critical() {
    let chunk = ChunkType::from_str("ruSt").unwrap();
    assert!(!chunk.is_critical());
}

#[test]
pub fn test_chunk_type_is_public() {
    let chunk = ChunkType::from_str("RUSt").unwrap();
    assert!(chunk.is_public());
}

#[test]
pub fn test_chunk_type_is_not_public() {
    let chunk = ChunkType::from_str("RuSt").unwrap();
    assert!(!chunk.is_public());
}

#[test]
pub fn test_chunk_type_is_reserved_bit_valid() {
    let chunk = ChunkType::from_str("RuSt").unwrap();
    assert!(chunk.is_reserved_bit_valid());
}

#[test]
pub fn test_chunk_type_is_reserved_bit_invalid() {
    let chunk = ChunkType::from_str("Rust").unwrap();
    assert!(!chunk.is_reserved_bit_valid());
}

#[test]
pub fn test_chunk_type_is_safe_to_copy() {
    let chunk = ChunkType::from_str("RuSt").unwrap();
    assert!(chunk.is_safe_to_copy());
}

#[test]
pub fn test_chunk_type_is_unsafe_to_copy() {
    let chunk = ChunkType::from_str("RuST").unwrap();
    assert!(!chunk.is_safe_to_copy());
}

#[test]
pub fn test_valid_chunk_is_valid() {
    let chunk = ChunkType::from_str("RuSt").unwrap();
    assert!(chunk.is_valid());
}

#[test]
pub fn test_invalid_chunk_is_valid() {
    let chunk = ChunkType::from_str("Rust").unwrap();
    assert!(!chunk.is_valid());

    let chunk = ChunkType::from_str("Ru1t");
    assert!(chunk.is_err());
}

#[test]
pub fn test_chunk_type_string() {
    let chunk = ChunkType::from_str("RuSt").unwrap();
    assert_eq!(&chunk.to_string(), "RuSt");
}

#[test]
pub fn test_chunk_type_trait_impls() {
    let chunk_type_1: ChunkType = ChunkType::try_from([82, 117, 83, 116]).unwrap();
    let chunk_type_2: ChunkType = ChunkType::from_str("RuSt").unwrap();
    let _chunk_string = chunk_type_1.to_string();
    let _are_chunks_equal = chunk_type_1 == chunk_type_2;
}

#[test]
fn case_flags_of_rust_code() {
    let code = ChunkType::from_str("RuSt").unwrap();
    assert!(code.is_critical());
    assert!(!code.is_public());
    assert!(code.is_reserved_bit_valid());
    assert!(code.is_safe_to_copy());
}

#[test]
fn from_str_rejects_wrong_byte_length() {
    assert_eq!(ChunkType::from_str("RuS").unwrap_err(), InvalidTypeCode::WrongLength);
    assert_eq!(ChunkType::from_str("RuStx").unwrap_err(), InvalidTypeCode::WrongLength);
    assert_eq!(ChunkType::from_str("").unwrap_err(), InvalidTypeCode::WrongLength);
    // three characters, four bytes
    assert_eq!(ChunkType::from_str("Ruß").unwrap_err(), InvalidTypeCode::NotAlphabetic);
}

#[test]
fn from_str_rejects_non_letters() {
    assert_eq!(ChunkType::from_str("Ru1t").unwrap_err(), InvalidTypeCode::NotAlphabetic);
    assert_eq!(ChunkType::from_str("Ru t").unwrap_err(), InvalidTypeCode::NotAlphabetic);
    assert_eq!(ChunkType::try_from([82, 117, 64, 116]).unwrap_err(), InvalidTypeCode::NotAlphabetic);
    assert_eq!(ChunkType::try_from([91, 117, 83, 116]).unwrap_err(), InvalidTypeCode::NotAlphabetic);
    assert!(ChunkType::try_from([65, 90, 97, 122]).is_ok());
}

#[test]
fn equality_is_byte_for_byte() {
    let a = ChunkType::from_str("RuSt").unwrap();
    let b = ChunkType::from_str("rust").unwrap();
    assert!(a != b);
    assert_eq!(b.bytes(), [114, 117, 115, 116]);
}
