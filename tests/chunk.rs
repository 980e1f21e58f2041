use pngme::chunk::{Chunk, EncodingError, ParseError};
use pngme::chunk_type::ChunkType;

fn testing_chunk() -> Chunk {
    let data_length: u32 = 42;
    let chunk_type = "RuSt".as_bytes();
    let message_bytes = "This is where your secret message will be!".as_bytes();
    let crc: u32 = 2882656334;

    let chunk_data: Vec<u8> = data_length
        .to_be_bytes()
        .iter()
        .chain(chunk_type.iter())
        .chain(message_bytes.iter())
        .chain(crc.to_be_bytes().iter())
        .copied()
        .collect();

    Chunk::try_from(chunk_data.as_ref()).unwrap()
}

#[test]
fn test_new_chunk() {
    let chunk_type = ChunkType::from_str("RuSt").unwrap();
    let data = "This is where your secret message will be!".as_bytes().to_vec();
    let chunk = Chunk::new(chunk_type, data);
    assert_eq!(chunk.length(), 42);
    assert_eq!(chunk.crc(), 2882656334);
}

#[test]
fn test_chunk_length() {
    let chunk = testing_chunk();
    assert_eq!(chunk.length(), 42);
}

#[test]
fn test_chunk_type() {
    let chunk = testing_chunk();
    assert_eq!(chunk.chunk_type().to_string(), String::from("RuSt"));
}

#[test]
fn test_chunk_string() {
    let chunk = testing_chunk();
    let chunk_string = chunk.data_as_string().unwrap();
    let expected_chunk_string = String::from("This is where your secret message will be!");
    assert_eq!(chunk_string, expected_chunk_string);
}

#[test]
fn test_chunk_crc() {
    let chunk = testing_chunk();
    assert_eq!(chunk.crc(), 2882656334);
}

#[test]
fn test_valid_chunk_from_bytes() {
    let data_length: u32 = 42;
    let chunk_type = "RuSt".as_bytes();
    let message_bytes = "This is where your secret message will be!".as_bytes();
    let crc: u32 = 2882656334;

    let chunk_data: Vec<u8> = data_length
        .to_be_bytes()
        .iter()
        .chain(chunk_type.iter())
        .chain(message_bytes.iter())
        .chain(crc.to_be_bytes().iter())
        .copied()
        .collect();

    let chunk = Chunk::try_from(chunk_data.as_ref()).unwrap();

    let chunk_string = chunk.data_as_string().unwrap();
    let expected_chunk_string = String::from("This is where your secret message will be!");

    assert_eq!(chunk.length(), 42);
    assert_eq!(chunk.chunk_type().to_string(), String::from("RuSt"));
    assert_eq!(chunk_string, expected_chunk_string);
    assert_eq!(chunk.crc(), 2882656334);
}

#[test]
fn test_invalid_chunk_from_bytes() {
    let data_length: u32 = 42;
    let chunk_type = "RuSt".as_bytes();
    let message_bytes = "This is where your secret message will be!".as_bytes();
    let crc: u32 = 2882656333;

    let chunk_data: Vec<u8> = data_length
        .to_be_bytes()
        .iter()
        .chain(chunk_type.iter())
        .chain(message_bytes.iter())
        .chain(crc.to_be_bytes().iter())
        .copied()
        .collect();

    let chunk = Chunk::try_from(chunk_data.as_ref());

    assert!(chunk.is_err());
}

#[test]
pub fn test_chunk_trait_impls() {
    let data_length: u32 = 42;
    let chunk_type = "RuSt".as_bytes();
    let message_bytes = "This is where your secret message will be!".as_bytes();
    let crc: u32 = 2882656334;

    let chunk_data: Vec<u8> = data_length
        .to_be_bytes()
        .iter()
        .chain(chunk_type.iter())
        .chain(message_bytes.iter())
        .chain(crc.to_be_bytes().iter())
        .copied()
        .collect();

    let chunk: Chunk = Chunk::try_from(chunk_data.as_ref()).unwrap();

    let _chunk_string = chunk.data_as_string().unwrap();
}

fn rust_chunk(text: &str) -> Chunk {
    Chunk::new(ChunkType::from_str("RuSt").unwrap(), text.as_bytes().to_vec())
}

#[test]
fn serialized_layout_is_exact() {
    let bytes = rust_chunk("This is where your secret message will be!").as_bytes();
    assert_eq!(bytes.len(), 12 + 42);
    assert_eq!(&bytes[0..4], &[0, 0, 0, 0x2A]);
    assert_eq!(&bytes[4..8], b"RuSt");
    assert_eq!(&bytes[8..50], b"This is where your secret message will be!");
    assert_eq!(&bytes[50..54], &2882656334u32.to_be_bytes());
}

#[test]
fn serialize_with_crc_writes_given_checksum() {
    let chunk = rust_chunk("ab");
    let bytes = chunk.serialize_with_crc(0x01020304);
    assert_eq!(bytes, vec![0, 0, 0, 2, 82, 117, 83, 116, 97, 98, 1, 2, 3, 4]);
}

#[test]
fn crc_of_known_input() {
    // CRC-32/ISO-HDLC of the four bytes "ABCD"
    let chunk = Chunk::new(ChunkType::from_str("ABCD").unwrap(), Vec::new());
    assert_eq!(chunk.crc(), 0xDB1720A5);
    assert_ne!(chunk.crc(), 0);
}

#[test]
fn empty_payload_round_trips() {
    let chunk = Chunk::new(ChunkType::from_str("IEND").unwrap(), Vec::new());
    let bytes = chunk.as_bytes();
    assert_eq!(bytes.len(), 12);
    let back = Chunk::try_from(&bytes[..]).unwrap();
    assert_eq!(back.length(), 0);
    assert_eq!(back.chunk_type(), chunk.chunk_type());
    assert_eq!(back.crc(), chunk.crc());
}

#[test]
fn chunk_round_trip_keeps_fields() {
    let chunk = rust_chunk("hello, world");
    let back = Chunk::try_from(&chunk.as_bytes()[..]).unwrap();
    assert_eq!(back.chunk_type(), chunk.chunk_type());
    assert_eq!(back.data(), chunk.data());
    assert_eq!(back.crc(), chunk.crc());
}

#[test]
fn trailing_bytes_are_left_unread() {
    let mut bytes = rust_chunk("abc").as_bytes();
    bytes.extend_from_slice(&[9, 9, 9]);
    let back = Chunk::try_from(&bytes[..]).unwrap();
    assert_eq!(back.data(), b"abc");
}

#[test]
fn each_parse_error_has_an_input() {
    let good = rust_chunk("abc").as_bytes();
    assert_eq!(Chunk::try_from(&good[..7]).unwrap_err(), ParseError::Truncated);
    assert_eq!(Chunk::try_from(&good[..good.len() - 1]).unwrap_err(), ParseError::Truncated);
    let mut bad_type = good.clone();
    bad_type[5] = b'1';
    assert_eq!(Chunk::try_from(&bad_type[..]).unwrap_err(), ParseError::InvalidTypeCode);
    let mut bad_crc = good.clone();
    let last = bad_crc.len() - 1;
    bad_crc[last] ^= 1;
    assert_eq!(Chunk::try_from(&bad_crc[..]).unwrap_err(), ParseError::CrcMismatch);
}

#[test]
fn single_bit_flips_are_caught() {
    let good = rust_chunk("This is where your secret message will be!").as_bytes();
    for byte in 0..good.len() - 4 {
        for bit in 0..8 {
            let mut bad = good.clone();
            bad[byte] ^= 1 << bit;
            let r = Chunk::try_from(&bad[..]);
            assert!(matches!(
                r.unwrap_err(),
                ParseError::CrcMismatch | ParseError::Truncated | ParseError::InvalidTypeCode
            ));
        }
    }
}

#[test]
fn parse_frame_reads_without_checking() {
    let bytes = rust_chunk("ab").serialize_with_crc(7);
    let (chunk, declared) = Chunk::parse_frame(&bytes, 0).unwrap();
    assert_eq!(declared, 7);
    assert_eq!(chunk.data(), b"ab");
    assert_eq!(Chunk::parse_at(&bytes, 0).unwrap_err(), ParseError::CrcMismatch);
}

#[test]
fn data_as_string_rejects_invalid_utf8() {
    let chunk = Chunk::new(ChunkType::from_str("RuSt").unwrap(), vec![0xff, 0xfe]);
    assert_eq!(chunk.data_as_string().unwrap_err(), EncodingError);
}
