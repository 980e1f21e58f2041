//! A codec for PNG-style containers: an eight-byte signature followed by
//! length-prefixed, typed, CRC-checked chunks.

pub mod checksum;
pub mod text;
pub mod chunk;
pub mod chunk_type;
pub mod png;
pub mod wire;
