use vstd::prelude::*;
use vstd::utf8::{decode_utf8, valid_utf8};

use crate::checksum::{crc32, crc32_of};
use crate::chunk_type::{valid_type_code, ChunkType};
use crate::text::utf8_to_string;
use crate::wire::{
    be_bytes, be_value, copy_range, lemma_be_round_trip, lemma_be_value_injective, push_all,
    push_be_u32, read_be_u32,
};

verus! {

/// What a chunk holds: its type code's four bytes and its payload.
pub type ChunkModel = (Seq<u8>, Seq<u8>);

/// A chunk that can be built: a type code of four letters, and a payload
/// whose length fits the 32-bit length field.
pub open spec fn valid_chunk(m: ChunkModel) -> bool {
    valid_type_code(m.0) && m.1.len() <= u32::MAX
}

/// The checksum of a chunk: CRC-32 over its type code followed by its payload.
pub open spec fn chunk_crc(m: ChunkModel) -> u32 {
    crc32_of(m.0 + m.1)
}

/// The wire form of a chunk with a given value in its checksum field.
pub open spec fn frame_bytes(m: ChunkModel, crc: u32) -> Seq<u8> {
    be_bytes(m.1.len() as u32) + m.0 + m.1 + be_bytes(crc)
}

/// The wire form of a chunk: length, type code, payload, checksum.
pub open spec fn chunk_bytes(m: ChunkModel) -> Seq<u8> {
    frame_bytes(m, chunk_crc(m))
}

/// The number of bytes that the chunk at the front of `b` takes.
pub open spec fn frame_len(b: Seq<u8>) -> int {
    12 + be_value(b) as int
}

/// Reads the fields of the chunk at the front of `b`, with the value of its
/// checksum field, without checking that value.
pub open spec fn parse_frame_spec(b: Seq<u8>) -> Result<(ChunkModel, u32), ParseError> {
    if b.len() < 8 {
        Err(ParseError::Truncated)
    } else if !valid_type_code(b.subrange(4, 8)) {
        Err(ParseError::InvalidTypeCode)
    } else if b.len() < frame_len(b) {
        Err(ParseError::Truncated)
    } else {
        let n = frame_len(b);
        Ok(((b.subrange(4, 8), b.subrange(8, n - 4)), be_value(b.subrange(n - 4, n))))
    }
}

/// Parses the chunk at the front of `b`, checking its checksum.
pub open spec fn parse_chunk_spec(b: Seq<u8>) -> Result<ChunkModel, ParseError> {
    match parse_frame_spec(b) {
        Err(e) => Err(e),
        Ok((m, crc)) => if crc == chunk_crc(m) {
            Ok(m)
        } else {
            Err(ParseError::CrcMismatch)
        },
    }
}

/// The first four bytes of `b ++ rest` give the same integer as those of `b`.
proof fn lemma_be_value_prefix(b: Seq<u8>, rest: Seq<u8>)
    requires
        b.len() >= 4,
    ensures
        be_value(b + rest) == be_value(b),
{
    assert((b + rest)[0] == b[0] && (b + rest)[1] == b[1] && (b + rest)[2] == b[2] && (b
        + rest)[3] == b[3]);
}

/// Where each field of a chunk's wire form stands.
proof fn lemma_chunk_bytes_fields(m: ChunkModel)
    requires
        valid_chunk(m),
    ensures
        chunk_bytes(m).len() == 12 + m.1.len() as int,
        be_value(chunk_bytes(m)) == m.1.len(),
        chunk_bytes(m).subrange(4, 8) == m.0,
        chunk_bytes(m).subrange(8, 8 + m.1.len() as int) == m.1,
        chunk_bytes(m).subrange(8 + m.1.len() as int, 12 + m.1.len() as int) == be_bytes(chunk_crc(m)),
        be_value(be_bytes(chunk_crc(m))) == chunk_crc(m),
{
    let len = m.1.len() as u32;
    let crc = chunk_crc(m);
    let w = chunk_bytes(m);
    lemma_be_round_trip(len);
    lemma_be_round_trip(crc);
    lemma_be_value_prefix(be_bytes(len), m.0 + m.1 + be_bytes(crc));
    assert(be_bytes(len) + (m.0 + m.1 + be_bytes(crc)) =~= w);
    assert(w.subrange(4, 8) =~= m.0);
    assert(w.subrange(8, 8 + m.1.len() as int) =~= m.1);
    assert(w.subrange(8 + m.1.len() as int, 12 + m.1.len() as int) =~= be_bytes(crc));
}

/// Parsing the wire form of a valid chunk gives the chunk back, whatever
/// bytes follow it, and the chunk takes exactly its wire form's length.
pub proof fn lemma_chunk_round_trip(m: ChunkModel, rest: Seq<u8>)
    requires
        valid_chunk(m),
    ensures
        parse_chunk_spec(chunk_bytes(m) + rest) == Ok::<ChunkModel, ParseError>(m),
        frame_len(chunk_bytes(m) + rest) == chunk_bytes(m).len(),
        chunk_bytes(m).len() == 12 + m.1.len() as int,
{
    let len = m.1.len() as u32;
    let crc = chunk_crc(m);
    let w = chunk_bytes(m);
    let b = w + rest;
    lemma_be_round_trip(len);
    lemma_be_round_trip(crc);
    let n: int = 12 + m.1.len() as int;
    assert(w.len() == n);
    lemma_be_value_prefix(w, rest);
    lemma_be_value_prefix(be_bytes(len), m.0 + m.1 + be_bytes(crc));
    assert(be_bytes(len) + (m.0 + m.1 + be_bytes(crc)) =~= w);
    assert(frame_len(b) == n);
    assert(b.subrange(4, 8) =~= m.0);
    assert(b.subrange(8, n - 4) =~= m.1);
    assert(b.subrange(n - 4, n) =~= be_bytes(crc));
}

/// Flipping one bit in the type code or payload of a chunk's wire form is
/// caught: parsing fails with `InvalidTypeCode` or `CrcMismatch`, unless the
/// altered type code and payload have the very checksum of the original.
pub proof fn lemma_flipped_bit_needs_crc_collision(m: ChunkModel, j: int, k: u8)
    requires
        valid_chunk(m),
        4 <= j < 8 + m.1.len() as int,
        k < 8,
    ensures
        ({
            let b = chunk_bytes(m);
            let f = b.update(j, b[j] ^ (1u8 << k));
            let r = parse_chunk_spec(f);
            &&& f.subrange(4, f.len() - 4) != m.0 + m.1
            &&& (r is Ok <==> valid_type_code(f.subrange(4, 8)) && crc32_of(
                f.subrange(4, f.len() - 4),
            ) == chunk_crc(m))
            &&& (r is Err ==> r == Err::<ChunkModel, ParseError>(ParseError::InvalidTypeCode) || r
                == Err::<ChunkModel, ParseError>(ParseError::CrcMismatch))
        }),
{
    let b = chunk_bytes(m);
    let x = b[j];
    let f = b.update(j, x ^ (1u8 << k));
    let n: int = 12 + m.1.len() as int;
    lemma_chunk_bytes_fields(m);
    assert(x ^ (1u8 << k) != x) by (bit_vector)
        requires
            k < 8,
    ;
    assert(f[0] == b[0] && f[1] == b[1] && f[2] == b[2] && f[3] == b[3]);
    assert(be_value(f) == be_value(b));
    assert(frame_len(f) == n);
    assert(f.subrange(n - 4, n) =~= b.subrange(n - 4, n));
    assert(b.subrange(4, n - 4) =~= m.0 + m.1);
    assert(f.subrange(4, n - 4)[j - 4] != (m.0 + m.1)[j - 4]);
    let t = f.subrange(4, 8);
    let d = f.subrange(8, n - 4);
    assert(t + d =~= f.subrange(4, n - 4));
    if valid_type_code(t) {
        assert(parse_frame_spec(f) == Ok::<(ChunkModel, u32), ParseError>(
            ((t, d), chunk_crc(m)),
        ));
    } else {
        assert(parse_frame_spec(f) == Err::<(ChunkModel, u32), ParseError>(
            ParseError::InvalidTypeCode,
        ));
    }
}

/// Flipping one bit of the length field of a chunk's wire form is caught:
/// a larger length runs past the end (`Truncated`); a smaller one parses only
/// if the bytes now read as the checksum field happen to be the checksum of
/// the shortened chunk, and otherwise fails with `CrcMismatch`.
pub proof fn lemma_flipped_length_bit(m: ChunkModel, j: int, k: u8)
    requires
        valid_chunk(m),
        0 <= j < 4,
        k < 8,
    ensures
        ({
            let b = chunk_bytes(m);
            let f = b.update(j, b[j] ^ (1u8 << k));
            let n = be_value(f) as int;
            let r = parse_chunk_spec(f);
            &&& n != m.1.len()
            &&& (n > m.1.len() ==> r == Err::<ChunkModel, ParseError>(ParseError::Truncated))
            &&& (r is Ok ==> n < m.1.len() && crc32_of(f.subrange(4, 8 + n)) == be_value(
                f.subrange(8 + n, 12 + n),
            ))
            &&& (r is Err ==> r == Err::<ChunkModel, ParseError>(ParseError::Truncated) || r
                == Err::<ChunkModel, ParseError>(ParseError::CrcMismatch))
        }),
{
    let b = chunk_bytes(m);
    let x = b[j];
    let f = b.update(j, x ^ (1u8 << k));
    lemma_chunk_bytes_fields(m);
    assert(x ^ (1u8 << k) != x) by (bit_vector)
        requires
            k < 8,
    ;
    if be_value(f) == be_value(b) {
        lemma_be_value_injective(f, b);
        assert(f[j] == b[j]);
    }
    let len = m.1.len() as int;
    let n = be_value(f) as int;
    assert(f.subrange(4, 8) =~= b.subrange(4, 8));
    assert(f.len() == 12 + len);
    assert(frame_len(f) == 12 + n);
    if n < len {
        let t = f.subrange(4, 8);
        let d = f.subrange(8, 8 + n);
        assert(f.subrange(4, 8 + n) =~= t + d);
        assert(parse_frame_spec(f) == Ok::<(ChunkModel, u32), ParseError>(
            ((t, d), be_value(f.subrange(8 + n, 12 + n))),
        ));
    } else {
        assert(parse_frame_spec(f) == Err::<(ChunkModel, u32), ParseError>(ParseError::Truncated));
    }
}

/// Why bytes could not be read as a chunk or a container.
#[derive(Debug, Clone, Copy, PartialEq, Eq, Structural)]
pub enum ParseError {
    /// The container does not open with the signature.
    BadSignature,
    /// Fewer bytes than the chunk's fields and declared length need.
    Truncated,
    /// The checksum field differs from the checksum of type code and payload.
    CrcMismatch,
    /// The type code holds a byte that is not an ASCII letter.
    InvalidTypeCode,
}

/// The payload is not valid UTF-8.
#[derive(Debug, Clone, Copy, PartialEq, Eq, Structural)]
pub struct EncodingError;

/// One record: a type code and a payload. Its length and checksum are
/// computed from them.
#[derive(Debug)]
pub struct Chunk {
    chunk_type: ChunkType,
    chunk_data: Vec<u8>,
}

impl View for Chunk {
    type V = ChunkModel;

    closed spec fn view(&self) -> ChunkModel {
        (self.chunk_type@, self.chunk_data@)
    }
}

/// The model of a parse result.
pub open spec fn result_view<T: View>(r: Result<T, ParseError>) -> Result<T::V, ParseError> {
    match r {
        Ok(t) => Ok(t@),
        Err(e) => Err(e),
    }
}

impl Chunk {
    #[verifier::type_invariant]
    spec fn length_fits(self) -> bool {
        self.chunk_data@.len() <= u32::MAX
    }

    /// Makes a chunk of the given type holding `data`.
    pub fn new(chunk_type: ChunkType, data: Vec<u8>) -> (r: Chunk)
        requires
            data@.len() <= u32::MAX,
        ensures
            r@ == (chunk_type@, data@),
    {
        Chunk { chunk_type, chunk_data: data }
    }

    /// The number of payload bytes.
    pub fn length(&self) -> (r: u32)
        ensures
            r as int == self@.1.len(),
    {
        proof {
            use_type_invariant(self);
        }
        self.chunk_data.len() as u32
    }

    /// The type code.
    pub fn chunk_type(&self) -> (r: &ChunkType)
        ensures
            r@ == self@.0,
    {
        &self.chunk_type
    }

    /// The payload.
    pub fn data(&self) -> (r: &[u8])
        ensures
            r@ == self@.1,
    {
        self.chunk_data.as_slice()
    }

    /// The checksum over type code and payload.
    pub fn crc(&self) -> (r: u32)
        ensures
            r == chunk_crc(self@),
    {
        let mut all: Vec<u8> = Vec::new();
        let code = self.chunk_type.bytes();
        push_all(&mut all, code.as_slice());
        push_all(&mut all, self.chunk_data.as_slice());
        crc32(all.as_slice())
    }

    /// The payload read as UTF-8 text.
    pub fn data_as_string(&self) -> (r: Result<String, EncodingError>)
        ensures
            r is Ok <==> valid_utf8(self@.1),
            r matches Ok(s) ==> s@ == decode_utf8(self@.1),
    {
        match utf8_to_string(self.chunk_data.clone()) {
            Some(s) => Ok(s),
            None => Err(EncodingError),
        }
    }

    /// The wire form with `crc` in the checksum field.
    pub fn serialize_with_crc(&self, crc: u32) -> (r: Vec<u8>)
        ensures
            r@ == frame_bytes(self@, crc),
            valid_chunk(self@),
    {
        let mut out: Vec<u8> = Vec::new();
        push_be_u32(&mut out, self.length());
        let code = self.chunk_type.bytes();
        push_all(&mut out, code.as_slice());
        push_all(&mut out, self.chunk_data.as_slice());
        push_be_u32(&mut out, crc);
        proof {
            use_type_invariant(self);
        }
        out
    }

    /// The wire form: length, type code, payload and checksum.
    pub fn as_bytes(&self) -> (r: Vec<u8>)
        ensures
            r@ == chunk_bytes(self@),
            valid_chunk(self@),
    {
        let crc = self.crc();
        self.serialize_with_crc(crc)
    }

    /// Reads the fields of the chunk that starts at `start`, with the value of
    /// its checksum field, without checking that value.
    pub fn parse_frame(bytes: &[u8], start: usize) -> (r: Result<(Chunk, u32), ParseError>)
        requires
            start <= bytes@.len(),
        ensures
            match r {
                Ok((c, crc)) => parse_frame_spec(bytes@.subrange(start as int, bytes@.len() as int))
                    == Ok::<(ChunkModel, u32), ParseError>((c@, crc)),
                Err(e) => parse_frame_spec(bytes@.subrange(start as int, bytes@.len() as int))
                    == Err::<(ChunkModel, u32), ParseError>(e),
            },
    {
        let ghost b = bytes@.subrange(start as int, bytes@.len() as int);
        let avail = bytes.len() - start;
        if avail < 8 {
            return Err(ParseError::Truncated);
        }
        let code: [u8; 4] = [bytes[start + 4], bytes[start + 5], bytes[start + 6], bytes[start + 7]];
        assert(code@ =~= b.subrange(4, 8));
        let chunk_type = match ChunkType::try_from(code) {
            Ok(t) => t,
            Err(_) => {
                return Err(ParseError::InvalidTypeCode);
            },
        };
        let len = read_be_u32(bytes, start);
        assert(bytes@.subrange(start as int, start + 4) =~= b.subrange(0, 4));
        assert(be_value(b) == be_value(b.subrange(0, 4)));
        if avail - 8 < len as usize || avail - 8 - (len as usize) < 4 {
            return Err(ParseError::Truncated);
        }
        let data_end = start + 8 + len as usize;
        let data = copy_range(bytes, start + 8, data_end);
        let crc = read_be_u32(bytes, data_end);
        assert(data@ =~= b.subrange(8, frame_len(b) - 4));
        assert(bytes@.subrange(data_end as int, data_end + 4) =~= b.subrange(
            frame_len(b) - 4,
            frame_len(b),
        ));
        assert(be_value(b.subrange(frame_len(b) - 4, frame_len(b))) == be_value(
            bytes@.subrange(data_end as int, data_end + 4),
        ));
        Ok((Chunk { chunk_type, chunk_data: data }, crc))
    }

    /// Parses the chunk that starts at `start`, checking its checksum.
    pub fn parse_at(bytes: &[u8], start: usize) -> (r: Result<Chunk, ParseError>)
        requires
            start <= bytes@.len(),
        ensures
            result_view(r) == parse_chunk_spec(bytes@.subrange(start as int, bytes@.len() as int)),
    {
        match Chunk::parse_frame(bytes, start) {
            Err(e) => Err(e),
            Ok((c, declared)) => {
                if c.crc() == declared {
                    Ok(c)
                } else {
                    Err(ParseError::CrcMismatch)
                }
            },
        }
    }

    /// Parses the chunk at the front of `bytes`, checking its checksum. Bytes
    /// after the chunk are left unread.
    pub fn try_from(bytes: &[u8]) -> (r: Result<Chunk, ParseError>)
        ensures
            result_view(r) == parse_chunk_spec(bytes@),
    {
        assert(bytes@.subrange(0, bytes@.len() as int) =~= bytes@);
        Chunk::parse_at(bytes, 0)
    }
}

} // verus!
