use vstd::prelude::*;
use vstd::string::StringExecFns;
use vstd::utf8::{decode_utf8, valid_utf8};

use crate::chunk::{
    chunk_bytes, frame_len, lemma_chunk_round_trip, parse_chunk_spec, result_view, valid_chunk,
    Chunk, ChunkModel, EncodingError, ParseError,
};
use crate::chunk_type::{lemma_letters_ascii, type_text};
use crate::text::lemma_ascii_text_eq;
use crate::wire::push_all;

verus! {

/// The eight bytes that open every container.
pub open spec fn signature() -> Seq<u8> {
    seq![137u8, 80u8, 78u8, 71u8, 13u8, 10u8, 26u8, 10u8]
}

/// The wire forms of the chunks, one after another.
pub open spec fn chunks_bytes(cs: Seq<ChunkModel>) -> Seq<u8>
    decreases cs.len(),
{
    if cs.len() == 0 {
        seq![]
    } else {
        chunk_bytes(cs[0]) + chunks_bytes(cs.drop_first())
    }
}

/// The wire form of a container: the signature, then its chunks.
pub open spec fn png_bytes(cs: Seq<ChunkModel>) -> Seq<u8> {
    signature() + chunks_bytes(cs)
}

/// Parses chunks one after another until the bytes run out; the first
/// failure is the result.
pub open spec fn parse_chunks(b: Seq<u8>) -> Result<Seq<ChunkModel>, ParseError>
    decreases b.len(),
{
    if b.len() == 0 {
        Ok(seq![])
    } else {
        match parse_chunk_spec(b) {
            Err(e) => Err(e),
            Ok(m) => match parse_chunks(b.subrange(frame_len(b), b.len() as int)) {
                Ok(rest) => Ok(seq![m] + rest),
                Err(e) => Err(e),
            },
        }
    }
}

/// Parses a container: the signature, then chunks up to the end.
pub open spec fn png_parse_spec(b: Seq<u8>) -> Result<Seq<ChunkModel>, ParseError> {
    if b.len() >= 8 && b.subrange(0, 8) == signature() {
        parse_chunks(b.subrange(8, b.len() as int))
    } else {
        Err(ParseError::BadSignature)
    }
}

/// `r` with the chunks `s` put before the chunks it holds.
pub open spec fn prepend(s: Seq<ChunkModel>, r: Result<Seq<ChunkModel>, ParseError>) -> Result<
    Seq<ChunkModel>,
    ParseError,
> {
    match r {
        Ok(t) => Ok(s + t),
        Err(e) => Err(e),
    }
}

/// True when the chunk's type code reads as `name`.
pub open spec fn has_type(m: ChunkModel, name: Seq<char>) -> bool {
    type_text(m.0) == name
}

/// True when `i` is the position of the first chunk of type `name`.
pub open spec fn is_first_of_type(cs: Seq<ChunkModel>, name: Seq<char>, i: int) -> bool {
    &&& 0 <= i < cs.len()
    &&& has_type(cs[i], name)
    &&& forall|j: int| 0 <= j < i ==> !#[trigger] has_type(cs[j], name)
}

/// True when some chunk has type `name`.
pub open spec fn has_chunk_of_type(cs: Seq<ChunkModel>, name: Seq<char>) -> bool {
    exists|i: int| 0 <= i < cs.len() && #[trigger] has_type(cs[i], name)
}

/// The text rendering of the chunks: each payload decoded, followed by a
/// line break.
pub open spec fn rendered(cs: Seq<ChunkModel>) -> Seq<char>
    decreases cs.len(),
{
    if cs.len() == 0 {
        seq![]
    } else {
        rendered(cs.drop_last()) + decode_utf8(cs.last().1) + seq!['\n']
    }
}

/// No chunk of the requested type is in the container.
#[derive(Debug, Clone, Copy, PartialEq, Eq, Structural)]
pub struct NotFoundError;

/// A container: the signature followed by an ordered list of chunks.
#[derive(Debug)]
pub struct Png {
    chunks: Vec<Chunk>,
}

impl View for Png {
    type V = Seq<ChunkModel>;

    closed spec fn view(&self) -> Seq<ChunkModel> {
        self.chunks@.map_values(|c: Chunk| c@)
    }
}

/// Appending a chunk's wire form to that of a list of chunks gives the wire
/// form of the longer list.
proof fn lemma_chunks_bytes_push(cs: Seq<ChunkModel>, m: ChunkModel)
    ensures
        chunks_bytes(cs.push(m)) == chunks_bytes(cs) + chunk_bytes(m),
    decreases cs.len(),
{
    if cs.len() == 0 {
        assert(cs.push(m).drop_first() =~= seq![]);
        assert(cs.push(m)[0] == m);
        assert(chunks_bytes(cs.push(m).drop_first()) == Seq::<u8>::empty());
        assert(chunks_bytes(cs) == Seq::<u8>::empty());
        assert(chunks_bytes(cs.push(m)) =~= chunk_bytes(m));
    } else {
        assert(cs.push(m).drop_first() =~= cs.drop_first().push(m));
        assert(cs.push(m)[0] == cs[0]);
        lemma_chunks_bytes_push(cs.drop_first(), m);
        assert(chunks_bytes(cs.push(m)) =~= chunks_bytes(cs) + chunk_bytes(m));
    }
}

/// Unfolds one step of parsing a run of chunks.
proof fn lemma_parse_chunks_step(b: Seq<u8>, m: ChunkModel)
    requires
        b.len() > 0,
        parse_chunk_spec(b) == Ok::<ChunkModel, ParseError>(m),
    ensures
        parse_chunks(b) == prepend(seq![m], parse_chunks(b.subrange(frame_len(b), b.len() as int))),
{
}

/// The chunks of a list of valid chunks are read back from its wire form.
pub proof fn lemma_chunks_round_trip(cs: Seq<ChunkModel>)
    requires
        forall|i: int| 0 <= i < cs.len() ==> valid_chunk(#[trigger] cs[i]),
    ensures
        parse_chunks(chunks_bytes(cs)) == Ok::<Seq<ChunkModel>, ParseError>(cs),
    decreases cs.len(),
{
    if cs.len() > 0 {
        let tail = cs.drop_first();
        assert(forall|i: int| 0 <= i < tail.len() ==> #[trigger] tail[i] == cs[i + 1]);
        lemma_chunks_round_trip(tail);
        let b = chunks_bytes(cs);
        lemma_chunk_round_trip(cs[0], chunks_bytes(tail));
        let n = chunk_bytes(cs[0]).len() as int;
        assert(b == chunk_bytes(cs[0]) + chunks_bytes(tail));
        assert(b.subrange(n, b.len() as int) =~= chunks_bytes(tail));
        lemma_parse_chunks_step(b, cs[0]);
        assert(seq![cs[0]] + tail =~= cs);
    } else {
        assert(cs =~= Seq::<ChunkModel>::empty());
    }
}

/// Parsing the wire form of a container of valid chunks gives back the same
/// chunks in the same order.
pub proof fn lemma_png_round_trip(cs: Seq<ChunkModel>)
    requires
        forall|i: int| 0 <= i < cs.len() ==> valid_chunk(#[trigger] cs[i]),
    ensures
        png_parse_spec(png_bytes(cs)) == Ok::<Seq<ChunkModel>, ParseError>(cs),
{
    let b = png_bytes(cs);
    assert(b.subrange(0, 8) =~= signature());
    assert(b.subrange(8, b.len() as int) =~= chunks_bytes(cs));
    lemma_chunks_round_trip(cs);
}

/// True when the chunk's type code reads as `name`.
fn type_matches(c: &Chunk, name: &str) -> (r: bool)
    ensures
        r == has_type(c@, name@),
{
    let code = c.chunk_type().bytes();
    let given = name.as_bytes();
    proof {
        lemma_letters_ascii(c@.0);
        lemma_ascii_text_eq(name@, c@.0);
    }
    if given.len() != 4 {
        return false;
    }
    let r = given[0] == code[0] && given[1] == code[1] && given[2] == code[2] && given[3]
        == code[3];
    proof {
        if r {
            assert(given@ =~= code@);
        } else {
            assert(given@ != code@);
        }
    }
    r
}

impl Png {
    /// A container holding `chunks`, in that order.
    pub fn from_chunks(chunks: Vec<Chunk>) -> (r: Png)
        ensures
            r@ == chunks@.map_values(|c: Chunk| c@),
    {
        Png { chunks }
    }

    /// The chunks, in order.
    pub fn chunks(&self) -> (r: &[Chunk])
        ensures
            r@.map_values(|c: Chunk| c@) == self@,
    {
        self.chunks.as_slice()
    }

    /// Adds `chunk` at the end.
    pub fn append_chunk(&mut self, chunk: Chunk)
        ensures
            final(self)@ == old(self)@.push(chunk@),
    {
        self.chunks.push(chunk);
        assert(final(self)@ =~= old(self)@.push(chunk@));
    }

    /// The first chunk whose type code reads as `name`, if any.
    pub fn chunk_by_type(&self, name: &str) -> (r: Option<&Chunk>)
        ensures
            r is None <==> !has_chunk_of_type(self@, name@),
            r matches Some(c) ==> exists|i: int|
                #[trigger] is_first_of_type(self@, name@, i) && c@ == self@[i],
    {
        let mut i: usize = 0;
        while i < self.chunks.len()
            invariant
                0 <= i <= self.chunks@.len(),
                self@.len() == self.chunks@.len(),
                forall|j: int| 0 <= j < i ==> !#[trigger] has_type(self@[j], name@),
            decreases self.chunks@.len() - i,
        {
            if type_matches(&self.chunks[i], name) {
                assert(is_first_of_type(self@, name@, i as int));
                return Some(&self.chunks[i]);
            }
            i = i + 1;
        }
        None
    }

    /// Takes out the first chunk whose type code reads as `name`; the chunks
    /// after it move up by one. Leaves the container as it was when there is
    /// none.
    pub fn remove_first_chunk(&mut self, name: &str) -> (r: Result<Chunk, NotFoundError>)
        ensures
            r is Err <==> !has_chunk_of_type(old(self)@, name@),
            r is Err ==> final(self)@ == old(self)@,
            r matches Ok(c) ==> exists|i: int|
                #[trigger] is_first_of_type(old(self)@, name@, i) && c@ == old(self)@[i]
                    && final(self)@ == old(self)@.remove(i),
    {
        let mut i: usize = 0;
        while i < self.chunks.len()
            invariant
                0 <= i <= self.chunks@.len(),
                self@ == old(self)@,
                self@.len() == self.chunks@.len(),
                forall|j: int| 0 <= j < i ==> !#[trigger] has_type(self@[j], name@),
            decreases self.chunks@.len() - i,
        {
            if type_matches(&self.chunks[i], name) {
                assert(is_first_of_type(self@, name@, i as int));
                let c = self.chunks.remove(i);
                assert(self@ =~= old(self)@.remove(i as int));
                return Ok(c);
            }
            i = i + 1;
        }
        Err(NotFoundError)
    }

    /// The wire form: the signature, then each chunk's wire form in order.
    pub fn as_bytes(&self) -> (r: Vec<u8>)
        ensures
            r@ == png_bytes(self@),
            forall|i: int| 0 <= i < self@.len() ==> valid_chunk(#[trigger] self@[i]),
    {
        let mut out: Vec<u8> = vec![137u8, 80u8, 78u8, 71u8, 13u8, 10u8, 26u8, 10u8];
        assert(out@ =~= signature());
        let mut i: usize = 0;
        while i < self.chunks.len()
            invariant
                0 <= i <= self.chunks@.len(),
                self@.len() == self.chunks@.len(),
                out@ == signature() + chunks_bytes(self@.subrange(0, i as int)),
                forall|j: int| 0 <= j < i ==> valid_chunk(#[trigger] self@[j]),
            decreases self.chunks@.len() - i,
        {
            let w = self.chunks[i].as_bytes();
            push_all(&mut out, w.as_slice());
            proof {
                lemma_chunks_bytes_push(self@.subrange(0, i as int), self@[i as int]);
                assert(self@.subrange(0, i as int).push(self@[i as int]) =~= self@.subrange(
                    0,
                    i + 1,
                ));
            }
            i = i + 1;
        }
        assert(self@.subrange(0, self@.len() as int) =~= self@);
        out
    }

    /// Parses a whole container: the signature, then chunks up to the last
    /// byte. The first failure is returned.
    pub fn try_from(bytes: &[u8]) -> (r: Result<Png, ParseError>)
        ensures
            result_view(r) == png_parse_spec(bytes@),
    {
        let len = bytes.len();
        if len < 8 || !(bytes[0] == 137 && bytes[1] == 80 && bytes[2] == 78 && bytes[3] == 71
            && bytes[4] == 13 && bytes[5] == 10 && bytes[6] == 26 && bytes[7] == 10) {
            proof {
                if len >= 8 && bytes@.subrange(0, 8) == signature() {
                    assert(bytes@[0] == bytes@.subrange(0, 8)[0]);
                    assert(bytes@[1] == bytes@.subrange(0, 8)[1]);
                    assert(bytes@[2] == bytes@.subrange(0, 8)[2]);
                    assert(bytes@[3] == bytes@.subrange(0, 8)[3]);
                    assert(bytes@[4] == bytes@.subrange(0, 8)[4]);
                    assert(bytes@[5] == bytes@.subrange(0, 8)[5]);
                    assert(bytes@[6] == bytes@.subrange(0, 8)[6]);
                    assert(bytes@[7] == bytes@.subrange(0, 8)[7]);
                }
            }
            return Err(ParseError::BadSignature);
        }
        assert(bytes@.subrange(0, 8) =~= signature());
        let mut chunks: Vec<Chunk> = Vec::new();
        let mut pos: usize = 8;
        while pos < len
            invariant
                8 <= pos <= len,
                len == bytes@.len(),
                png_parse_spec(bytes@) == prepend(
                    chunks@.map_values(|c: Chunk| c@),
                    parse_chunks(bytes@.subrange(pos as int, len as int)),
                ),
            decreases len - pos,
        {
            let ghost sub = bytes@.subrange(pos as int, len as int);
            let ghost before = chunks@.map_values(|c: Chunk| c@);
            match Chunk::parse_at(bytes, pos) {
                Err(e) => {
                    return Err(e);
                },
                Ok(c) => {
                    let n = c.length() as usize + 12;
                    assert(n == frame_len(sub));
                    assert(sub.subrange(frame_len(sub), sub.len() as int) =~= bytes@.subrange(
                        pos + n,
                        len as int,
                    ));
                    pos = pos + n;
                    chunks.push(c);
                    assert(chunks@.map_values(|c: Chunk| c@) =~= before.push(c@));
                    assert(before.push(c@) =~= before + seq![c@]);
                    proof {
                        match parse_chunks(bytes@.subrange(pos as int, len as int)) {
                            Ok(rest) => {
                                assert(before + seq![c@] + rest =~= before + (seq![c@] + rest));
                            },
                            Err(_) => {},
                        }
                    }
                },
            }
        }
        assert(bytes@.subrange(pos as int, len as int) =~= Seq::<u8>::empty());
        assert(chunks@.map_values(|c: Chunk| c@) + Seq::<ChunkModel>::empty() =~= chunks@.map_values(
            |c: Chunk| c@,
        ));
        Ok(Png { chunks })
    }

    /// Every chunk's payload as text, each followed by a line break; fails
    /// when a payload is not valid UTF-8.
    pub fn to_string(&self) -> (r: Result<String, EncodingError>)
        ensures
            r is Ok <==> forall|i: int| 0 <= i < self@.len() ==> valid_utf8(#[trigger] self@[i].1),
            r matches Ok(s) ==> s@ == rendered(self@),
    {
        let mut out = String::new();
        let mut i: usize = 0;
        while i < self.chunks.len()
            invariant
                0 <= i <= self.chunks@.len(),
                self@.len() == self.chunks@.len(),
                out@ == rendered(self@.subrange(0, i as int)),
                forall|j: int| 0 <= j < i ==> valid_utf8(#[trigger] self@[j].1),
            decreases self.chunks@.len() - i,
        {
            match self.chunks[i].data_as_string() {
                Err(e) => {
                    assert(self@[i as int] == self.chunks@[i as int]@);
                    assert(!valid_utf8(self@[i as int].1));
                    return Err(e);
                },
                Ok(s) => {
                    assert(self@[i as int] == self.chunks@[i as int]@);
                    out.append(s.as_str());
                    proof {
                        reveal_strlit("\n");
                    }
                    out.append("\n");
                    proof {
                        let prefix = self@.subrange(0, i + 1);
                        assert(prefix.drop_last() =~= self@.subrange(0, i as int));
                    }
                },
            }
            i = i + 1;
        }
        assert(self@.subrange(0, self@.len() as int) =~= self@);
        Ok(out)
    }
}

} // verus!
