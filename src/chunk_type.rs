use vstd::prelude::*;
use vstd::string::StringSliceAdditionalSpecFns;

use crate::text::{is_ascii_bytes, lemma_ascii_utf8, utf8_to_string};

verus! {

/// True for an ASCII letter, `A`-`Z` or `a`-`z`.
pub open spec fn is_alpha(b: u8) -> bool {
    (65 <= b && b <= 90) || (97 <= b && b <= 122)
}

/// True for an ASCII upper-case letter.
pub open spec fn is_upper(b: u8) -> bool {
    65 <= b && b <= 90
}

/// True for an ASCII lower-case letter.
pub open spec fn is_lower(b: u8) -> bool {
    97 <= b && b <= 122
}

/// Four bytes, each an ASCII letter: what a type code is made of.
pub open spec fn valid_type_code(code: Seq<u8>) -> bool {
    code.len() == 4 && forall|i: int| 0 <= i < 4 ==> #[trigger] is_alpha(code[i])
}

/// The text of a type code: each byte read as the character it encodes.
pub open spec fn type_text(code: Seq<u8>) -> Seq<char> {
    code.map_values(|b: u8| b as char)
}

/// Letters are ASCII.
pub proof fn lemma_letters_ascii(code: Seq<u8>)
    requires
        valid_type_code(code),
    ensures
        is_ascii_bytes(code),
{
    assert forall|i: int| 0 <= i < code.len() implies #[trigger] code[i] < 128 by {
        assert(is_alpha(code[i]));
    }
}

/// Why a type code could not be built.
#[derive(Debug, Clone, Copy, PartialEq, Eq, Structural)]
pub enum InvalidTypeCode {
    /// The text form was not exactly four bytes long.
    WrongLength,
    /// A byte was not an ASCII letter.
    NotAlphabetic,
}

fn is_alpha_byte(b: u8) -> (r: bool)
    ensures
        r == is_alpha(b),
{
    (65 <= b && b <= 90) || (97 <= b && b <= 122)
}

/// A four-letter chunk type code. The case of each letter carries a flag.
#[derive(Clone, Copy, Debug)]
pub struct ChunkType {
    chunk_type: [u8; 4],
}

impl View for ChunkType {
    type V = Seq<u8>;

    closed spec fn view(&self) -> Seq<u8> {
        self.chunk_type@
    }
}

impl ChunkType {
    #[verifier::type_invariant]
    spec fn letters_only(self) -> bool {
        valid_type_code(self.chunk_type@)
    }

    /// Builds a type code from four bytes, each of which must be an ASCII letter.
    pub fn try_from(value: [u8; 4]) -> (r: Result<ChunkType, InvalidTypeCode>)
        ensures
            r is Ok <==> valid_type_code(value@),
            r matches Ok(t) ==> t@ == value@,
            r matches Err(e) ==> e == InvalidTypeCode::NotAlphabetic,
    {
        let mut i: usize = 0;
        while i < 4
            invariant
                0 <= i <= 4,
                forall|j: int| 0 <= j < i ==> #[trigger] is_alpha(value@[j]),
            decreases 4 - i,
        {
            if !is_alpha_byte(value[i]) {
                return Err(InvalidTypeCode::NotAlphabetic);
            }
            i = i + 1;
        }
        Ok(ChunkType { chunk_type: value })
    }

    /// Builds a type code from its text, which must be four bytes long, each
    /// an ASCII letter.
    pub fn from_str(s: &str) -> (r: Result<ChunkType, InvalidTypeCode>)
        ensures
            s.spec_bytes().len() != 4 ==> r == Err::<ChunkType, InvalidTypeCode>(
                InvalidTypeCode::WrongLength,
            ),
            s.spec_bytes().len() == 4 ==> (r is Ok <==> valid_type_code(s.spec_bytes())),
            r matches Ok(t) ==> t@ == s.spec_bytes(),
    {
        if s.len() != 4 {
            return Err(InvalidTypeCode::WrongLength);
        }
        let b = s.as_bytes();
        let value: [u8; 4] = [b[0], b[1], b[2], b[3]];
        assert(value@ =~= s.spec_bytes());
        ChunkType::try_from(value)
    }

    /// The four raw bytes of the code.
    pub fn bytes(&self) -> (r: [u8; 4])
        ensures
            r@ == self@,
            valid_type_code(self@),
    {
        proof {
            use_type_invariant(self);
        }
        self.chunk_type
    }

    /// True when every byte is a letter (always so once built) and the
    /// reserved bit is valid.
    pub fn is_valid(&self) -> (r: bool)
        ensures
            r == (valid_type_code(self@) && is_upper(self@[2])),
    {
        proof {
            use_type_invariant(self);
        }
        let mut i: usize = 0;
        while i < 4
            invariant
                0 <= i <= 4,
                self.chunk_type@.len() == 4,
            decreases 4 - i,
        {
            if !is_alpha_byte(self.chunk_type[i]) {
                return false;
            }
            i = i + 1;
        }
        self.is_reserved_bit_valid()
    }

    /// The code as text: its four letters.
    pub fn to_string(&self) -> (r: String)
        ensures
            r@ == type_text(self@),
    {
        proof {
            use_type_invariant(self);
            lemma_letters_ascii(self@);
            lemma_ascii_utf8(self@);
        }
        let v: Vec<u8> = vec![self.chunk_type[0], self.chunk_type[1], self.chunk_type[2], self.chunk_type[3]];
        assert(v@ =~= self@);
        match utf8_to_string(v) {
            Some(s) => s,
            None => {
                proof {
                    assert(false);
                }
                String::new()
            },
        }
    }

    /// Critical chunks have an upper-case first letter.
    pub fn is_critical(&self) -> (r: bool)
        ensures
            r == is_upper(self@[0]),
    {
        proof {
            use_type_invariant(self);
        }
        let b = self.chunk_type[0];
        65 <= b && b <= 90
    }

    /// Public chunks have an upper-case second letter.
    pub fn is_public(&self) -> (r: bool)
        ensures
            r == is_upper(self@[1]),
    {
        proof {
            use_type_invariant(self);
        }
        let b = self.chunk_type[1];
        65 <= b && b <= 90
    }

    /// The reserved bit is valid when the third letter is upper case.
    pub fn is_reserved_bit_valid(&self) -> (r: bool)
        ensures
            r == is_upper(self@[2]),
    {
        proof {
            use_type_invariant(self);
        }
        let b = self.chunk_type[2];
        65 <= b && b <= 90
    }

    /// Chunks safe to copy have a lower-case fourth letter.
    pub fn is_safe_to_copy(&self) -> (r: bool)
        ensures
            r == is_lower(self@[3]),
    {
        proof {
            use_type_invariant(self);
        }
        let b = self.chunk_type[3];
        97 <= b && b <= 122
    }
}

impl PartialEq for ChunkType {
    fn eq(&self, other: &ChunkType) -> (r: bool)
        ensures
            r == (self@ == other@),
    {
        proof {
            use_type_invariant(self);
            use_type_invariant(other);
        }
        let r = self.chunk_type[0] == other.chunk_type[0] && self.chunk_type[1]
            == other.chunk_type[1] && self.chunk_type[2] == other.chunk_type[2]
            && self.chunk_type[3] == other.chunk_type[3];
        proof {
            if r {
                assert(self.chunk_type@ =~= other.chunk_type@);
            }
        }
        r
    }
}

impl vstd::std_specs::cmp::PartialEqSpecImpl for ChunkType {
    open spec fn obeys_eq_spec() -> bool {
        true
    }

    open spec fn eq_spec(&self, other: &ChunkType) -> bool {
        self@ == other@
    }
}

} // verus!
