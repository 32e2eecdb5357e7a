//! The four-letter type code of a chunk, and what PNG reads off the case of
//! each letter.
use crate::error::Error;
use std::str::FromStr;
use vstd::prelude::*;
use vstd::std_specs::cmp::PartialEqSpecImpl;
use vstd::std_specs::convert::{TryFromSpec, TryFromSpecImpl};
use vstd::string::StringSliceAdditionalSpecFns;
use vstd::utf8::{
    decode_utf8, encode_utf8, encode_utf8_decode_utf8, encode_utf8_valid_utf8,
    is_ascii_chars, is_ascii_chars_encode_utf8, valid_utf8,
};

verus! {

/// `b` is one of `A` to `Z`.
pub open spec fn is_uppercase(b: u8) -> bool {
    0x41 <= b <= 0x5A
}

/// `b` is one of `a` to `z`.
pub open spec fn is_lowercase(b: u8) -> bool {
    0x61 <= b <= 0x7A
}

/// `b` is an ASCII letter.
pub open spec fn is_letter(b: u8) -> bool {
    is_uppercase(b) || is_lowercase(b)
}

/// `code` can be the type code of a chunk: four ASCII letters.
pub open spec fn is_type_code(code: Seq<u8>) -> bool {
    &&& code.len() == 4
    &&& forall|i: int| 0 <= i < 4 ==> is_letter(#[trigger] code[i])
}

/// A chunk's type code. Every value of this type holds four ASCII letters.
#[derive(Debug, Clone, Copy, Eq)]
pub struct ChunkType {
    bytes: [u8; 4],
}

impl View for ChunkType {
    type V = Seq<u8>;

    closed spec fn view(&self) -> Seq<u8> {
        self.bytes@
    }
}

impl PartialEq for ChunkType {
    fn eq(&self, other: &ChunkType) -> (res: bool)
        ensures
            res == (self@ == other@),
    {
        let same = self.bytes[0] == other.bytes[0] && self.bytes[1] == other.bytes[1]
            && self.bytes[2] == other.bytes[2] && self.bytes[3] == other.bytes[3];
        proof {
            if same {
                assert(self@ =~= other@);
            } else {
                assert(self@[0] != other@[0] || self@[1] != other@[1] || self@[2] != other@[2]
                    || self@[3] != other@[3]);
            }
        }
        same
    }
}

impl PartialEqSpecImpl for ChunkType {
    open spec fn obeys_eq_spec() -> bool {
        true
    }

    open spec fn eq_spec(&self, other: &ChunkType) -> bool {
        self@ == other@
    }
}

/// The text that four ASCII letters spell.
pub open spec fn code_text(code: Seq<u8>) -> Seq<char> {
    Seq::new(code.len(), |i: int| code[i] as char)
}

/// `String::from_utf8_lossy`, with its result copied into a `String`: bytes
/// that are valid UTF-8 are the bytes of the result. Of other input, where
/// the function puts U+FFFD in, nothing is claimed.
#[verifier::external_body]
fn lossy_text(bytes: &[u8]) -> (text: String)
    ensures
        valid_utf8(bytes@) ==> encode_utf8(text@) == bytes@,
{
    String::from_utf8_lossy(bytes).into_owned()
}

fn letter(b: u8) -> (res: bool)
    ensures
        res == is_letter(b),
{
    (0x41 <= b && b <= 0x5A) || (0x61 <= b && b <= 0x7A)
}

fn uppercase(b: u8) -> (res: bool)
    ensures
        res == is_uppercase(b),
{
    0x41 <= b && b <= 0x5A
}

impl ChunkType {
    #[verifier::type_invariant]
    spec fn well_formed(self) -> bool {
        is_type_code(self.bytes@)
    }

    /// Builds a type code from four bytes, which must all be ASCII letters.
    pub fn from_bytes(bytes: [u8; 4]) -> (res: Result<ChunkType, Error>)
        ensures
            match res {
                Ok(code) => is_type_code(bytes@) && code@ == bytes@,
                Err(e) => !is_type_code(bytes@) && e == Error::InvalidFormat,
            },
    {
        let mut i: usize = 0;
        while i < 4
            invariant
                i <= 4,
                forall|j: int| 0 <= j < i ==> is_letter(#[trigger] bytes@[j]),
            decreases 4 - i,
        {
            if !letter(bytes[i]) {
                return Err(Error::InvalidFormat);
            }
            i = i + 1;
        }
        Ok(ChunkType { bytes })
    }

    /// Builds a type code from a text, which must encode to exactly four
    /// bytes, all of them ASCII letters.
    pub fn from_text(text: &str) -> (res: Result<ChunkType, Error>)
        ensures
            match res {
                Ok(code) => is_type_code(text.spec_bytes()) && code@ == text.spec_bytes(),
                Err(e) => !is_type_code(text.spec_bytes()) && e == Error::InvalidFormat,
            },
    {
        let raw = text.as_bytes();
        if raw.len() != 4 {
            return Err(Error::InvalidFormat);
        }
        let bytes: [u8; 4] = [raw[0], raw[1], raw[2], raw[3]];
        assert(bytes@ =~= raw@);
        ChunkType::from_bytes(bytes)
    }

    /// The four letters of the code.
    pub fn bytes(&self) -> (res: [u8; 4])
        ensures
            res@ == self@,
            is_type_code(self@),
    {
        proof {
            use_type_invariant(self);
        }
        self.bytes
    }

    /// Whether the code is acceptable to a decoder: four ASCII letters, the
    /// third of them uppercase.
    pub fn is_valid(&self) -> (res: bool)
        ensures
            res == (is_type_code(self@) && is_uppercase(self@[2])),
    {
        let bytes = self.bytes();
        let mut i: usize = 0;
        while i < 4
            invariant
                i <= 4,
                bytes@ == self@,
                forall|j: int| 0 <= j < i ==> is_letter(#[trigger] bytes@[j]),
            decreases 4 - i,
        {
            if !letter(bytes[i]) {
                assert(!is_letter(self@[i as int]));
                return false;
            }
            i = i + 1;
        }
        uppercase(bytes[2])
    }

    /// Whether the chunk is critical: the first letter is uppercase.
    pub fn is_critical(&self) -> (res: bool)
        ensures
            res == is_uppercase(self@[0]),
    {
        uppercase(self.bytes()[0])
    }

    /// Whether the chunk is public: the second letter is uppercase.
    pub fn is_public(&self) -> (res: bool)
        ensures
            res == is_uppercase(self@[1]),
    {
        uppercase(self.bytes()[1])
    }

    /// Whether the reserved bit is as PNG wants it: the third letter is
    /// uppercase.
    pub fn is_reserved_bit_valid(&self) -> (res: bool)
        ensures
            res == is_uppercase(self@[2]),
    {
        uppercase(self.bytes()[2])
    }

    /// Whether the chunk may be copied by an editor that does not know it:
    /// the fourth letter is lowercase.
    pub fn is_safe_to_copy(&self) -> (res: bool)
        ensures
            res == !is_uppercase(self@[3]),
            res == is_lowercase(self@[3]),
    {
        !uppercase(self.bytes()[3])
    }

    /// The code as text: its four letters.
    pub fn to_string(&self) -> (text: String)
        ensures
            text@ == code_text(self@),
            text@.len() == 4,
    {
        let bytes = self.bytes();
        let text = lossy_text(bytes.as_slice());
        proof {
            lemma_code_text(bytes@);
            encode_utf8_decode_utf8(text@);
        }
        text
    }
}

/// Four ASCII letters are the UTF-8 encoding of the text that they spell.
pub proof fn lemma_code_text(code: Seq<u8>)
    requires
        is_type_code(code),
    ensures
        is_ascii_chars(code_text(code)),
        encode_utf8(code_text(code)) == code,
        valid_utf8(code),
        decode_utf8(code) == code_text(code),
{
    let text = code_text(code);
    assert forall|i: int| 0 <= i < text.len() implies 0 <= #[trigger] (text[i] as nat) < 128 by {
        assert(is_letter(code[i]));
    }
    is_ascii_chars_encode_utf8(text);
    assert(encode_utf8(text) =~= code) by {
        assert forall|i: int| 0 <= i < 4 implies encode_utf8(text)[i] == code[i] by {
            assert(is_letter(code[i]));
        }
    }
    encode_utf8_valid_utf8(text);
    encode_utf8_decode_utf8(text);
}

/// A text that spells a type code is the text of that code: building a code
/// from it and asking for the code's text gives the text back.
pub proof fn lemma_text_of_code(text: Seq<char>)
    requires
        is_type_code(encode_utf8(text)),
    ensures
        code_text(encode_utf8(text)) == text,
{
    encode_utf8_valid_utf8(text);
    encode_utf8_decode_utf8(text);
    lemma_code_text(encode_utf8(text));
}

impl TryFrom<[u8; 4]> for ChunkType {
    type Error = Error;

    fn try_from(bytes: [u8; 4]) -> (res: Result<ChunkType, Error>)
        ensures
            match res {
                Ok(code) => is_type_code(bytes@) && code@ == bytes@,
                Err(e) => !is_type_code(bytes@) && e == Error::InvalidFormat,
            },
    {
        let res = ChunkType::from_bytes(bytes);
        proof {
            if let Ok(code) = res {
                assert(code.bytes =~= bytes);
            }
        }
        res
    }
}

impl TryFromSpecImpl<[u8; 4]> for ChunkType {
    open spec fn obeys_try_from_spec() -> bool {
        true
    }

    closed spec fn try_from_spec(bytes: [u8; 4]) -> Result<ChunkType, Error> {
        if is_type_code(bytes@) {
            Ok(ChunkType { bytes })
        } else {
            Err(Error::InvalidFormat)
        }
    }
}

/// What converting four bytes with `try_from` gives: a code with those bytes
/// where they are four ASCII letters, and `InvalidFormat` where they are not.
pub proof fn lemma_try_from_spec(bytes: [u8; 4])
    ensures
        match <ChunkType as TryFromSpec<[u8; 4]>>::try_from_spec(bytes) {
            Ok(code) => is_type_code(bytes@) && code@ == bytes@,
            Err(e) => !is_type_code(bytes@) && e == Error::InvalidFormat,
        },
{
}

impl FromStr for ChunkType {
    type Err = Error;

    fn from_str(text: &str) -> (res: Result<ChunkType, Error>)
        ensures
            match res {
                Ok(code) => is_type_code(text.spec_bytes()) && code@ == text.spec_bytes(),
                Err(e) => !is_type_code(text.spec_bytes()) && e == Error::InvalidFormat,
            },
    {
        ChunkType::from_text(text)
    }
}

} // verus!
