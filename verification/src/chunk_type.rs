//! Chunk type codes: four ASCII letters whose case carries four flags.

use vstd::prelude::*;
use vstd::utf8::*;
use crate::error::Error;
use crate::text::{ascii_text, byte_is_letter, byte_is_lower, byte_is_upper, text_of_utf8};
use crate::text::{is_ascii_bytes, is_letter, is_lower, is_upper};
use crate::text::{lemma_ascii_bytes_are_utf8, lemma_ascii_encoding_is_ascii_text};

verus! {

/// The byte sequences that are chunk type codes: four ASCII letters.
pub open spec fn is_type_code(bytes: Seq<u8>) -> bool {
    &&& bytes.len() == 4
    &&& forall|i: int| 0 <= i < 4 ==> is_letter(#[trigger] bytes[i])
}

/// An ASCII letter of either case, as a character.
pub open spec fn is_letter_char(c: char) -> bool {
    ('A' <= c <= 'Z') || ('a' <= c <= 'z')
}

/// The texts that spell a chunk type code: four characters, all ASCII letters.
pub open spec fn is_type_text(text: Seq<char>) -> bool {
    &&& text.len() == 4
    &&& forall|i: int| 0 <= i < 4 ==> is_letter_char(#[trigger] text[i])
}

/// The codes of the characters of a text, each cut to a byte.
pub open spec fn text_codes(text: Seq<char>) -> Seq<u8> {
    Seq::new(text.len(), |i: int| text[i] as u8)
}

/// A text's UTF-8 encoding is a type code exactly when the text is four
/// ASCII letters, and the encoding then holds the letters' codes.
pub proof fn lemma_type_text_encoding(text: Seq<char>)
    ensures
        is_type_code(encode_utf8(text)) <==> is_type_text(text),
        is_type_text(text) ==> encode_utf8(text) == text_codes(text),
{
    let bytes = encode_utf8(text);
    if is_type_code(bytes) {
        assert(is_ascii_bytes(bytes));
        lemma_ascii_encoding_is_ascii_text(text);
        assert forall|i: int| 0 <= i < 4 implies is_letter_char(#[trigger] text[i]) by {
            assert(text[i] == bytes[i] as char);
            assert(is_letter(bytes[i]));
        }
    }
    if is_type_text(text) {
        assert(is_ascii_chars(text)) by {
            assert forall|i: int| 0 <= i < text.len() implies '\0' <= #[trigger] text[i]
                <= '\u{7f}' by {
                assert(is_letter_char(text[i]));
            }
        }
        is_ascii_chars_encode_utf8(text);
        assert(bytes =~= text_codes(text));
        assert forall|i: int| 0 <= i < 4 implies is_letter(#[trigger] bytes[i]) by {
            assert(is_letter_char(text[i]));
            assert(bytes[i] == text[i] as u8);
        }
    }
}

/// A four-letter chunk type code. Its view is the sequence of its four bytes.
#[derive(Debug)]
pub struct ChunkType([u8; 4]);

impl View for ChunkType {
    type V = Seq<u8>;

    closed spec fn view(&self) -> Seq<u8> {
        self.0@
    }
}

impl ChunkType {
    /// Every value of the type holds four ASCII letters.
    #[verifier::type_invariant]
    pub closed spec fn wf(self) -> bool {
        is_type_code(self.0@)
    }

    /// A well-formed code views as a type code.
    pub proof fn lemma_wf_view(self)
        ensures
            self.wf() <==> is_type_code(self@),
    {
    }

    /// Builds a type code from four bytes. It succeeds exactly when all four
    /// are ASCII letters.
    pub fn from_bytes(value: [u8; 4]) -> (r: Result<ChunkType, Error>)
        ensures
            is_type_code(value@) ==> r is Ok && r->Ok_0@ == value@,
            !is_type_code(value@) ==> r == Err::<ChunkType, Error>(Error::InvalidFormat),
    {
        if byte_is_letter(value[0]) && byte_is_letter(value[1]) && byte_is_letter(value[2])
            && byte_is_letter(value[3]) {
            Ok(ChunkType(value))
        } else {
            Err(Error::InvalidFormat)
        }
    }

    /// Builds a type code from text. It succeeds exactly when the text is
    /// four characters long and each of them is an ASCII letter.
    pub fn from_text(s: &str) -> (r: Result<ChunkType, Error>)
        ensures
            is_type_text(s@) ==> r is Ok && r->Ok_0@ == text_codes(s@),
            !is_type_text(s@) ==> r == Err::<ChunkType, Error>(Error::InvalidFormat),
    {
        let b = s.as_bytes();
        proof {
            lemma_type_text_encoding(s@);
        }
        if b.len() != 4 {
            return Err(Error::InvalidFormat);
        }
        let value: [u8; 4] = [b[0], b[1], b[2], b[3]];
        assert(value@ =~= b@);
        ChunkType::from_bytes(value)
    }

    /// The four bytes of the code.
    pub fn bytes(&self) -> (r: [u8; 4])
        ensures
            r@ == self@,
            is_type_code(r@),
    {
        proof {
            use_type_invariant(self);
        }
        self.0
    }

    /// Whether the code obeys the reserved-bit convention.
    pub fn is_valid(&self) -> (r: bool)
        ensures
            r == is_upper(self@[2]),
    {
        self.is_reserved_bit_valid()
    }

    /// Whether the chunk is critical: the first letter is upper case.
    pub fn is_critical(&self) -> (r: bool)
        ensures
            r == is_upper(self@[0]),
    {
        byte_is_upper(self.0[0])
    }

    /// Whether the chunk is public: the second letter is upper case.
    pub fn is_public(&self) -> (r: bool)
        ensures
            r == is_upper(self@[1]),
    {
        byte_is_upper(self.0[1])
    }

    /// Whether the reserved bit is valid: the third letter is upper case.
    pub fn is_reserved_bit_valid(&self) -> (r: bool)
        ensures
            r == is_upper(self@[2]),
    {
        byte_is_upper(self.0[2])
    }

    /// Whether the chunk is safe to copy: the fourth letter is lower case.
    pub fn is_safe_to_copy(&self) -> (r: bool)
        ensures
            r == is_lower(self@[3]),
    {
        byte_is_lower(self.0[3])
    }

    /// The four bytes read as UTF-8 text. Bytes that are no valid UTF-8
    /// would give an encoding error; four ASCII letters always are, so the
    /// text is there for every type code: one character for each byte.
    pub fn text(&self) -> (r: Result<String, Error>)
        ensures
            valid_utf8(self@) ==> r is Ok && r->Ok_0@ == decode_utf8(self@),
            !valid_utf8(self@) ==> r == Err::<String, Error>(Error::EncodingError),
            r is Ok,
            r->Ok_0@ == ascii_text(self@),
    {
        proof {
            use_type_invariant(self);
            assert(is_ascii_bytes(self@));
            lemma_ascii_bytes_are_utf8(self@);
        }
        let mut v: Vec<u8> = Vec::new();
        v.push(self.0[0]);
        v.push(self.0[1]);
        v.push(self.0[2]);
        v.push(self.0[3]);
        assert(v@ =~= self@);
        text_of_utf8(v)
    }

    /// The code as text: four characters, one for each byte.
    pub fn to_string(&self) -> (s: String)
        ensures
            s@ == ascii_text(self@),
            is_type_text(s@),
    {
        proof {
            use_type_invariant(self);
        }
        match self.text() {
            Ok(s) => s,
            Err(_) => String::new(),
        }
    }
}

impl PartialEq for ChunkType {
    fn eq(&self, other: &ChunkType) -> (r: bool) {
        let r = self.0[0] == other.0[0] && self.0[1] == other.0[1] && self.0[2] == other.0[2]
            && self.0[3] == other.0[3];
        proof {
            use_type_invariant(self);
            use_type_invariant(other);
            if r {
                assert(self@ =~= other@);
            }
        }
        r
    }
}

impl vstd::std_specs::cmp::PartialEqSpecImpl for ChunkType {
    open spec fn obeys_eq_spec() -> bool {
        true
    }

    open spec fn eq_spec(&self, other: &ChunkType) -> bool {
        self@ == other@
    }
}

impl Eq for ChunkType {}

impl TryFrom<[u8; 4]> for ChunkType {
    type Error = Error;

    fn try_from(value: [u8; 4]) -> (r: Result<ChunkType, Error>)
        ensures
            is_type_code(value@) ==> r is Ok && r->Ok_0@ == value@,
            !is_type_code(value@) ==> r == Err::<ChunkType, Error>(Error::InvalidFormat),
    {
        let r = ChunkType::from_bytes(value);
        proof {
            if r is Ok {
                assert(r->Ok_0.0 =~= value);
            }
        }
        r
    }
}

impl vstd::std_specs::convert::TryFromSpecImpl<[u8; 4]> for ChunkType {
    open spec fn obeys_try_from_spec() -> bool {
        true
    }

    closed spec fn try_from_spec(value: [u8; 4]) -> Result<ChunkType, Error> {
        if is_type_code(value@) {
            Ok(ChunkType(value))
        } else {
            Err(Error::InvalidFormat)
        }
    }
}

impl std::str::FromStr for ChunkType {
    type Err = Error;

    fn from_str(s: &str) -> (r: Result<ChunkType, Error>)
        ensures
            is_type_text(s@) ==> r is Ok && r->Ok_0@ == text_codes(s@),
            !is_type_text(s@) ==> r == Err::<ChunkType, Error>(Error::InvalidFormat),
    {
        ChunkType::from_text(s)
    }
}

} // verus!
