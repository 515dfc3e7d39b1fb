//! The four-letter identifier of a chunk and the property bits it carries.

use crate::text::string_from_utf8;
use std::str::FromStr;
use vstd::pervasive::unreached;
use vstd::prelude::*;
use vstd::std_specs::convert::TryFromSpec;
use vstd::utf8::*;

verus! {

/// Why a byte sequence is not a chunk type.
#[derive(Debug, PartialEq, Eq, Clone, Copy, Structural)]
pub enum ChunkTypeError {
    /// One of the four bytes is not an ASCII letter.
    ByteOutOfRange,
    /// The sequence does not hold exactly four bytes.
    BadLen,
}

impl ChunkTypeError {
    /// The error in words, in specifications.
    pub open spec fn text(self) -> Seq<char> {
        match self {
            ChunkTypeError::ByteOutOfRange => "Out of range byte encountered!"@,
            ChunkTypeError::BadLen => "Too few bytes to construct a Chunk Type"@,
        }
    }

    /// The error in words.
    pub fn to_string(&self) -> (r: String)
        ensures
            r@ == self.text(),
    {
        match self {
            ChunkTypeError::ByteOutOfRange => "Out of range byte encountered!".to_owned(),
            ChunkTypeError::BadLen => "Too few bytes to construct a Chunk Type".to_owned(),
        }
    }
}

/// A byte is an ASCII letter, `A`-`Z` or `a`-`z`.
pub open spec fn is_letter(b: u8) -> bool {
    (65 <= b && b <= 90) || (97 <= b && b <= 122)
}

/// Every byte of the sequence is an ASCII letter.
pub open spec fn all_letters(s: Seq<u8>) -> bool {
    forall|i: int| 0 <= i < s.len() ==> is_letter(#[trigger] s[i])
}

/// A byte is an upper-case ASCII letter.
pub open spec fn is_upper(b: u8) -> bool {
    65 <= b && b <= 90
}

/// The property bit of a byte is clear.
pub open spec fn property_bit_clear(b: u8) -> bool {
    b & ChunkType::PROPERTY_BIT_MASK == 0
}

/// What a byte sequence is as a chunk type: its four letters, or the reason
/// it is refused. The length is judged before the bytes.
pub open spec fn type_of_bytes(s: Seq<u8>) -> Result<Seq<u8>, ChunkTypeError> {
    if s.len() != 4 {
        Err(ChunkTypeError::BadLen)
    } else if !all_letters(s) {
        Err(ChunkTypeError::ByteOutOfRange)
    } else {
        Ok(s)
    }
}

/// A validated chunk type: exactly four ASCII letters.
#[derive(Debug, Eq, Clone, Copy, Hash)]
pub struct ChunkType([u8; 4]);

impl View for ChunkType {
    type V = Seq<u8>;

    closed spec fn view(&self) -> Seq<u8> {
        self.0@
    }
}

impl PartialEq for ChunkType {
    /// Two chunk types are equal when their four bytes are.
    fn eq(&self, other: &Self) -> (r: bool) {
        let same = self.0[0] == other.0[0] && self.0[1] == other.0[1] && self.0[2] == other.0[2]
            && self.0[3] == other.0[3];
        assert(same == (self@ =~= other@));
        same
    }
}

impl vstd::std_specs::cmp::PartialEqSpecImpl for ChunkType {
    open spec fn obeys_eq_spec() -> bool {
        true
    }

    open spec fn eq_spec(&self, other: &Self) -> bool {
        self@ == other@
    }
}

impl TryFrom<[u8; 4]> for ChunkType {
    type Error = ChunkTypeError;

    /// Builds a chunk type from four bytes, refusing any byte that is not an
    /// ASCII letter.
    fn try_from(v: [u8; 4]) -> (r: Result<Self, Self::Error>)
        ensures
            match r {
                Ok(t) => all_letters(v@) && t@ == v@,
                Err(e) => !all_letters(v@) && e == ChunkTypeError::ByteOutOfRange,
            },
    {
        let mut i: usize = 0;
        while i < 4
            invariant
                i <= 4,
                forall|j: int| 0 <= j < i ==> is_letter(#[trigger] v@[j]),
            decreases 4 - i,
        {
            if !byte_is_letter(v[i]) {
                return Err(ChunkTypeError::ByteOutOfRange);
            }
            i += 1;
        }
        Ok(ChunkType(v))
    }
}

impl vstd::std_specs::convert::TryFromSpecImpl<[u8; 4]> for ChunkType {
    open spec fn obeys_try_from_spec() -> bool {
        true
    }

    closed spec fn try_from_spec(v: [u8; 4]) -> Result<Self, Self::Error> {
        if all_letters(v@) {
            Ok(ChunkType(v))
        } else {
            Err(ChunkTypeError::ByteOutOfRange)
        }
    }
}

impl<'a> TryFrom<&'a [u8]> for ChunkType {
    type Error = ChunkTypeError;

    /// Builds a chunk type from a byte slice: the slice must hold exactly
    /// four bytes, each an ASCII letter.
    fn try_from(v: &'a [u8]) -> (r: Result<Self, Self::Error>)
        ensures
            match r {
                Ok(t) => type_of_bytes(v@) == Ok::<Seq<u8>, ChunkTypeError>(t@),
                Err(e) => type_of_bytes(v@) == Err::<Seq<u8>, ChunkTypeError>(e),
            },
    {
        if v.len() != 4 {
            return Err(ChunkTypeError::BadLen);
        }
        let a: [u8; 4] = [v[0], v[1], v[2], v[3]];
        assert(a@ =~= v@);
        ChunkType::try_from(a)
    }
}

impl<'a> vstd::std_specs::convert::TryFromSpecImpl<&'a [u8]> for ChunkType {
    open spec fn obeys_try_from_spec() -> bool {
        true
    }

    closed spec fn try_from_spec(v: &'a [u8]) -> Result<Self, Self::Error> {
        if v@.len() != 4 {
            Err(ChunkTypeError::BadLen)
        } else if !all_letters(v@) {
            Err(ChunkTypeError::ByteOutOfRange)
        } else {
            Ok(ChunkType([v@[0], v@[1], v@[2], v@[3]]))
        }
    }
}

impl FromStr for ChunkType {
    type Err = ChunkTypeError;

    /// Builds a chunk type from text, by the bytes of its UTF-8 encoding.
    fn from_str(s: &str) -> (r: Result<Self, Self::Err>)
        ensures
            match r {
                Ok(t) => type_of_bytes(encode_utf8(s@)) == Ok::<Seq<u8>, ChunkTypeError>(t@),
                Err(e) => type_of_bytes(encode_utf8(s@)) == Err::<Seq<u8>, ChunkTypeError>(e),
            },
    {
        ChunkType::try_from(s.as_bytes())
    }
}

/// Executable test for an ASCII letter.
fn byte_is_letter(b: u8) -> (r: bool)
    ensures
        r == is_letter(b),
{
    !(b < 65 || (b > 90 && b < 97) || b > 122)
}

impl ChunkType {
    /// Bit 5 of a type byte: set in lower-case letters, clear in upper-case
    /// ones.
    pub const PROPERTY_BIT_MASK: u8 = 32u8;

    /// The invariant of the type: four bytes, each an ASCII letter.
    #[verifier::type_invariant]
    pub open spec fn wf(&self) -> bool {
        self@.len() == 4 && all_letters(self@)
    }

    /// The type as a string of its four letters.
    pub fn to_string(&self) -> (r: String)
        ensures
            r@ == letters_as_chars(self@),
            encode_utf8(r@) == self@,
    {
        let mut v: Vec<u8> = Vec::new();
        v.push(self.0[0]);
        v.push(self.0[1]);
        v.push(self.0[2]);
        v.push(self.0[3]);
        proof {
            use_type_invariant(self);
            assert(v@ =~= self@);
            lemma_letters_are_text(self@);
        }
        match string_from_utf8(v) {
            Ok(s) => s,
            Err(_) => unreached(),
        }
    }

    /// The chunk is critical: the first letter is upper-case.
    pub fn is_critical(&self) -> (r: bool)
        ensures
            r == property_bit_clear(self@[0]),
            r == is_upper(self@[0]),
    {
        proof {
            use_type_invariant(self);
            lemma_property_bit_is_case(self@[0]);
        }
        self.0[0] & Self::PROPERTY_BIT_MASK == 0
    }

    /// The chunk is public: the second letter is upper-case.
    pub fn is_public(&self) -> (r: bool)
        ensures
            r == property_bit_clear(self@[1]),
            r == is_upper(self@[1]),
    {
        proof {
            use_type_invariant(self);
            lemma_property_bit_is_case(self@[1]);
        }
        self.0[1] & Self::PROPERTY_BIT_MASK == 0
    }

    /// The reserved bit is as the format asks: the third letter is
    /// upper-case.
    pub fn is_reserved_bit_valid(&self) -> (r: bool)
        ensures
            r == property_bit_clear(self@[2]),
            r == is_upper(self@[2]),
    {
        proof {
            use_type_invariant(self);
            lemma_property_bit_is_case(self@[2]);
        }
        self.0[2] & Self::PROPERTY_BIT_MASK == 0
    }

    /// The chunk is safe to copy: the fourth letter is lower-case.
    pub fn is_safe_to_copy(&self) -> (r: bool)
        ensures
            r == !property_bit_clear(self@[3]),
            r == !is_upper(self@[3]),
    {
        proof {
            use_type_invariant(self);
            lemma_property_bit_is_case(self@[3]);
        }
        self.0[3] & Self::PROPERTY_BIT_MASK != 0
    }

    /// The type is valid: its reserved bit is. The other three properties
    /// inform and do not decide.
    pub fn is_valid(&self) -> (r: bool)
        ensures
            r == property_bit_clear(self@[2]),
            r == is_upper(self@[2]),
    {
        self.is_reserved_bit_valid()
    }

    /// The four bytes of the type, in specifications.
    pub closed spec fn spec_bytes(&self) -> [u8; 4] {
        self.0
    }

    /// The four bytes of the type.
    #[verifier::when_used_as_spec(spec_bytes)]
    pub fn bytes(&self) -> (r: [u8; 4])
        ensures
            r == self.spec_bytes(),
            r@ == self@,
            all_letters(r@),
    {
        proof {
            use_type_invariant(self);
        }
        self.0
    }
}

/// The bytes of a chunk type, as an array, are its view.
pub proof fn lemma_spec_bytes(t: ChunkType)
    ensures
        t.spec_bytes()@ == t@,
{
}

/// Two chunk types with the same four bytes are the same chunk type.
pub proof fn lemma_equal_by_bytes(a: ChunkType, b: ChunkType)
    requires
        a@ == b@,
    ensures
        a == b,
{
    assert(a.0 =~= b.0);
}

/// Four letters always make a chunk type, and it holds just these bytes; its
/// reserved bit is valid exactly when bit 5 of the third byte is clear, which
/// is when that letter is upper-case.
pub proof fn lemma_letters_make_a_type(v: [u8; 4])
    requires
        all_letters(v@),
    ensures
        ({
            let made = ChunkType::try_from_spec(v);
            &&& made is Ok
            &&& made->Ok_0@ == v@
            &&& made->Ok_0.wf()
            &&& property_bit_clear(made->Ok_0@[2]) <==> v@[2] & 32 == 0
            &&& property_bit_clear(made->Ok_0@[2]) <==> is_upper(v@[2])
        }),
{
    lemma_property_bit_is_case(v@[2]);
}

/// Four bytes of which one is no letter never make a chunk type: the
/// attempt fails with `ByteOutOfRange`.
pub proof fn lemma_other_bytes_make_none(v: [u8; 4])
    requires
        !all_letters(v@),
    ensures
        ChunkType::try_from_spec(v) == Err::<ChunkType, ChunkTypeError>(
            ChunkTypeError::ByteOutOfRange,
        ),
{
}

/// A chunk type is rebuilt from its own bytes.
pub proof fn lemma_bytes_round_trip(t: ChunkType)
    requires
        t.wf(),
    ensures
        ChunkType::try_from_spec(t.spec_bytes()) == Ok::<ChunkType, ChunkTypeError>(t),
{
}

/// What a slice makes is what its bytes are as a chunk type.
pub proof fn lemma_slice_makes_type_of_bytes(v: &[u8])
    ensures
        match ChunkType::try_from_spec(v) {
            Ok(t) => type_of_bytes(v@) == Ok::<Seq<u8>, ChunkTypeError>(t@) && t.wf(),
            Err(e) => type_of_bytes(v@) == Err::<Seq<u8>, ChunkTypeError>(e),
        },
{
    if v@.len() == 4 && all_letters(v@) {
        let a: [u8; 4] = [v@[0], v@[1], v@[2], v@[3]];
        assert(a@ =~= v@);
    }
}

/// In a letter the property bit tells the case: it is clear exactly in the
/// upper-case letters.
pub proof fn lemma_property_bit_is_case(b: u8)
    requires
        is_letter(b),
    ensures
        property_bit_clear(b) == is_upper(b),
{
    assert((65 <= b && b <= 90) || (97 <= b && b <= 122) ==> ((b & 32 == 0) == (65 <= b && b <= 90)))
        by (bit_vector);
}

/// The characters that a sequence of letters spells.
pub open spec fn letters_as_chars(s: Seq<u8>) -> Seq<char> {
    Seq::new(s.len(), |i: int| s[i] as char)
}

/// A sequence of ASCII letters is well-formed UTF-8, and decodes to the
/// characters with the same codes.
pub proof fn lemma_letters_are_text(s: Seq<u8>)
    requires
        all_letters(s),
    ensures
        valid_utf8(s),
        decode_utf8(s) == letters_as_chars(s),
        encode_utf8(letters_as_chars(s)) == s,
{
    let chars = letters_as_chars(s);
    assert(is_ascii_chars(chars)) by {
        assert forall|i: int| 0 <= i < chars.len() implies '\0' <= #[trigger] chars[i] <= '\u{7f}' by {
            assert(is_letter(s[i]));
        }
    }
    is_ascii_chars_encode_utf8(chars);
    assert(encode_utf8(chars) =~= s) by {
        assert forall|i: int| 0 <= i < s.len() implies (#[trigger] chars[i] as u8) == s[i] by {
            assert(is_letter(s[i]));
        }
    }
    encode_utf8_valid_utf8(chars);
    encode_utf8_decode_utf8(chars);
}

} // verus!
