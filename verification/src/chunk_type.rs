//! Chunk types: four ASCII letters whose case carries four flags.
use crate::text::{ascii_text, lemma_ascii_text_bytes, push_ascii};
use vstd::prelude::*;
use vstd::string::StringSliceAdditionalSpecFns;
use vstd::utf8::encode_utf8;

verus! {

/// `b` is one of `A`..=`Z`.
pub open spec fn is_upper(b: u8) -> bool {
    0x41 <= b <= 0x5a
}

/// `b` is one of `a`..=`z`.
pub open spec fn is_lower(b: u8) -> bool {
    0x61 <= b <= 0x7a
}

/// `b` is an ASCII letter.
pub open spec fn is_letter(b: u8) -> bool {
    is_upper(b) || is_lower(b)
}

/// `s` is exactly four ASCII letters.
pub open spec fn is_type_code(s: Seq<u8>) -> bool {
    &&& s.len() == 4
    &&& forall|i: int| 0 <= i < 4 ==> is_letter(#[trigger] s[i])
}

/// `s` is four ASCII letters of which the third is upper case: the only
/// chunk types that new chunks may carry.
pub open spec fn is_valid_type_code(s: Seq<u8>) -> bool {
    is_type_code(s) && is_upper(s[2])
}

/// Bit 5 of `b`, the bit that tells the two cases of a letter apart, is 0.
pub open spec fn case_bit_clear(b: u8) -> bool {
    b & 0x20 == 0
}

/// Among letters, the upper-case ones are those whose case bit is 0.
pub proof fn lemma_upper_iff_case_bit_clear(b: u8)
    requires
        is_letter(b),
    ensures
        is_upper(b) <==> case_bit_clear(b),
        is_lower(b) <==> !case_bit_clear(b),
{
    assert((0x41 <= b <= 0x5a) ==> b & 0x20 == 0) by (bit_vector);
    assert((0x61 <= b <= 0x7a) ==> b & 0x20 != 0) by (bit_vector);
}

/// Whether `b` is an ASCII letter.
pub fn is_letter_byte(b: u8) -> (letter: bool)
    ensures
        letter == is_letter(b),
{
    (0x41 <= b && b <= 0x5a) || (0x61 <= b && b <= 0x7a)
}

/// Why a chunk type could not be built.
#[derive(Debug, Clone, Copy, PartialEq, Eq, Structural)]
pub enum ChunkTypeError {
    /// The input is not exactly four ASCII letters.
    InvalidChunkType,
}

/// A chunk type: four ASCII letters.
#[derive(Debug, Clone, Copy)]
pub struct ChunkType {
    bytes: [u8; 4],
}

impl View for ChunkType {
    type V = Seq<u8>;

    closed spec fn view(&self) -> Seq<u8> {
        self.bytes@
    }
}

impl PartialEq for ChunkType {
    /// Two chunk types are equal when their four bytes are.
    fn eq(&self, other: &Self) -> (equal: bool) {
        let equal = self.bytes[0] == other.bytes[0] && self.bytes[1] == other.bytes[1]
            && self.bytes[2] == other.bytes[2] && self.bytes[3] == other.bytes[3];
        proof {
            if equal {
                assert(self.bytes@ =~= other.bytes@);
            }
        }
        equal
    }
}

impl Eq for ChunkType {

}

impl vstd::std_specs::cmp::PartialEqSpecImpl for ChunkType {
    open spec fn obeys_eq_spec() -> bool {
        true
    }

    open spec fn eq_spec(&self, other: &Self) -> bool {
        self@ == other@
    }
}

impl ChunkType {
    /// Every chunk type is four ASCII letters.
    #[verifier::type_invariant]
    pub open spec fn inv(&self) -> bool {
        is_type_code(self@)
    }

    /// Builds a chunk type from the text `s`, which must be exactly four
    /// bytes long, each an ASCII letter. The case of the third letter is not
    /// looked at here: see [`ChunkType::is_valid`].
    pub fn from_str(s: &str) -> (r: Result<ChunkType, ChunkTypeError>)
        ensures
            r is Ok <==> is_type_code(s.spec_bytes()),
            r matches Ok(t) ==> t@ == s.spec_bytes(),
            r matches Err(e) ==> e == ChunkTypeError::InvalidChunkType,
    {
        let text = s.as_bytes();
        if text.len() != 4 {
            return Err(ChunkTypeError::InvalidChunkType);
        }
        let bytes: [u8; 4] = [text[0], text[1], text[2], text[3]];
        assert(bytes@ =~= text@);
        ChunkType::try_from(bytes)
    }

    /// True when all four bytes are letters and the third is upper case.
    pub fn is_valid(&self) -> (valid: bool)
        ensures
            valid == is_valid_type_code(self@),
            valid == is_upper(self@[2]),
    {
        proof {
            use_type_invariant(self);
        }
        self.is_reserved_bit_valid() && is_letter_byte(self.bytes[0]) && is_letter_byte(
            self.bytes[1],
        ) && is_letter_byte(self.bytes[2]) && is_letter_byte(self.bytes[3])
    }

    /// True when the first byte is upper case: bit 5 of byte 0 is 0.
    pub fn is_critical(&self) -> (critical: bool)
        ensures
            critical == is_upper(self@[0]),
            critical == case_bit_clear(self@[0]),
    {
        proof {
            use_type_invariant(self);
            lemma_upper_iff_case_bit_clear(self.bytes[0]);
        }
        self.bytes[0] & 0x20 == 0
    }

    /// True when the second byte is upper case: bit 5 of byte 1 is 0.
    pub fn is_public(&self) -> (public: bool)
        ensures
            public == is_upper(self@[1]),
            public == case_bit_clear(self@[1]),
    {
        proof {
            use_type_invariant(self);
            lemma_upper_iff_case_bit_clear(self.bytes[1]);
        }
        self.bytes[1] & 0x20 == 0
    }

    /// True when the third byte is upper case: bit 5 of byte 2, the reserved
    /// bit, is 0.
    pub fn is_reserved_bit_valid(&self) -> (reserved: bool)
        ensures
            reserved == is_upper(self@[2]),
            reserved == case_bit_clear(self@[2]),
    {
        proof {
            use_type_invariant(self);
            lemma_upper_iff_case_bit_clear(self.bytes[2]);
        }
        self.bytes[2] & 0x20 == 0
    }

    /// True when the fourth byte is lower case: bit 5 of byte 3 is 1.
    pub fn is_safe_to_copy(&self) -> (safe: bool)
        ensures
            safe == is_lower(self@[3]),
            safe == !case_bit_clear(self@[3]),
    {
        proof {
            use_type_invariant(self);
            lemma_upper_iff_case_bit_clear(self.bytes[3]);
        }
        self.bytes[3] & 0x20 != 0
    }

    /// The four letters as text, in the case in which they stand.
    pub fn to_string(&self) -> (text: String)
        ensures
            text@ == ascii_text(self@),
            encode_utf8(text@) == self@,
    {
        proof {
            use_type_invariant(self);
            lemma_ascii_text_bytes(self@);
        }
        let mut text = String::new();
        push_ascii(&mut text, self.bytes.as_slice());
        assert(text@ =~= ascii_text(self@));
        text
    }

    /// The four bytes, unchanged.
    pub fn bytes(&self) -> (out: [u8; 4])
        ensures
            out@ == self@,
            is_type_code(self@),
    {
        proof {
            use_type_invariant(self);
        }
        self.bytes
    }
}

impl TryFrom<[u8; 4]> for ChunkType {
    type Error = ChunkTypeError;

    /// Builds a chunk type from four bytes, each of which must be an ASCII
    /// letter.
    fn try_from(bytes: [u8; 4]) -> (r: Result<ChunkType, ChunkTypeError>)
        ensures
            r is Ok <==> is_type_code(bytes@),
            r matches Ok(t) ==> t@ == bytes@,
            r matches Err(e) ==> e == ChunkTypeError::InvalidChunkType,
    {
        if is_letter_byte(bytes[0]) && is_letter_byte(bytes[1]) && is_letter_byte(bytes[2])
            && is_letter_byte(bytes[3]) {
            Ok(ChunkType { bytes })
        } else {
            Err(ChunkTypeError::InvalidChunkType)
        }
    }
}

impl vstd::std_specs::convert::TryFromSpecImpl<[u8; 4]> for ChunkType {
    open spec fn obeys_try_from_spec() -> bool {
        true
    }

    closed spec fn try_from_spec(bytes: [u8; 4]) -> Result<ChunkType, ChunkTypeError> {
        if is_type_code(bytes@) {
            Ok(ChunkType { bytes })
        } else {
            Err(ChunkTypeError::InvalidChunkType)
        }
    }
}

impl core::str::FromStr for ChunkType {
    type Err = ChunkTypeError;

    /// As [`ChunkType::from_str`].
    fn from_str(s: &str) -> (r: Result<ChunkType, ChunkTypeError>)
        ensures
            r is Ok <==> is_type_code(s.spec_bytes()),
            r matches Ok(t) ==> t@ == s.spec_bytes(),
            r matches Err(e) ==> e == ChunkTypeError::InvalidChunkType,
    {
        ChunkType::from_str(s)
    }
}

} // verus!
