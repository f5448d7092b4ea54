//! One chunk: a length, a chunk type, the data, and a checksum over the
//! type and the data.
use crate::bytes::{
    append_bytes, be_bytes, be_u32, bytes_equal, lemma_be_bytes_of_be_u32,
    lemma_be_u32_of_be_bytes, read_u32_be, u32_to_be_bytes,
};
use crate::checksum::{checksum, crc32_iso_hdlc};
use crate::chunk_type::{is_type_code, ChunkType};
use crate::text::{ascii_text, decimal, push_ascii, push_decimal, string_from_utf8};
use vstd::prelude::*;
use vstd::slice::{slice_subrange, slice_to_vec};
use vstd::string::StringExecFns;
use vstd::utf8::{decode_utf8, encode_utf8, encode_utf8_decode_utf8, valid_utf8};

verus! {

/// Why bytes are not a chunk, or a chunk's data not text.
#[derive(Debug, Clone, Copy, PartialEq, Eq, Structural)]
pub enum ChunkError {
    /// Fewer than the 12 bytes that a chunk without data takes.
    TooShort,
    /// The length field disagrees with the number of bytes given.
    LengthMismatched,
    /// The four bytes of the chunk type are not all ASCII letters.
    InvalidChunkType,
    /// The stored checksum is not the checksum of the type and data.
    InvalidCrc,
    /// The data is not valid UTF-8.
    InvalidText,
}

/// What a chunk is: its four fields as plain values.
pub struct ChunkView {
    pub length: u32,
    pub chunk_type: Seq<u8>,
    pub data: Seq<u8>,
    pub crc: u32,
}

impl ChunkView {
    /// The fields agree: the type is four letters, the length is that of
    /// the data, and the checksum is that of the type followed by the data.
    pub open spec fn wf(self) -> bool {
        &&& is_type_code(self.chunk_type)
        &&& self.length == self.data.len()
        &&& self.crc == crc32_iso_hdlc(self.chunk_type + self.data)
    }
}

/// The chunk made of a type and data: the length and checksum follow.
pub open spec fn chunk_of(chunk_type: Seq<u8>, data: Seq<u8>) -> ChunkView {
    ChunkView {
        length: data.len() as u32,
        chunk_type,
        data,
        crc: crc32_iso_hdlc(chunk_type + data),
    }
}

/// The bytes of a chunk: length, type, data, checksum; both numbers
/// big-endian.
pub open spec fn serialize_chunk(c: ChunkView) -> Seq<u8> {
    be_bytes(c.length) + c.chunk_type + c.data + be_bytes(c.crc)
}

/// The fields that `bytes` hold when read as one chunk, before the
/// checksum is looked at.
pub open spec fn frame_chunk(bytes: Seq<u8>) -> Result<ChunkView, ChunkError> {
    let n = bytes.len() as int;
    if n < 12 {
        Err(ChunkError::TooShort)
    } else if 12 + be_u32(bytes.subrange(0, 4)) != n {
        Err(ChunkError::LengthMismatched)
    } else if !is_type_code(bytes.subrange(4, 8)) {
        Err(ChunkError::InvalidChunkType)
    } else {
        Ok(
            ChunkView {
                length: be_u32(bytes.subrange(0, 4)),
                chunk_type: bytes.subrange(4, 8),
                data: bytes.subrange(8, n - 4),
                crc: be_u32(bytes.subrange(n - 4, n)),
            },
        )
    }
}

/// The outcome of comparing the checksum found in a chunk's bytes with the
/// one computed over them.
pub open spec fn check_crc(found: u32, expected: u32) -> Result<(), ChunkError> {
    if found == expected {
        Ok(())
    } else {
        Err(ChunkError::InvalidCrc)
    }
}

/// The chunk that `bytes` hold, or the reason why they hold none.
pub open spec fn parse_chunk(bytes: Seq<u8>) -> Result<ChunkView, ChunkError> {
    match frame_chunk(bytes) {
        Err(e) => Err(e),
        Ok(c) => match check_crc(c.crc, crc32_iso_hdlc(bytes.subrange(4, bytes.len() - 4))) {
            Err(e) => Err(e),
            Ok(_) => Ok(c),
        },
    }
}

/// The fixed-size fields of a serialized chunk, read before the checksum is
/// verified. The data are the bytes between the type and the checksum.
#[derive(Debug, Clone, Copy)]
pub struct ChunkFrame {
    pub length: u32,
    pub chunk_type: ChunkType,
    pub crc: u32,
}

/// A chunk. Its fields always agree with each other: see [`ChunkView::wf`].
#[derive(Debug)]
pub struct Chunk {
    length: u32,
    chunk_type: ChunkType,
    data: Vec<u8>,
    crc: u32,
}

impl View for Chunk {
    type V = ChunkView;

    closed spec fn view(&self) -> ChunkView {
        ChunkView {
            length: self.length,
            chunk_type: self.chunk_type@,
            data: self.data@,
            crc: self.crc,
        }
    }
}

impl PartialEq for Chunk {
    /// Two chunks are equal when their four fields are.
    fn eq(&self, other: &Self) -> (equal: bool) {
        self.length == other.length && self.chunk_type == other.chunk_type && bytes_equal(
            self.data.as_slice(),
            other.data.as_slice(),
        ) && self.crc == other.crc
    }
}

impl Eq for Chunk {

}

impl vstd::std_specs::cmp::PartialEqSpecImpl for Chunk {
    open spec fn obeys_eq_spec() -> bool {
        true
    }

    open spec fn eq_spec(&self, other: &Self) -> bool {
        self@ == other@
    }
}

impl Chunk {
    /// Every chunk is well formed.
    #[verifier::type_invariant]
    pub open spec fn inv(&self) -> bool {
        self@.wf()
    }

    /// The chunk with this type and data: the length is the number of data
    /// bytes, the checksum that of the type followed by the data. The type
    /// is taken as it is, valid for new chunks or not. The data must not be
    /// longer than the 32 bits of the length field can say.
    pub fn new(chunk_type: ChunkType, data: Vec<u8>) -> (chunk: Chunk)
        requires
            data@.len() <= u32::MAX,
        ensures
            chunk@ == chunk_of(chunk_type@, data@),
            chunk@.wf(),
    {
        let length: u32 = data.len() as u32;
        let type_bytes = chunk_type.bytes();
        let mut payload: Vec<u8> = Vec::new();
        append_bytes(&mut payload, type_bytes.as_slice());
        append_bytes(&mut payload, data.as_slice());
        assert(payload@ =~= chunk_type@ + data@);
        let crc = checksum(payload.as_slice());
        Chunk { length, chunk_type, data, crc }
    }

    /// The number of data bytes.
    pub fn length(&self) -> (length: u32)
        ensures
            length == self@.length,
            length == self@.data.len(),
    {
        proof {
            use_type_invariant(self);
        }
        self.length
    }

    /// The chunk type.
    pub fn chunk_type(&self) -> (chunk_type: &ChunkType)
        ensures
            chunk_type@ == self@.chunk_type,
    {
        &self.chunk_type
    }

    /// The data.
    pub fn data(&self) -> (data: &[u8])
        ensures
            data@ == self@.data,
    {
        self.data.as_slice()
    }

    /// The checksum of the type followed by the data.
    pub fn crc(&self) -> (crc: u32)
        ensures
            crc == self@.crc,
            crc == crc32_iso_hdlc(self@.chunk_type + self@.data),
    {
        proof {
            use_type_invariant(self);
        }
        self.crc
    }

    /// The data as text, where they are valid UTF-8.
    pub fn data_as_string(&self) -> (r: Result<String, ChunkError>)
        ensures
            r is Ok <==> valid_utf8(self@.data),
            r matches Ok(s) ==> encode_utf8(s@) == self@.data && s@ == decode_utf8(self@.data),
            r matches Err(e) ==> e == ChunkError::InvalidText,
    {
        match string_from_utf8(slice_to_vec(self.data.as_slice())) {
            Ok(s) => {
                proof {
                    encode_utf8_decode_utf8(s@);
                }
                Ok(s)
            },
            Err(_) => Err(ChunkError::InvalidText),
        }
    }

    /// A line for diagnostics: the type and the length, as in
    /// `Chunk RuSt with len 42`.
    pub fn to_string(&self) -> (text: String)
        ensures
            text@ == "Chunk "@ + ascii_text(self@.chunk_type) + " with len "@ + decimal(
                self@.length as nat,
            ),
    {
        proof {
            use_type_invariant(self);
        }
        let mut text = String::new();
        text.append("Chunk ");
        push_ascii(&mut text, self.chunk_type.bytes().as_slice());
        text.append(" with len ");
        push_decimal(&mut text, self.length);
        assert(text@ =~= "Chunk "@ + ascii_text(self@.chunk_type) + " with len "@ + decimal(
            self@.length as nat,
        ));
        text
    }

    /// Reads the fixed-size fields of the chunk that `value` holds and
    /// checks all but the checksum: that there are at least 12 bytes, that
    /// the length field accounts for every byte given, and that the type is
    /// four letters. The first of these that fails is the error.
    pub fn frame(value: &[u8]) -> (r: Result<ChunkFrame, ChunkError>)
        ensures
            match r {
                Ok(f) => frame_chunk(value@) == Ok::<ChunkView, ChunkError>(
                    (ChunkView {
                        length: f.length,
                        chunk_type: f.chunk_type@,
                        data: value@.subrange(8, value@.len() - 4),
                        crc: f.crc,
                    }),
                ),
                Err(e) => frame_chunk(value@) == Err::<ChunkView, ChunkError>(e),
            },
    {
        let n = value.len();
        if n < 12 {
            return Err(ChunkError::TooShort);
        }
        let length = read_u32_be(value, 0);
        if length as u64 + 12 != n as u64 {
            return Err(ChunkError::LengthMismatched);
        }
        let type_bytes: [u8; 4] = [value[4], value[5], value[6], value[7]];
        assert(type_bytes@ =~= value@.subrange(4, 8));
        let chunk_type = match ChunkType::try_from(type_bytes) {
            Ok(t) => t,
            Err(_) => {
                return Err(ChunkError::InvalidChunkType);
            },
        };
        let crc = read_u32_be(value, n - 4);
        Ok(ChunkFrame { length, chunk_type, crc })
    }

    /// Accepts a chunk whose stored checksum `found` is the one computed
    /// over its type and data, `expected`, and rejects any other.
    pub fn verify_crc(found: u32, expected: u32) -> (r: Result<(), ChunkError>)
        ensures
            r == check_crc(found, expected),
    {
        if found != expected {
            Err(ChunkError::InvalidCrc)
        } else {
            Ok(())
        }
    }

    /// The bytes of this chunk, which [`Chunk::try_from`] reads back.
    pub fn as_bytes(&self) -> (bytes: Vec<u8>)
        ensures
            bytes@ == serialize_chunk(self@),
            parse_chunk(bytes@) == Ok::<ChunkView, ChunkError>(self@),
    {
        proof {
            use_type_invariant(self);
            lemma_parse_serialize_chunk(self@);
        }
        let mut bytes: Vec<u8> = Vec::new();
        append_bytes(&mut bytes, u32_to_be_bytes(self.length).as_slice());
        append_bytes(&mut bytes, self.chunk_type.bytes().as_slice());
        append_bytes(&mut bytes, self.data.as_slice());
        append_bytes(&mut bytes, u32_to_be_bytes(self.crc).as_slice());
        assert(bytes@ =~= serialize_chunk(self@));
        bytes
    }
}

impl TryFrom<&[u8]> for Chunk {
    type Error = ChunkError;

    /// Reads `value` as exactly one chunk. The fields are taken as they
    /// stand in `value`; the checksum is recomputed over the type and data
    /// and must equal the stored one.
    fn try_from(value: &[u8]) -> (r: Result<Chunk, ChunkError>)
        ensures
            match r {
                Ok(c) => parse_chunk(value@) == Ok::<ChunkView, ChunkError>(c@),
                Err(e) => parse_chunk(value@) == Err::<ChunkView, ChunkError>(e),
            },
    {
        let frame = match Chunk::frame(value) {
            Ok(f) => f,
            Err(e) => {
                return Err(e);
            },
        };
        let n = value.len();
        let expected = checksum(slice_subrange(value, 4, n - 4));
        match Chunk::verify_crc(frame.crc, expected) {
            Ok(_) => {},
            Err(e) => {
                return Err(e);
            },
        }
        let data = slice_to_vec(slice_subrange(value, 8, n - 4));
        assert(frame.chunk_type@ + data@ =~= value@.subrange(4, n - 4));
        Ok(Chunk { length: frame.length, chunk_type: frame.chunk_type, data, crc: frame.crc })
    }
}

impl vstd::std_specs::convert::TryFromSpecImpl<&[u8]> for Chunk {
    /// The contract of `try_from` is stated over views, on the function
    /// itself.
    open spec fn obeys_try_from_spec() -> bool {
        false
    }

    open spec fn try_from_spec(value: &[u8]) -> Result<Chunk, ChunkError> {
        arbitrary()
    }
}

/// A well-formed chunk is read back from its bytes as it was.
pub proof fn lemma_parse_serialize_chunk(c: ChunkView)
    requires
        c.wf(),
    ensures
        parse_chunk(serialize_chunk(c)) == Ok::<ChunkView, ChunkError>(c),
{
    let bytes = serialize_chunk(c);
    let n = bytes.len() as int;
    lemma_be_u32_of_be_bytes(c.length);
    lemma_be_u32_of_be_bytes(c.crc);
    assert(bytes.subrange(0, 4) =~= be_bytes(c.length));
    assert(bytes.subrange(4, 8) =~= c.chunk_type);
    assert(bytes.subrange(8, n - 4) =~= c.data);
    assert(bytes.subrange(n - 4, n) =~= be_bytes(c.crc));
    assert(bytes.subrange(4, n - 4) =~= c.chunk_type + c.data);
}

/// The bytes of a well-formed chunk, cut short or followed by more bytes,
/// are no chunk: with fewer than 12 bytes left they are too short, else
/// their length field no longer accounts for them.
pub proof fn lemma_resized_chunk_rejected(c: ChunkView, bytes: Seq<u8>)
    requires
        c.wf(),
        bytes.len() != serialize_chunk(c).len(),
        bytes.is_prefix_of(serialize_chunk(c)) || serialize_chunk(c).is_prefix_of(bytes),
    ensures
        bytes.len() < 12 ==> parse_chunk(bytes) == Err::<ChunkView, ChunkError>(
            ChunkError::TooShort,
        ),
        bytes.len() >= 12 ==> parse_chunk(bytes) == Err::<ChunkView, ChunkError>(
            ChunkError::LengthMismatched,
        ),
{
    lemma_be_u32_of_be_bytes(c.length);
    lemma_be_u32_of_be_bytes(c.crc);
    if bytes.len() >= 12 {
        assert(bytes.subrange(0, 4) =~= be_bytes(c.length));
    }
}

/// Any bytes whose number is not 12 plus what their length field says are
/// refused for that, and any fewer than 12 for being too short.
pub proof fn lemma_length_enforced(bytes: Seq<u8>)
    ensures
        bytes.len() < 12 <==> parse_chunk(bytes) == Err::<ChunkView, ChunkError>(
            ChunkError::TooShort,
        ),
        bytes.len() >= 12 && 12 + be_u32(bytes.subrange(0, 4)) != bytes.len() <==> parse_chunk(
            bytes,
        ) == Err::<ChunkView, ChunkError>(ChunkError::LengthMismatched),
{
}

/// The bytes of a well-formed chunk in which the type and data were
/// replaced, the type by four letters and the data by as many bytes as
/// before, while the stored checksum stayed: where the checksum of what
/// now stands there differs from the stored one, the bytes are refused for
/// their checksum.
pub proof fn lemma_altered_chunk_rejected(c: ChunkView, chunk_type: Seq<u8>, data: Seq<u8>)
    requires
        c.wf(),
        is_type_code(chunk_type),
        data.len() == c.data.len(),
    ensures
        crc32_iso_hdlc(chunk_type + data) != c.crc ==> parse_chunk(
            be_bytes(c.length) + chunk_type + data + be_bytes(c.crc),
        ) == Err::<ChunkView, ChunkError>(ChunkError::InvalidCrc),
{
    let bytes = be_bytes(c.length) + chunk_type + data + be_bytes(c.crc);
    let n = bytes.len() as int;
    lemma_be_u32_of_be_bytes(c.length);
    lemma_be_u32_of_be_bytes(c.crc);
    assert(bytes.subrange(0, 4) =~= be_bytes(c.length));
    assert(bytes.subrange(4, 8) =~= chunk_type);
    assert(bytes.subrange(n - 4, n) =~= be_bytes(c.crc));
    assert(bytes.subrange(4, n - 4) =~= chunk_type + data);
}

/// Bytes that are read as a chunk are the bytes of that chunk, and the
/// chunk is well formed.
pub proof fn lemma_serialize_parse_chunk(bytes: Seq<u8>)
    requires
        parse_chunk(bytes) is Ok,
    ensures
        parse_chunk(bytes)->Ok_0.wf(),
        serialize_chunk(parse_chunk(bytes)->Ok_0) == bytes,
{
    let c = parse_chunk(bytes)->Ok_0;
    let n = bytes.len() as int;
    lemma_be_bytes_of_be_u32(bytes.subrange(0, 4));
    lemma_be_bytes_of_be_u32(bytes.subrange(n - 4, n));
    assert(c.chunk_type + c.data =~= bytes.subrange(4, n - 4));
    assert(serialize_chunk(c) =~= bytes);
}

} // verus!
