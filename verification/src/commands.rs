//! What the commands decide, apart from reading and writing files.
use crate::bytes::bytes_equal;
use crate::chunk::{chunk_of, Chunk, ChunkView};
use crate::chunk_type::{is_valid_type_code, ChunkType};
use crate::png::{first_of_type, lacks_type, views, Png, PngError};
use crate::text::{is_blank, is_blank_text};
use vstd::prelude::*;
use vstd::slice::slice_to_vec;
use vstd::string::StringSliceAdditionalSpecFns;
use vstd::utf8::{decode_utf8, valid_utf8};

verus! {

/// The type of the chunk that holds an image's header.
pub const IHDR: [u8; 4] = [0x49, 0x48, 0x44, 0x52];

/// The type of the chunks that hold an image's pixels.
pub const IDAT: [u8; 4] = [0x49, 0x44, 0x41, 0x54];

/// The type of the chunk that ends an image.
pub const IEND: [u8; 4] = [0x49, 0x45, 0x4e, 0x44];

/// `code` is the type of one of the three chunks that every image
/// carries: `IHDR`, `IDAT` or `IEND`.
pub open spec fn is_standard_type(code: Seq<u8>) -> bool {
    code == IHDR@ || code == IDAT@ || code == IEND@
}

/// A chunk that a filtered listing shows: one that has data, whose data
/// are valid UTF-8, and which is none of the three standard chunks.
pub open spec fn is_shown(c: ChunkView) -> bool {
    c.length != 0 && valid_utf8(c.data) && !is_standard_type(c.chunk_type)
}

/// Whether `chunk_type` is `IHDR`, `IDAT` or `IEND`.
pub fn is_standard(chunk_type: &ChunkType) -> (standard: bool)
    ensures
        standard == is_standard_type(chunk_type@),
{
    let code = chunk_type.bytes();
    bytes_equal(code.as_slice(), IHDR.as_slice()) || bytes_equal(code.as_slice(), IDAT.as_slice())
        || bytes_equal(code.as_slice(), IEND.as_slice())
}

/// Whether a listing that leaves out what is of no interest shows this
/// chunk: it does unless the chunk has no data, its data are not valid
/// UTF-8, or it is one of the three standard chunks.
pub fn filtering(chunk: &&Chunk) -> (shown: bool)
    ensures
        shown == is_shown(chunk@),
{
    chunk.length() != 0 && chunk.data_as_string().is_ok() && !is_standard(chunk.chunk_type())
}

/// The test by which a listing picks its chunks: every chunk where
/// `filter` is off, the chunks that [`is_shown`] admits where it is on.
pub open spec fn is_listed(filter: bool) -> spec_fn(ChunkView) -> bool {
    |c: ChunkView| !filter || is_shown(c)
}

/// The models of the chunks that `chunks` refer to, in the same order.
pub open spec fn views_of(chunks: Seq<&Chunk>) -> Seq<ChunkView> {
    chunks.map_values(|c: &Chunk| c@)
}

/// The chunks of `png` that a listing shows, in file order: all of them,
/// or with `filter` only those that [`filtering`] admits.
pub fn listing(png: &Png, filter: bool) -> (shown: Vec<&Chunk>)
    ensures
        views_of(shown@) == png@.filter(is_listed(filter)),
{
    let chunks = png.chunks();
    let mut shown: Vec<&Chunk> = Vec::new();
    let mut i: usize = 0;
    proof {
        reveal(Seq::filter);
        assert(png@.subrange(0, 0).filter(is_listed(filter)) =~= Seq::<ChunkView>::empty());
        assert(views_of(shown@) =~= Seq::<ChunkView>::empty());
    }
    while i < chunks.len()
        invariant
            i <= chunks@.len(),
            views(chunks@) == png@,
            views_of(shown@) == png@.subrange(0, i as int).filter(is_listed(filter)),
        decreases chunks@.len() - i,
    {
        let chunk = &chunks[i];
        let ghost before = views_of(shown@);
        let keep = !filter || filtering(&chunk);
        if keep {
            shown.push(chunk);
            assert(views_of(shown@) =~= before.push(chunk@));
        }
        proof {
            reveal(Seq::filter);
            let longer = png@.subrange(0, i + 1);
            assert(longer.drop_last() =~= png@.subrange(0, i as int));
            assert(longer.last() == chunk@);
        }
        i += 1;
    }
    assert(png@.subrange(0, i as int) =~= png@);
    shown
}

/// What a listing says of the data of a chunk.
#[derive(Debug, PartialEq, Eq)]
pub enum ChunkMessage {
    /// The data are text with nothing but white space in it, or no data at
    /// all.
    Blank,
    /// The data are this text.
    Text(String),
    /// The data are not valid UTF-8.
    NotUtf8,
}

/// `message` is what a listing says of the chunk `c`: that its data are
/// no text, that they are blank, or the text that they are.
pub open spec fn says(message: ChunkMessage, c: ChunkView) -> bool {
    match message {
        ChunkMessage::NotUtf8 => !valid_utf8(c.data),
        ChunkMessage::Blank => valid_utf8(c.data) && is_blank(decode_utf8(c.data)),
        ChunkMessage::Text(s) => {
            &&& valid_utf8(c.data)
            &&& s@ == decode_utf8(c.data)
            &&& !is_blank(s@)
        },
    }
}

/// What a listing says of the data of `chunk`: the text that they are,
/// unless they are blank or no text.
pub fn chunk_message(chunk: &Chunk) -> (message: ChunkMessage)
    ensures
        says(message, chunk@),
{
    match chunk.data_as_string() {
        Ok(s) => {
            if is_blank_text(s.as_str()) {
                ChunkMessage::Blank
            } else {
                ChunkMessage::Text(s)
            }
        },
        Err(_) => ChunkMessage::NotUtf8,
    }
}

/// What a listing says of the first chunk of `png` whose type reads
/// `chunk_type`; none where no chunk has that type.
pub fn decode_message(png: &Png, chunk_type: &str) -> (r: Option<ChunkMessage>)
    ensures
        r is None <==> lacks_type(png@, chunk_type.spec_bytes()),
        r matches Some(message) ==> says(
            message,
            png@[first_of_type(png@, chunk_type.spec_bytes())],
        ),
{
    match png.chunk_by_type(chunk_type) {
        Some(chunk) => Some(chunk_message(chunk)),
        None => None,
    }
}

/// Takes the first chunk whose type reads `chunk_type` out of `png` and
/// returns what a listing says of it. Where no chunk has that type,
/// nothing changes.
pub fn remove_message(png: &mut Png, chunk_type: &str) -> (r: Result<ChunkMessage, PngError>)
    ensures
        r is Err <==> lacks_type(old(png)@, chunk_type.spec_bytes()),
        match r {
            Ok(message) => {
                &&& says(message, old(png)@[first_of_type(old(png)@, chunk_type.spec_bytes())])
                &&& final(png)@ == old(png)@.remove(
                    first_of_type(old(png)@, chunk_type.spec_bytes()),
                )
            },
            Err(e) => e == PngError::NotFound && final(png)@ == old(png)@,
        },
{
    match png.remove_first_chunk(chunk_type) {
        Ok(chunk) => Ok(chunk_message(&chunk)),
        Err(e) => Err(e),
    }
}

/// Why a message could not be put into a file.
#[derive(Debug, Clone, Copy, PartialEq, Eq, Structural)]
pub enum EncodeError {
    /// The name is not four ASCII letters of which the third is upper case.
    InvalidChunkType,
    /// The message has more bytes than the length field of a chunk can
    /// count.
    MessageTooLong,
}

/// Puts `message` into `png` as a new last chunk of the type that
/// `chunk_name` spells. The name must be a chunk type that is valid for new
/// chunks; otherwise nothing changes.
pub fn append_message(png: &mut Png, chunk_name: &str, message: &str) -> (r: Result<
    (),
    EncodeError,
>)
    ensures
        match r {
            Ok(_) => {
                &&& is_valid_type_code(chunk_name.spec_bytes())
                &&& message.spec_bytes().len() <= u32::MAX
                &&& final(png)@ == old(png)@.push(
                    chunk_of(chunk_name.spec_bytes(), message.spec_bytes()),
                )
            },
            Err(e) => {
                &&& final(png)@ == old(png)@
                &&& e == if !is_valid_type_code(chunk_name.spec_bytes()) {
                    EncodeError::InvalidChunkType
                } else {
                    EncodeError::MessageTooLong
                }
                &&& !is_valid_type_code(chunk_name.spec_bytes()) || message.spec_bytes().len()
                    > u32::MAX
            },
        },
{
    let chunk_type = match ChunkType::from_str(chunk_name) {
        Ok(t) => t,
        Err(_) => {
            return Err(EncodeError::InvalidChunkType);
        },
    };
    if !chunk_type.is_valid() {
        return Err(EncodeError::InvalidChunkType);
    }
    let text = message.as_bytes();
    if text.len() > 0xffff_ffff {
        return Err(EncodeError::MessageTooLong);
    }
    let data = slice_to_vec(text);
    png.append_chunk(Chunk::new(chunk_type, data));
    Ok(())
}

} // verus!
