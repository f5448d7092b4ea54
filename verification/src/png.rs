//! The whole file: the signature, then chunks in order.
use crate::bytes::{
    append_bytes, be_bytes, be_u32, bytes_equal, lemma_be_u32_of_be_bytes, read_u32_be,
};
use crate::chunk::{
    lemma_parse_serialize_chunk, lemma_serialize_parse_chunk, parse_chunk, serialize_chunk, Chunk,
    ChunkError, ChunkView,
};
use vstd::prelude::*;
use vstd::slice::slice_subrange;
use vstd::string::StringSliceAdditionalSpecFns;

verus! {

/// Why bytes are not a PNG file, or why a chunk could not be removed.
#[derive(Debug, Clone, Copy, PartialEq, Eq, Structural)]
pub enum PngError {
    /// The bytes do not begin with the eight bytes of the signature.
    BadSignature,
    /// What follows the signature is not a run of chunks: the first chunk
    /// that could not be read failed in this way.
    InvalidChunk(ChunkError),
    /// No chunk has the type asked for.
    NotFound,
}

/// The eight bytes with which every PNG file begins.
pub open spec fn signature() -> Seq<u8> {
    seq![0x89u8, 0x50u8, 0x4eu8, 0x47u8, 0x0du8, 0x0au8, 0x1au8, 0x0au8]
}

/// The models of the chunks in `chunks`, in the same order.
pub open spec fn views(chunks: Seq<Chunk>) -> Seq<ChunkView> {
    chunks.map_values(|c: Chunk| c@)
}

/// Every chunk in `chunks` is well formed.
pub open spec fn all_wf(chunks: Seq<ChunkView>) -> bool {
    forall|i: int| 0 <= i < chunks.len() ==> (#[trigger] chunks[i]).wf()
}

/// The bytes of the chunks, one after the other.
pub open spec fn serialize_chunks(chunks: Seq<ChunkView>) -> Seq<u8>
    decreases chunks.len(),
{
    if chunks.len() == 0 {
        Seq::empty()
    } else {
        serialize_chunk(chunks.first()) + serialize_chunks(chunks.drop_first())
    }
}

/// The bytes of a file with these chunks.
pub open spec fn serialize_png(chunks: Seq<ChunkView>) -> Seq<u8> {
    signature() + serialize_chunks(chunks)
}

/// `done` followed by what `rest` holds; the failure of `rest` otherwise.
pub open spec fn prepend(done: Seq<ChunkView>, rest: Result<Seq<ChunkView>, ChunkError>) -> Result<
    Seq<ChunkView>,
    ChunkError,
> {
    match rest {
        Ok(more) => Ok(done + more),
        Err(e) => Err(e),
    }
}

/// The chunks that `bytes` hold one after the other, each taking the 12
/// bytes of its fixed fields and as many data bytes as its length field
/// says; or the failure of the first that cannot be read.
pub open spec fn parse_chunks(bytes: Seq<u8>) -> Result<Seq<ChunkView>, ChunkError>
    decreases bytes.len(),
{
    let n = bytes.len() as int;
    if n == 0 {
        Ok(Seq::empty())
    } else if n < 12 {
        Err(ChunkError::TooShort)
    } else {
        let end = 12 + be_u32(bytes.subrange(0, 4));
        if end > n {
            Err(ChunkError::LengthMismatched)
        } else {
            match parse_chunk(bytes.subrange(0, end)) {
                Err(e) => Err(e),
                Ok(c) => prepend(seq![c], parse_chunks(bytes.subrange(end, n))),
            }
        }
    }
}

/// `bytes` begin with the signature.
pub open spec fn has_signature(bytes: Seq<u8>) -> bool {
    bytes.len() >= 8 && bytes.subrange(0, 8) == signature()
}

/// The chunks of the file that `bytes` hold, or the reason why they hold
/// none.
pub open spec fn parse_png(bytes: Seq<u8>) -> Result<Seq<ChunkView>, PngError> {
    if !has_signature(bytes) {
        Err(PngError::BadSignature)
    } else {
        match parse_chunks(bytes.subrange(8, bytes.len() as int)) {
            Ok(chunks) => Ok(chunks),
            Err(e) => Err(PngError::InvalidChunk(e)),
        }
    }
}

/// The number of chunks that stand before the first one of type `code`:
/// its index where there is one, the number of chunks where there is none.
pub open spec fn first_of_type(chunks: Seq<ChunkView>, code: Seq<u8>) -> int
    decreases chunks.len(),
{
    if chunks.len() == 0 || chunks.first().chunk_type == code {
        0
    } else {
        1 + first_of_type(chunks.drop_first(), code)
    }
}

/// No chunk before `first_of_type` has the type, and the chunk at it has.
pub proof fn lemma_first_of_type(chunks: Seq<ChunkView>, code: Seq<u8>)
    ensures
        0 <= first_of_type(chunks, code) <= chunks.len(),
        forall|j: int|
            0 <= j < first_of_type(chunks, code) ==> (#[trigger] chunks[j]).chunk_type != code,
        first_of_type(chunks, code) < chunks.len() ==> chunks[first_of_type(
            chunks,
            code,
        )].chunk_type == code,
    decreases chunks.len(),
{
    if chunks.len() != 0 && chunks.first().chunk_type != code {
        let tail = chunks.drop_first();
        lemma_first_of_type(tail, code);
        assert forall|j: int| 0 <= j < first_of_type(chunks, code) implies (
        #[trigger] chunks[j]).chunk_type != code by {
            if j > 0 {
                assert(chunks[j] == tail[j - 1]);
            }
        }
    }
}

/// An index whose chunk has the type, with none of the type before it, is
/// `first_of_type`.
pub proof fn lemma_first_of_type_is(chunks: Seq<ChunkView>, code: Seq<u8>, i: int)
    requires
        0 <= i <= chunks.len(),
        forall|j: int| 0 <= j < i ==> (#[trigger] chunks[j]).chunk_type != code,
        i < chunks.len() ==> chunks[i].chunk_type == code,
    ensures
        first_of_type(chunks, code) == i,
{
    lemma_first_of_type(chunks, code);
}

/// Appending one chunk appends its bytes.
pub proof fn lemma_serialize_chunks_push(chunks: Seq<ChunkView>, c: ChunkView)
    ensures
        serialize_chunks(chunks.push(c)) == serialize_chunks(chunks) + serialize_chunk(c),
    decreases chunks.len(),
{
    if chunks.len() == 0 {
        assert(chunks.push(c).drop_first() =~= Seq::<ChunkView>::empty());
        assert(serialize_chunks(Seq::<ChunkView>::empty()) =~= Seq::<u8>::empty());
        assert(serialize_chunks(chunks.push(c)) =~= serialize_chunk(c));
        assert(serialize_chunks(chunks) + serialize_chunk(c) =~= serialize_chunk(c));
    } else {
        lemma_serialize_chunks_push(chunks.drop_first(), c);
        assert(chunks.push(c).drop_first() =~= chunks.drop_first().push(c));
        assert(serialize_chunks(chunks.push(c)) =~= serialize_chunks(chunks) + serialize_chunk(
            c,
        ));
    }
}

/// No chunk in `chunks` has the type `code`.
pub open spec fn lacks_type(chunks: Seq<ChunkView>, code: Seq<u8>) -> bool {
    forall|i: int| 0 <= i < chunks.len() ==> (#[trigger] chunks[i]).chunk_type != code
}

/// `first_of_type` is the number of chunks exactly when no chunk has the
/// type.
pub proof fn lemma_first_of_type_absent(chunks: Seq<ChunkView>, code: Seq<u8>)
    ensures
        first_of_type(chunks, code) == chunks.len() <==> lacks_type(chunks, code),
{
    lemma_first_of_type(chunks, code);
    if lacks_type(chunks, code) {
        lemma_first_of_type_is(chunks, code, chunks.len() as int);
    }
}

/// Chunks that are well formed are read back from their bytes as they
/// were, in the same order.
pub proof fn lemma_parse_serialize_chunks(chunks: Seq<ChunkView>)
    requires
        all_wf(chunks),
    ensures
        parse_chunks(serialize_chunks(chunks)) == Ok::<Seq<ChunkView>, ChunkError>(chunks),
    decreases chunks.len(),
{
    let bytes = serialize_chunks(chunks);
    if chunks.len() == 0 {
        assert(parse_chunks(bytes) matches Ok(parsed) && parsed =~= chunks);
    } else {
        let c = chunks.first();
        let tail = chunks.drop_first();
        let head_bytes = serialize_chunk(c);
        let n = bytes.len() as int;
        assert(c.wf());
        assert(all_wf(tail)) by {
            assert forall|i: int| 0 <= i < tail.len() implies (#[trigger] tail[i]).wf() by {
                assert(tail[i] == chunks[i + 1]);
            }
        }
        lemma_be_u32_of_be_bytes(c.length);
        lemma_be_u32_of_be_bytes(c.crc);
        assert(bytes.subrange(0, 4) =~= be_bytes(c.length));
        let end = 12 + c.length;
        assert(head_bytes.len() == end);
        assert(bytes.subrange(0, end) =~= head_bytes);
        assert(bytes.subrange(end, n) =~= serialize_chunks(tail));
        lemma_parse_serialize_chunk(c);
        lemma_parse_serialize_chunks(tail);
        assert(seq![c] + tail =~= chunks);
    }
}

/// A file whose chunks are well formed is read back from its bytes as it
/// was: the same chunks in the same order.
pub proof fn lemma_parse_serialize_png(chunks: Seq<ChunkView>)
    requires
        all_wf(chunks),
    ensures
        has_signature(serialize_png(chunks)),
        parse_png(serialize_png(chunks)) == Ok::<Seq<ChunkView>, PngError>(chunks),
{
    let bytes = serialize_png(chunks);
    assert(bytes.subrange(0, 8) =~= signature());
    assert(bytes.subrange(8, bytes.len() as int) =~= serialize_chunks(chunks));
    lemma_parse_serialize_chunks(chunks);
}

/// Bytes that are read as a run of chunks are the bytes of those chunks,
/// and each of the chunks is well formed.
pub proof fn lemma_serialize_parse_chunks(bytes: Seq<u8>)
    requires
        parse_chunks(bytes) is Ok,
    ensures
        all_wf(parse_chunks(bytes)->Ok_0),
        serialize_chunks(parse_chunks(bytes)->Ok_0) == bytes,
    decreases bytes.len(),
{
    let n = bytes.len() as int;
    let chunks = parse_chunks(bytes)->Ok_0;
    if n == 0 {
        assert(serialize_chunks(chunks) =~= bytes);
    } else {
        let end = 12 + be_u32(bytes.subrange(0, 4));
        let c = parse_chunk(bytes.subrange(0, end))->Ok_0;
        let tail = parse_chunks(bytes.subrange(end, n))->Ok_0;
        lemma_serialize_parse_chunk(bytes.subrange(0, end));
        lemma_serialize_parse_chunks(bytes.subrange(end, n));
        assert(chunks == seq![c] + tail);
        assert(chunks.first() == c);
        assert(chunks.drop_first() =~= tail);
        assert(bytes.subrange(0, end) + bytes.subrange(end, n) =~= bytes);
        assert forall|i: int| 0 <= i < chunks.len() implies (#[trigger] chunks[i]).wf() by {
            if i > 0 {
                assert(chunks[i] == tail[i - 1]);
            }
        }
    }
}

/// Bytes that are read as a file are the bytes of that file, and each of
/// its chunks is well formed.
pub proof fn lemma_serialize_parse_png(bytes: Seq<u8>)
    requires
        parse_png(bytes) is Ok,
    ensures
        all_wf(parse_png(bytes)->Ok_0),
        serialize_png(parse_png(bytes)->Ok_0) == bytes,
{
    let head = bytes.subrange(0, 8);
    let body = bytes.subrange(8, bytes.len() as int);
    assert(has_signature(bytes));
    lemma_serialize_parse_chunks(body);
    assert(parse_png(bytes)->Ok_0 == parse_chunks(body)->Ok_0);
    assert(head + body =~= bytes);
}

/// Bytes that do not begin with the signature are no file, whatever
/// follows.
pub proof fn lemma_signature_enforced(bytes: Seq<u8>)
    ensures
        parse_png(bytes) == Err::<Seq<ChunkView>, PngError>(PngError::BadSignature)
            <==> !has_signature(bytes),
{
}

/// The first chunk of a type after one more chunk was appended: the one
/// that was first before, else the new one where it has the type.
pub proof fn lemma_first_of_type_push(chunks: Seq<ChunkView>, c: ChunkView, code: Seq<u8>)
    ensures
        first_of_type(chunks.push(c), code) == if !lacks_type(chunks, code) || c.chunk_type
            == code {
            first_of_type(chunks, code)
        } else {
            chunks.len() as int + 1
        },
{
    let i = first_of_type(chunks, code);
    let longer = chunks.push(c);
    lemma_first_of_type(chunks, code);
    lemma_first_of_type_absent(chunks, code);
    if i < chunks.len() {
        assert(longer[i] == chunks[i]);
        assert forall|j: int| 0 <= j < i implies (#[trigger] longer[j]).chunk_type != code by {
            assert(longer[j] == chunks[j]);
        }
        lemma_first_of_type_is(longer, code, i);
    } else if c.chunk_type == code {
        assert forall|j: int| 0 <= j < i implies (#[trigger] longer[j]).chunk_type != code by {
            assert(longer[j] == chunks[j]);
        }
        lemma_first_of_type_is(longer, code, i);
    } else {
        assert forall|j: int| 0 <= j < i + 1 implies (#[trigger] longer[j]).chunk_type
            != code by {
            if j < i {
                assert(longer[j] == chunks[j]);
            }
        }
        lemma_first_of_type_is(longer, code, i + 1);
    }
}

/// Where no chunk has the type of `c`, appending `c` and then removing the
/// first chunk of that type removes `c` again and leaves the chunks as
/// they were, in the same order.
pub proof fn lemma_remove_appended(chunks: Seq<ChunkView>, c: ChunkView)
    requires
        lacks_type(chunks, c.chunk_type),
    ensures
        first_of_type(chunks.push(c), c.chunk_type) == chunks.len(),
        chunks.push(c)[first_of_type(chunks.push(c), c.chunk_type)] == c,
        chunks.push(c).remove(first_of_type(chunks.push(c), c.chunk_type)) == chunks,
{
    lemma_first_of_type_push(chunks, c, c.chunk_type);
    lemma_first_of_type_absent(chunks, c.chunk_type);
    assert(chunks.push(c).remove(chunks.len() as int) =~= chunks);
}

/// A PNG file: its chunks, in the order in which they stand in the file.
#[derive(Debug)]
pub struct Png {
    chunks: Vec<Chunk>,
}

impl View for Png {
    type V = Seq<ChunkView>;

    closed spec fn view(&self) -> Seq<ChunkView> {
        views(self.chunks@)
    }
}

impl PartialEq for Png {
    /// Two files are equal when they hold equal chunks in the same order.
    fn eq(&self, other: &Self) -> (equal: bool) {
        if self.chunks.len() != other.chunks.len() {
            return false;
        }
        let mut i: usize = 0;
        while i < self.chunks.len()
            invariant
                self.chunks@.len() == other.chunks@.len(),
                i <= self.chunks@.len(),
                self@.subrange(0, i as int) == other@.subrange(0, i as int),
            decreases self.chunks@.len() - i,
        {
            if self.chunks[i] != other.chunks[i] {
                assert(self@[i as int] != other@[i as int]);
                return false;
            }
            assert(self@.subrange(0, i + 1) =~= self@.subrange(0, i as int).push(
                self@[i as int],
            ));
            assert(other@.subrange(0, i + 1) =~= other@.subrange(0, i as int).push(
                other@[i as int],
            ));
            i += 1;
        }
        assert(self@.subrange(0, i as int) =~= self@);
        assert(other@.subrange(0, i as int) =~= other@);
        true
    }
}

impl Eq for Png {

}

impl vstd::std_specs::cmp::PartialEqSpecImpl for Png {
    open spec fn obeys_eq_spec() -> bool {
        true
    }

    open spec fn eq_spec(&self, other: &Self) -> bool {
        self@ == other@
    }
}

impl Png {
    /// The signature, as bytes.
    pub const STANDARD_HEADER: [u8; 8] = [137, 80, 78, 71, 13, 10, 26, 10];

    /// Every chunk of a file is well formed.
    #[verifier::type_invariant]
    pub open spec fn inv(&self) -> bool {
        all_wf(self@)
    }

    /// The file with these chunks, in this order.
    pub fn from_chunks(chunks: Vec<Chunk>) -> (png: Png)
        ensures
            png@ == views(chunks@),
            all_wf(png@),
    {
        // Each chunk is well formed by its own invariant; the loop only
        // gathers these facts for the file's invariant.
        let mut i: usize = 0;
        while i < chunks.len()
            invariant
                i <= chunks@.len(),
                forall|j: int| 0 <= j < i ==> (#[trigger] chunks@[j])@.wf(),
            decreases chunks@.len() - i,
        {
            let chunk = &chunks[i];
            proof {
                use_type_invariant(chunk);
            }
            i += 1;
        }
        Png { chunks }
    }

    /// Puts `chunk` behind the chunks that are there. Nothing is checked:
    /// not its type, nor whether such a chunk is there already, nor which
    /// chunk should stay last.
    pub fn append_chunk(&mut self, chunk: Chunk)
        ensures
            final(self)@ == old(self)@.push(chunk@),
    {
        proof {
            use_type_invariant(&*self);
            use_type_invariant(&chunk);
        }
        let mut chunks = self.take_chunks();
        chunks.push(chunk);
        assert(views(chunks@) =~= views(old(self).chunks@).push(chunk@));
        *self = Png { chunks };
    }

    /// Moves the chunks out and leaves a file without chunks.
    fn take_chunks(&mut self) -> (chunks: Vec<Chunk>)
        ensures
            chunks@ == old(self).chunks@,
            final(self).chunks@.len() == 0,
    {
        let mut taken = Png { chunks: Vec::new() };
        core::mem::swap(self, &mut taken);
        taken.chunks
    }

    /// The index of the first chunk whose type is the bytes of `code`, or
    /// the number of chunks where no chunk has that type.
    fn position(&self, code: &[u8]) -> (i: usize)
        ensures
            i == first_of_type(self@, code@),
            i <= self.chunks@.len(),
    {
        let mut i: usize = 0;
        while i < self.chunks.len()
            invariant
                i <= self.chunks@.len(),
                forall|j: int| 0 <= j < i ==> (#[trigger] self@[j]).chunk_type != code@,
            decreases self.chunks@.len() - i,
        {
            let found = bytes_equal(self.chunks[i].chunk_type().bytes().as_slice(), code);
            if found {
                proof {
                    lemma_first_of_type_is(self@, code@, i as int);
                }
                return i;
            }
            i += 1;
        }
        proof {
            lemma_first_of_type_is(self@, code@, i as int);
        }
        i
    }

    /// The first chunk, in file order, whose type reads `chunk_type`; none
    /// where no chunk has that type.
    pub fn chunk_by_type(&self, chunk_type: &str) -> (r: Option<&Chunk>)
        ensures
            match r {
                Some(c) => {
                    &&& first_of_type(self@, chunk_type.spec_bytes()) < self@.len()
                    &&& c@ == self@[first_of_type(self@, chunk_type.spec_bytes())]
                },
                None => first_of_type(self@, chunk_type.spec_bytes()) == self@.len(),
            },
            r is None <==> lacks_type(self@, chunk_type.spec_bytes()),
    {
        proof {
            lemma_first_of_type_absent(self@, chunk_type.spec_bytes());
        }
        let i = self.position(chunk_type.as_bytes());
        if i < self.chunks.len() {
            Some(&self.chunks[i])
        } else {
            None
        }
    }

    /// Takes out the first chunk, in file order, whose type reads
    /// `chunk_type`, and returns it; the other chunks keep their order.
    /// Where no chunk has that type, nothing changes.
    pub fn remove_first_chunk(&mut self, chunk_type: &str) -> (r: Result<Chunk, PngError>)
        ensures
            match r {
                Ok(c) => {
                    &&& first_of_type(old(self)@, chunk_type.spec_bytes()) < old(self)@.len()
                    &&& c@ == old(self)@[first_of_type(old(self)@, chunk_type.spec_bytes())]
                    &&& final(self)@ == old(self)@.remove(
                        first_of_type(old(self)@, chunk_type.spec_bytes()),
                    )
                },
                Err(e) => {
                    &&& e == PngError::NotFound
                    &&& first_of_type(old(self)@, chunk_type.spec_bytes()) == old(self)@.len()
                    &&& final(self)@ == old(self)@
                },
            },
            r is Err <==> lacks_type(old(self)@, chunk_type.spec_bytes()),
    {
        proof {
            use_type_invariant(&*self);
            lemma_first_of_type_absent(self@, chunk_type.spec_bytes());
        }
        let i = self.position(chunk_type.as_bytes());
        if i >= self.chunks.len() {
            return Err(PngError::NotFound);
        }
        let mut chunks = self.take_chunks();
        let chunk = chunks.remove(i);
        assert(views(chunks@) =~= views(old(self).chunks@).remove(i as int));
        *self = Png { chunks };
        Ok(chunk)
    }

    /// The bytes of the file: the signature, then each chunk's bytes in
    /// order. [`Png::try_from`] reads them back.
    pub fn as_bytes(&self) -> (bytes: Vec<u8>)
        ensures
            bytes@ == serialize_png(self@),
            parse_png(bytes@) == Ok::<Seq<ChunkView>, PngError>(self@),
    {
        proof {
            use_type_invariant(self);
            lemma_parse_serialize_png(self@);
        }
        let mut bytes: Vec<u8> = Vec::new();
        append_bytes(&mut bytes, Png::STANDARD_HEADER.as_slice());
        assert(bytes@ =~= signature());
        assert(serialize_chunks(self@.subrange(0, 0)) =~= Seq::<u8>::empty());
        let mut i: usize = 0;
        while i < self.chunks.len()
            invariant
                i <= self.chunks@.len(),
                bytes@ == signature() + serialize_chunks(self@.subrange(0, i as int)),
            decreases self.chunks@.len() - i,
        {
            let chunk_bytes = self.chunks[i].as_bytes();
            append_bytes(&mut bytes, chunk_bytes.as_slice());
            proof {
                lemma_serialize_chunks_push(self@.subrange(0, i as int), self@[i as int]);
                assert(self@.subrange(0, i + 1) =~= self@.subrange(0, i as int).push(
                    self@[i as int],
                ));
            }
            i += 1;
        }
        assert(self@.subrange(0, i as int) =~= self@);
        bytes
    }

    /// The chunks, in order.
    pub fn chunks(&self) -> (chunks: &[Chunk])
        ensures
            views(chunks@) == self@,
            all_wf(self@),
    {
        proof {
            use_type_invariant(self);
        }
        self.chunks.as_slice()
    }

    /// The signature.
    pub fn header(&self) -> (header: &[u8; 8])
        ensures
            header@ == signature(),
    {
        assert(Png::STANDARD_HEADER@ =~= signature());
        &Png::STANDARD_HEADER
    }
}

impl TryFrom<&[u8]> for Png {
    type Error = PngError;

    /// Reads `value` as a whole file: the signature, then chunks until the
    /// bytes end. The first chunk that cannot be read fails the whole.
    fn try_from(value: &[u8]) -> (r: Result<Png, PngError>)
        ensures
            match r {
                Ok(png) => parse_png(value@) == Ok::<Seq<ChunkView>, PngError>(png@),
                Err(e) => parse_png(value@) == Err::<Seq<ChunkView>, PngError>(e),
            },
            r matches Err(PngError::BadSignature) <==> !has_signature(value@),
    {
        let n = value.len();
        if n < 8 || !bytes_equal(slice_subrange(value, 0, 8), Png::STANDARD_HEADER.as_slice()) {
            assert(Png::STANDARD_HEADER@ =~= signature());
            return Err(PngError::BadSignature);
        }
        assert(Png::STANDARD_HEADER@ =~= signature());
        let ghost body = value@.subrange(8, n as int);
        let mut chunks: Vec<Chunk> = Vec::new();
        let mut at: usize = 8;
        assert(value@.subrange(at as int, n as int) =~= body);
        assert(views(chunks@) + parse_chunks(body)->Ok_0 =~= parse_chunks(body)->Ok_0);
        while at < n
            invariant
                8 <= at <= n,
                n == value@.len(),
                has_signature(value@),
                body == value@.subrange(8, n as int),
                parse_chunks(body) == prepend(
                    views(chunks@),
                    parse_chunks(value@.subrange(at as int, n as int)),
                ),
                all_wf(views(chunks@)),
            decreases n - at,
        {
            let ghost rest = value@.subrange(at as int, n as int);
            if n - at < 12 {
                return Err(PngError::InvalidChunk(ChunkError::TooShort));
            }
            let length = read_u32_be(value, at);
            assert(rest.subrange(0, 4) =~= value@.subrange(at as int, at + 4));
            if length as u64 + 12 > (n - at) as u64 {
                return Err(PngError::InvalidChunk(ChunkError::LengthMismatched));
            }
            let end: usize = at + 12 + length as usize;
            assert(rest.subrange(0, end - at) =~= value@.subrange(at as int, end as int));
            assert(rest.subrange(end - at, rest.len() as int) =~= value@.subrange(
                end as int,
                n as int,
            ));
            let chunk = match Chunk::try_from(slice_subrange(value, at, end)) {
                Ok(c) => c,
                Err(e) => {
                    return Err(PngError::InvalidChunk(e));
                },
            };
            proof {
                use_type_invariant(&chunk);
                let ghost tail = parse_chunks(value@.subrange(end as int, n as int));
                if tail is Ok {
                    assert(views(chunks@.push(chunk)) + tail->Ok_0 =~= views(chunks@) + (seq![
                        chunk@,
                    ] + tail->Ok_0));
                }
                assert(views(chunks@.push(chunk)) =~= views(chunks@).push(chunk@));
            }
            chunks.push(chunk);
            at = end;
        }
        assert(value@.subrange(at as int, n as int) =~= Seq::<u8>::empty());
        assert(views(chunks@) + Seq::<ChunkView>::empty() =~= views(chunks@));
        Ok(Png { chunks })
    }
}

impl vstd::std_specs::convert::TryFromSpecImpl<&[u8]> for Png {
    /// The contract of `try_from` is stated over views, on the function
    /// itself.
    open spec fn obeys_try_from_spec() -> bool {
        false
    }

    open spec fn try_from_spec(value: &[u8]) -> Result<Png, PngError> {
        arbitrary()
    }
}

} // verus!
