//! The PNG container: the signature and an ordered sequence of chunks.

use vstd::prelude::*;
use vstd::slice::slice_subrange;
use crate::chunk::{decode_chunk, lemma_decode_wire_then, lemma_wire_decoded, lemma_wire_len};
use crate::chunk::{Chunk, ChunkView};
use crate::chunk_type::{is_type_text, text_codes, ChunkType};
use crate::error::Error;
use crate::text::is_upper;

verus! {

/// The eight bytes that every PNG file starts with.
pub open spec fn signature() -> Seq<u8> {
    seq![0x89, 0x50, 0x4E, 0x47, 0x0D, 0x0A, 0x1A, 0x0A]
}

/// Whether a buffer starts with the PNG signature.
pub open spec fn has_signature(bytes: Seq<u8>) -> bool {
    bytes.len() >= 8 && bytes.subrange(0, 8) == signature()
}

/// Every chunk of the sequence is well-formed.
pub open spec fn all_wf(chunks: Seq<ChunkView>) -> bool {
    forall|i: int| 0 <= i < chunks.len() ==> (#[trigger] chunks[i]).wf()
}

/// The records of a sequence of chunks, one behind the other.
pub open spec fn chunks_wire(chunks: Seq<ChunkView>) -> Seq<u8>
    decreases chunks.len(),
{
    if chunks.len() == 0 {
        Seq::empty()
    } else {
        chunks_wire(chunks.drop_last()) + chunks.last().wire()
    }
}

/// A PNG file: the signature, then the records of its chunks in order.
pub open spec fn png_wire(chunks: Seq<ChunkView>) -> Seq<u8> {
    signature() + chunks_wire(chunks)
}

/// Puts chunks that were read before in front of the outcome of reading on.
pub open spec fn after(done: Seq<ChunkView>, more: Result<Seq<ChunkView>, Error>) -> Result<
    Seq<ChunkView>,
    Error,
> {
    match more {
        Ok(chunks) => Ok(done + chunks),
        Err(e) => Err(e),
    }
}

/// The chunks whose records fill `bytes` from the first byte to the last, or
/// the first error met on the way.
pub open spec fn decode_chunks(bytes: Seq<u8>) -> Result<Seq<ChunkView>, Error>
    decreases bytes.len(),
{
    if bytes.len() == 0 {
        Ok(Seq::empty())
    } else {
        match decode_chunk(bytes) {
            Err(e) => Err(e),
            Ok(c) => after(
                seq![c],
                decode_chunks(bytes.subrange(c.data.len() as int + 12, bytes.len() as int)),
            ),
        }
    }
}

/// The chunks of the PNG file in `bytes`, or the reason why it is none.
pub open spec fn decode_png(bytes: Seq<u8>) -> Result<Seq<ChunkView>, Error> {
    if has_signature(bytes) {
        decode_chunks(bytes.subrange(8, bytes.len() as int))
    } else {
        Err(Error::InvalidFormat)
    }
}

/// `i` is the place of the first chunk of type `code`.
pub open spec fn is_first_of_type(chunks: Seq<ChunkView>, code: Seq<u8>, i: int) -> bool {
    &&& 0 <= i < chunks.len()
    &&& chunks[i].chunk_type == code
    &&& forall|j: int| 0 <= j < i ==> (#[trigger] chunks[j]).chunk_type != code
}

/// The place of the first chunk of type `code`, if there is one.
pub open spec fn first_of_type(chunks: Seq<ChunkView>, code: Seq<u8>) -> Option<int> {
    if exists|i: int| is_first_of_type(chunks, code, i) {
        Some(choose|i: int| is_first_of_type(chunks, code, i))
    } else {
        None
    }
}

/// The sequence without its first chunk of type `code`; without such a
/// chunk there is nothing to remove.
pub open spec fn remove_type(chunks: Seq<ChunkView>, code: Seq<u8>) -> Result<
    Seq<ChunkView>,
    Error,
> {
    match first_of_type(chunks, code) {
        Some(i) => Ok(chunks.remove(i)),
        None => Err(Error::NotFound),
    }
}

/// The chunks that are not public, in their order.
pub open spec fn private_of(chunks: Seq<ChunkView>) -> Seq<ChunkView> {
    chunks.filter(|c: ChunkView| !is_upper(c.chunk_type[1]))
}

/// The views of a sequence of borrowed chunks.
pub open spec fn borrowed_views(chunks: Seq<&Chunk>) -> Seq<ChunkView> {
    chunks.map_values(|c: &Chunk| c@)
}

/// The views of a sequence of chunks.
pub open spec fn chunk_views(chunks: Seq<Chunk>) -> Seq<ChunkView> {
    chunks.map_values(|c: Chunk| c@)
}

/// Whether the buffer starts with the eight bytes of the PNG signature.
fn starts_with_signature(bytes: &[u8]) -> (r: bool)
    ensures
        r == has_signature(bytes@),
{
    if bytes.len() < 8 {
        return false;
    }
    let r = bytes[0] == 0x89 && bytes[1] == 0x50 && bytes[2] == 0x4E && bytes[3] == 0x47
        && bytes[4] == 0x0D && bytes[5] == 0x0A && bytes[6] == 0x1A && bytes[7] == 0x0A;
    proof {
        let head = bytes@.subrange(0, 8);
        if r {
            assert(head =~= signature());
        } else {
            assert(head[0] == bytes[0] && head[1] == bytes[1] && head[2] == bytes[2] && head[3]
                == bytes[3] && head[4] == bytes[4] && head[5] == bytes[5] && head[6] == bytes[6]
                && head[7] == bytes[7]);
        }
    }
    r
}

/// A PNG image as an ordered sequence of chunks. Its view is the sequence
/// of the chunks' views.
#[derive(Debug)]
pub struct Png {
    chunks: Vec<Chunk>,
}

impl View for Png {
    type V = Seq<ChunkView>;

    closed spec fn view(&self) -> Seq<ChunkView> {
        chunk_views(self.chunks@)
    }
}

impl Png {
    /// Every chunk of the image is well-formed.
    #[verifier::type_invariant]
    pub closed spec fn wf(self) -> bool {
        forall|i: int| 0 <= i < self.chunks@.len() ==> (#[trigger] self.chunks@[i]).wf()
    }

    /// The view of a well-formed image holds well-formed chunks only.
    pub proof fn lemma_wf_view(self)
        requires
            self.wf(),
        ensures
            all_wf(self@),
    {
        assert forall|i: int| 0 <= i < self@.len() implies (#[trigger] self@[i]).wf() by {
            self.chunks@[i].lemma_wf_view();
        }
    }

    /// An image without chunks.
    pub fn new() -> (p: Png)
        ensures
            p@ == Seq::<ChunkView>::empty(),
    {
        let p = Png { chunks: Vec::new() };
        assert(p@ =~= Seq::<ChunkView>::empty());
        p
    }

    /// The chunks, in order.
    pub fn chunks(&self) -> (r: &[Chunk])
        ensures
            chunk_views(r@) == self@,
    {
        self.chunks.as_slice()
    }

    /// Puts `chunk` behind the chunks that are there.
    pub fn append_chunk(&mut self, chunk: Chunk)
        ensures
            final(self)@ == old(self)@.push(chunk@),
    {
        proof {
            use_type_invariant(&*self);
            use_type_invariant(&chunk);
        }
        let mut chunks: Vec<Chunk> = Vec::new();
        std::mem::swap(&mut self.chunks, &mut chunks);
        chunks.push(chunk);
        self.chunks = chunks;
        assert(self@ =~= old(self)@.push(chunk@));
    }

    /// Removes the first chunk whose type is spelled by `chunk_type` and
    /// keeps the others in their order. The text must spell a type code, and
    /// a chunk of that type must be there; otherwise the image is left as
    /// it was.
    pub fn remove_chunk(&mut self, chunk_type: &str) -> (r: Result<(), Error>)
        ensures
            !is_type_text(chunk_type@) ==> r == Err::<(), Error>(Error::InvalidFormat),
            !is_type_text(chunk_type@) ==> final(self)@ == old(self)@,
            is_type_text(chunk_type@) ==> match remove_type(
                old(self)@,
                text_codes(chunk_type@),
            ) {
                Ok(rest) => r == Ok::<(), Error>(()) && final(self)@ == rest,
                Err(e) => r == Err::<(), Error>(e) && final(self)@ == old(self)@,
            },
    {
        let wanted = match ChunkType::from_text(chunk_type) {
            Ok(t) => t,
            Err(e) => {
                return Err(e);
            },
        };
        proof {
            use_type_invariant(&*self);
        }
        let mut i: usize = 0;
        while i < self.chunks.len()
            invariant
                i <= self.chunks@.len(),
                *self == *old(self),
                self.wf(),
                is_type_text(chunk_type@),
                wanted@ == text_codes(chunk_type@),
                forall|j: int| 0 <= j < i ==> (#[trigger] self@[j]).chunk_type != wanted@,
            decreases self.chunks@.len() - i,
        {
            if *self.chunks[i].chunk_type() == wanted {
                proof {
                    assert(self@[i as int].chunk_type == wanted@);
                    assert(is_first_of_type(self@, wanted@, i as int));
                    lemma_first_of_type(self@, wanted@, i as int);
                }
                let mut chunks: Vec<Chunk> = Vec::new();
                std::mem::swap(&mut self.chunks, &mut chunks);
                chunks.remove(i);
                self.chunks = chunks;
                assert(self@ =~= old(self)@.remove(i as int));
                return Ok(());
            }
            i += 1;
        }
        proof {
            assert forall|k: int| !is_first_of_type(self@, wanted@, k) by {
                if 0 <= k < self@.len() {
                    assert(self@[k].chunk_type != wanted@);
                }
            }
        }
        Err(Error::NotFound)
    }

    /// The first chunk of the given type, if there is one.
    pub fn chunk_by_type(&self, chunk_type: &ChunkType) -> (r: Result<&Chunk, Error>)
        ensures
            match first_of_type(self@, chunk_type@) {
                Some(i) => r is Ok && r->Ok_0@ == self@[i],
                None => r == Err::<&Chunk, Error>(Error::NotFound),
            },
    {
        let mut i: usize = 0;
        while i < self.chunks.len()
            invariant
                i <= self.chunks@.len(),
                forall|j: int| 0 <= j < i ==> (#[trigger] self@[j]).chunk_type != chunk_type@,
            decreases self.chunks@.len() - i,
        {
            if *self.chunks[i].chunk_type() == *chunk_type {
                proof {
                    assert(self@[i as int].chunk_type == chunk_type@);
                    assert(is_first_of_type(self@, chunk_type@, i as int));
                    lemma_first_of_type(self@, chunk_type@, i as int);
                }
                return Ok(&self.chunks[i]);
            }
            i += 1;
        }
        proof {
            assert forall|k: int| !is_first_of_type(self@, chunk_type@, k) by {
                if 0 <= k < self@.len() {
                    assert(self@[k].chunk_type != chunk_type@);
                }
            }
        }
        Err(Error::NotFound)
    }

    /// The chunks whose type is not public, in their order.
    pub fn private_chunks(&self) -> (r: Vec<&Chunk>)
        ensures
            borrowed_views(r@) == private_of(self@),
    {
        let mut found: Vec<&Chunk> = Vec::new();
        assert(self@.subrange(0, 0) == Seq::<ChunkView>::empty());
        assert(borrowed_views(found@) == Seq::<ChunkView>::empty());
        let mut i: usize = 0;
        while i < self.chunks.len()
            invariant
                i <= self.chunks@.len(),
                borrowed_views(found@) == private_of(self@.subrange(0, i as int)),
            decreases self.chunks@.len() - i,
        {
            let chunk = &self.chunks[i];
            proof {
                reveal(Seq::filter);
                let now = self@.subrange(0, i + 1);
                assert(now.drop_last() == self@.subrange(0, i as int));
                assert(now.last() == chunk@);
                assert(borrowed_views(found@.push(chunk)) == borrowed_views(found@).push(chunk@));
            }
            if !chunk.chunk_type().is_public() {
                found.push(chunk);
            }
            i += 1;
        }
        assert(self@.subrange(0, i as int) == self@);
        found
    }

    /// The image as a PNG file: the signature, then each chunk's record.
    pub fn as_bytes(&self) -> (out: Vec<u8>)
        ensures
            out@ == png_wire(self@),
    {
        let mut out: Vec<u8> = Vec::new();
        out.push(0x89);
        out.push(0x50);
        out.push(0x4E);
        out.push(0x47);
        out.push(0x0D);
        out.push(0x0A);
        out.push(0x1A);
        out.push(0x0A);
        assert(out@ == signature());
        assert(self@.subrange(0, 0) == Seq::<ChunkView>::empty());
        let mut i: usize = 0;
        while i < self.chunks.len()
            invariant
                i <= self.chunks@.len(),
                out@ == signature() + chunks_wire(self@.subrange(0, i as int)),
            decreases self.chunks@.len() - i,
        {
            let mut record = self.chunks[i].as_bytes();
            proof {
                let before = self@.subrange(0, i as int);
                let now = self@.subrange(0, i + 1);
                assert(now.drop_last() == before);
                assert(now.last() == self@[i as int]);
                assert(signature() + (chunks_wire(before) + record@) == (signature() + chunks_wire(
                    before,
                )) + record@);
            }
            out.append(&mut record);
            i += 1;
        }
        assert(self@.subrange(0, i as int) == self@);
        out
    }

    /// Reads a PNG file: the signature, then chunk records up to the last
    /// byte of the buffer. A buffer that does not start with the signature,
    /// be it too short to hold one, is no PNG file whatever else it holds;
    /// after the signature, the first record that cannot be read decides
    /// the error.
    pub fn decode(bytes: &[u8]) -> (r: Result<Png, Error>)
        ensures
            match r {
                Ok(p) => decode_png(bytes@) == Ok::<Seq<ChunkView>, Error>(p@),
                Err(e) => decode_png(bytes@) == Err::<Seq<ChunkView>, Error>(e),
            },
            !has_signature(bytes@) ==> r == Err::<Png, Error>(Error::InvalidFormat),
    {
        if !starts_with_signature(bytes) {
            return Err(Error::InvalidFormat);
        }
        let ghost body = bytes@.subrange(8, bytes@.len() as int);
        let mut chunks: Vec<Chunk> = Vec::new();
        let mut offset: usize = 8;
        assert(bytes@.subrange(offset as int, bytes@.len() as int) == body);
        assert(chunk_views(chunks@) =~= Seq::<ChunkView>::empty());
        while offset < bytes.len()
            invariant
                8 <= offset <= bytes@.len(),
                has_signature(bytes@),
                body == bytes@.subrange(8, bytes@.len() as int),
                forall|i: int| 0 <= i < chunks@.len() ==> (#[trigger] chunks@[i]).wf(),
                decode_chunks(body) == after(
                    chunk_views(chunks@),
                    decode_chunks(bytes@.subrange(offset as int, bytes@.len() as int)),
                ),
            decreases bytes@.len() - offset,
        {
            let rest = slice_subrange(bytes, offset, bytes.len());
            let chunk = match Chunk::decode(rest) {
                Ok(c) => c,
                Err(e) => {
                    return Err(e);
                },
            };
            proof {
                use_type_invariant(&chunk);
            }
            let used = chunk.length() as usize + 12;
            proof {
                let tail = bytes@.subrange(offset + used, bytes@.len() as int);
                assert(rest@.subrange(used as int, rest@.len() as int) == tail);
                assert(decode_chunks(rest@) == after(seq![chunk@], decode_chunks(tail)));
                assert(chunk_views(chunks@.push(chunk)) == chunk_views(chunks@) + seq![chunk@]);
                if let Ok(more) = decode_chunks(tail) {
                    assert(chunk_views(chunks@) + (seq![chunk@] + more) == (chunk_views(chunks@)
                        + seq![chunk@]) + more);
                }
            }
            offset = offset + used;
            chunks.push(chunk);
        }
        assert(bytes@.subrange(offset as int, bytes@.len() as int) == Seq::<u8>::empty());
        let p = Png { chunks };
        assert(p@ == chunk_views(chunks@) + Seq::<ChunkView>::empty());
        Ok(p)
    }
}

impl TryFrom<&[u8]> for Png {
    type Error = Error;

    fn try_from(value: &[u8]) -> (r: Result<Png, Error>)
        ensures
            match r {
                Ok(p) => decode_png(value@) == Ok::<Seq<ChunkView>, Error>(p@),
                Err(e) => decode_png(value@) == Err::<Seq<ChunkView>, Error>(e),
            },
    {
        Png::decode(value)
    }
}

/// What `try_from` gives is stated by its own `ensures`, over the image's
/// view: no spec function builds a `Png`.
impl vstd::std_specs::convert::TryFromSpecImpl<&[u8]> for Png {
    open spec fn obeys_try_from_spec() -> bool {
        false
    }

    open spec fn try_from_spec(value: &[u8]) -> Result<Png, Error> {
        Err(Error::InvalidFormat)
    }
}

/// The first chunk of a type stands at one place only.
pub proof fn lemma_first_of_type(chunks: Seq<ChunkView>, code: Seq<u8>, i: int)
    requires
        is_first_of_type(chunks, code, i),
    ensures
        first_of_type(chunks, code) == Some(i),
{
    let k = choose|k: int| is_first_of_type(chunks, code, k);
    if k < i {
        assert(chunks[k].chunk_type != code);
    } else if i < k {
        assert(chunks[i].chunk_type != code);
    }
}

/// The records of a sequence that starts with `c` are the record of `c`
/// followed by the records of the rest.
pub proof fn lemma_chunks_wire_front(c: ChunkView, rest: Seq<ChunkView>)
    ensures
        chunks_wire(seq![c] + rest) == c.wire() + chunks_wire(rest),
    decreases rest.len(),
{
    let all = seq![c] + rest;
    if rest.len() == 0 {
        assert(all.drop_last() == Seq::<ChunkView>::empty());
        assert(chunks_wire(all.drop_last()) == Seq::<u8>::empty());
        assert(chunks_wire(all) == Seq::<u8>::empty() + c.wire());
        assert(chunks_wire(all) == c.wire() + Seq::<u8>::empty());
    } else {
        assert(all.drop_last() == seq![c] + rest.drop_last());
        assert(all.last() == rest.last());
        lemma_chunks_wire_front(c, rest.drop_last());
        assert((c.wire() + chunks_wire(rest.drop_last())) + rest.last().wire() == c.wire() + (
        chunks_wire(rest.drop_last()) + rest.last().wire()));
    }
}

/// Reading the records of a sequence of chunks gives the sequence back.
pub proof fn lemma_decode_chunks_wire(chunks: Seq<ChunkView>)
    requires
        all_wf(chunks),
    ensures
        decode_chunks(chunks_wire(chunks)) == Ok::<Seq<ChunkView>, Error>(chunks),
    decreases chunks.len(),
{
    if chunks.len() == 0 {
        assert(chunks == Seq::<ChunkView>::empty());
    } else {
        let c = chunks[0];
        let rest = chunks.drop_first();
        let bytes = c.wire() + chunks_wire(rest);
        assert(chunks == seq![c] + rest);
        assert(c.wf());
        assert(all_wf(rest)) by {
            assert forall|i: int| 0 <= i < rest.len() implies (#[trigger] rest[i]).wf() by {
                assert(rest[i] == chunks[i + 1]);
            }
        }
        assert(chunks_wire(chunks) == bytes) by {
            lemma_chunks_wire_front(c, rest);
        }
        assert(decode_chunk(bytes) == Ok::<ChunkView, Error>(c)) by {
            lemma_decode_wire_then(c, chunks_wire(rest));
        }
        let used = c.data.len() as int + 12;
        assert(bytes.len() >= used && bytes.subrange(used, bytes.len() as int) == chunks_wire(
            rest,
        )) by {
            lemma_wire_len(c);
        }
        lemma_decode_chunks_wire(rest);
        assert(decode_chunks(bytes) == after(
            seq![c],
            decode_chunks(bytes.subrange(used, bytes.len() as int)),
        ));
    }
}

/// A buffer that holds chunk records from end to end is the records of the
/// chunks that are read from it, and these are well-formed.
pub proof fn lemma_chunks_wire_decode(bytes: Seq<u8>)
    requires
        decode_chunks(bytes) is Ok,
    ensures
        all_wf(decode_chunks(bytes)->Ok_0),
        chunks_wire(decode_chunks(bytes)->Ok_0) == bytes,
    decreases bytes.len(),
{
    if bytes.len() > 0 {
        let c = decode_chunk(bytes)->Ok_0;
        let used = c.data.len() as int + 12;
        let tail = bytes.subrange(used, bytes.len() as int);
        let more = decode_chunks(tail)->Ok_0;
        lemma_wire_decoded(bytes);
        lemma_chunks_wire_decode(tail);
        lemma_chunks_wire_front(c, more);
        assert(bytes.subrange(0, used) + tail == bytes);
    }
}

/// Reading a PNG file that was written from well-formed chunks gives the
/// same chunks in the same order.
pub proof fn lemma_decode_png_wire(chunks: Seq<ChunkView>)
    requires
        all_wf(chunks),
    ensures
        decode_png(png_wire(chunks)) == Ok::<Seq<ChunkView>, Error>(chunks),
{
    let bytes = png_wire(chunks);
    assert(bytes.subrange(0, 8) == signature());
    assert(bytes.subrange(8, bytes.len() as int) == chunks_wire(chunks));
    lemma_decode_chunks_wire(chunks);
}

/// Writing the chunks that were read from a PNG file gives the file back,
/// byte for byte.
pub proof fn lemma_png_wire_decode(bytes: Seq<u8>)
    requires
        decode_png(bytes) is Ok,
    ensures
        all_wf(decode_png(bytes)->Ok_0),
        png_wire(decode_png(bytes)->Ok_0) == bytes,
{
    let body = bytes.subrange(8, bytes.len() as int);
    lemma_chunks_wire_decode(body);
    assert(bytes.subrange(0, 8) + body == bytes);
}

/// A buffer decodes to a sequence of chunks exactly when the chunks are
/// well-formed and the buffer is the PNG file written from them.
pub proof fn lemma_decode_png_ok_iff(bytes: Seq<u8>, chunks: Seq<ChunkView>)
    ensures
        decode_png(bytes) == Ok::<Seq<ChunkView>, Error>(chunks) <==> all_wf(chunks) && bytes
            == png_wire(chunks),
{
    if decode_png(bytes) == Ok::<Seq<ChunkView>, Error>(chunks) {
        lemma_png_wire_decode(bytes);
    }
    if all_wf(chunks) && bytes == png_wire(chunks) {
        lemma_decode_png_wire(chunks);
    }
}

/// A chunk that is appended and then removed by its type leaves the
/// sequence as it was, if no chunk of that type was there before.
pub proof fn lemma_append_then_remove(chunks: Seq<ChunkView>, c: ChunkView)
    requires
        first_of_type(chunks, c.chunk_type) is None,
    ensures
        remove_type(chunks.push(c), c.chunk_type) == Ok::<Seq<ChunkView>, Error>(chunks),
{
    let all = chunks.push(c);
    let n = chunks.len() as int;
    assert forall|j: int| 0 <= j < n implies (#[trigger] all[j]).chunk_type != c.chunk_type by {
        lemma_none_of_type(chunks, c.chunk_type, j);
    }
    assert(is_first_of_type(all, c.chunk_type, n));
    lemma_first_of_type(all, c.chunk_type, n);
    assert(all.remove(n) == chunks);
}

/// Where an earlier chunk has the type of the appended one, removing by
/// that type takes the earlier chunk out and leaves the appended one last.
pub proof fn lemma_append_then_remove_earlier(chunks: Seq<ChunkView>, c: ChunkView, i: int)
    requires
        first_of_type(chunks, c.chunk_type) == Some(i),
    ensures
        remove_type(chunks.push(c), c.chunk_type) == Ok::<Seq<ChunkView>, Error>(
            chunks.remove(i).push(c),
        ),
{
    let all = chunks.push(c);
    assert(is_first_of_type(chunks, c.chunk_type, i));
    assert(is_first_of_type(all, c.chunk_type, i)) by {
        assert(all[i] == chunks[i]);
        assert forall|j: int| 0 <= j < i implies (#[trigger] all[j]).chunk_type
            != c.chunk_type by {
            assert(all[j] == chunks[j]);
        }
    }
    lemma_first_of_type(all, c.chunk_type, i);
    assert(all.remove(i) == chunks.remove(i).push(c));
}

/// Without a first chunk of a type there is no chunk of that type.
pub proof fn lemma_none_of_type(chunks: Seq<ChunkView>, code: Seq<u8>, j: int)
    requires
        first_of_type(chunks, code) is None,
        0 <= j < chunks.len(),
    ensures
        chunks[j].chunk_type != code,
    decreases j,
{
    if chunks[j].chunk_type == code {
        if forall|k: int| 0 <= k < j ==> (#[trigger] chunks[k]).chunk_type != code {
            assert(is_first_of_type(chunks, code, j));
        } else {
            let k = choose|k: int| 0 <= k < j && (#[trigger] chunks[k]).chunk_type == code;
            lemma_none_of_type(chunks, code, k);
        }
    }
}

} // verus!
