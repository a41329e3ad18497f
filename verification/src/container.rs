//! The container: the signature, then chunks from the header chunk to the
//! trailer chunk.
//!
//! Parsing checks the signature once, reads the header chunk, and then
//! reads chunks up to and including the first trailer chunk. Bytes behind
//! the trailer are not read. Reassembly writes the signature and every
//! chunk back, so that a parsed container reassembles to the bytes it was
//! parsed from, up to the end of its trailer.

use crate::chunk::{
    chunk_at, lemma_read_chunk_bounds, lemma_read_chunk_is_written, lemma_read_written_chunk,
    read_chunk, write_chunk, ChunkRecord, ChunkView,
};
use crate::chunk_type::{ChunkType, IEND, IHDR};
use crate::error::PngError;
use crate::header::{header_result, parse_ihdr, IHDRData};
use vstd::prelude::*;

verus! {

/// The eight bytes with which every container begins.
pub const PNG_MAGIC: [u8; 8] = [0x89, 0x50, 0x4E, 0x47, 0x0D, 0x0A, 0x1A, 0x0A];

/// A parsed container: the decoded header fields and every chunk in stream
/// order, the header chunk first and the trailer chunk last.
#[derive(Debug, PartialEq, Eq)]
pub struct PngContainer {
    pub header: IHDRData,
    pub chunks: Vec<ChunkRecord>,
}

/// What a container is to the contracts.
pub struct ContainerView {
    pub header: IHDRData,
    pub chunks: Seq<ChunkView>,
}

/// The views of a sequence of records.
pub open spec fn chunk_views(records: Seq<ChunkRecord>) -> Seq<ChunkView> {
    records.map_values(|r: ChunkRecord| r@)
}

impl View for PngContainer {
    type V = ContainerView;

    open spec fn view(&self) -> ContainerView {
        ContainerView { header: self.header, chunks: chunk_views(self.chunks@) }
    }
}

/// The chunks of `chunks` as they stand in a stream, one behind the other.
pub open spec fn chunks_bytes(chunks: Seq<ChunkView>) -> Seq<u8>
    decreases chunks.len(),
{
    if chunks.len() == 0 {
        Seq::empty()
    } else {
        chunks[0].bytes() + chunks_bytes(chunks.drop_first())
    }
}

/// Every chunk can be framed.
pub open spec fn all_framable(chunks: Seq<ChunkView>) -> bool {
    forall|i: int| 0 <= i < chunks.len() ==> (#[trigger] chunks[i]).wf()
}

/// The last chunk is the trailer and no chunk before it is.
pub open spec fn ends_at_trailer(chunks: Seq<ChunkView>) -> bool {
    &&& chunks.len() >= 1
    &&& chunks.last().code == IEND@
    &&& forall|i: int| 0 <= i < chunks.len() - 1 ==> (#[trigger] chunks[i]).code != IEND@
}

impl ContainerView {
    /// A container is well formed when every chunk can be framed, the first
    /// chunk is the header chunk and decodes to the header fields, and the
    /// chunks end at the first trailer chunk.
    pub open spec fn wf(self) -> bool {
        &&& all_framable(self.chunks)
        &&& ends_at_trailer(self.chunks)
        &&& self.chunks[0].code == IHDR@
        &&& header_result(self.chunks[0].data) == Ok::<IHDRData, PngError>(self.header)
    }

    /// The container as a byte stream: the signature, then the chunks.
    pub open spec fn bytes(self) -> Seq<u8> {
        PNG_MAGIC@ + chunks_bytes(self.chunks)
    }
}

/// Whether the stream begins with the exact signature.
pub open spec fn has_signature(s: Seq<u8>) -> bool {
    s.len() >= 8 && s.subrange(0, 8) == PNG_MAGIC@
}

/// The chunks from `pos` up to and including the first trailer chunk, or
/// the error of the first chunk that does not read.
pub open spec fn chunks_from(s: Seq<u8>, pos: int) -> Result<Seq<ChunkView>, PngError>
    decreases s.len() - pos,
    via chunks_from_terminates
{
    match chunk_at(s, pos) {
        Err(e) => Err(e),
        Ok((chunk, next)) => if chunk.code == IEND@ {
            Ok(seq![chunk])
        } else {
            prepend(seq![chunk], chunks_from(s, next))
        },
    }
}

#[via_fn]
proof fn chunks_from_terminates(s: Seq<u8>, pos: int) {
    if chunk_at(s, pos) is Ok {
        lemma_read_chunk_bounds(s, pos);
    }
}

/// `acc` in front of what `r` yields.
pub open spec fn prepend(acc: Seq<ChunkView>, r: Result<Seq<ChunkView>, PngError>) -> Result<
    Seq<ChunkView>,
    PngError,
> {
    match r {
        Err(e) => Err(e),
        Ok(rest) => Ok(acc + rest),
    }
}

/// The container of `header` and the chunks that `r` yields.
pub open spec fn with_header(header: IHDRData, r: Result<Seq<ChunkView>, PngError>) -> Result<
    ContainerView,
    PngError,
> {
    match r {
        Err(e) => Err(e),
        Ok(chunks) => Ok(ContainerView { header, chunks }),
    }
}

/// What parsing a stream yields.
///
/// `InvalidSignature` when the stream does not begin with the signature;
/// the error of the first chunk when it does not read; `MalformedHeader`
/// when the first chunk is not the header chunk (it then supplies no header
/// bytes) or holds fewer than thirteen bytes; else the error of the first
/// later chunk that does not read, a stream that ends before a trailer
/// chunk being truncated; else the container.
pub open spec fn parse_result(s: Seq<u8>) -> Result<ContainerView, PngError> {
    if !has_signature(s) {
        Err(PngError::InvalidSignature)
    } else {
        match chunk_at(s, 8) {
            Err(e) => Err(e),
            Ok((first, next)) => if first.code != IHDR@ {
                Err(PngError::MalformedHeader { available: 0 })
            } else {
                match header_result(first.data) {
                    Err(e) => Err(e),
                    Ok(header) => with_header(
                        header,
                        prepend(seq![first], chunks_from(s, next)),
                    ),
                }
            },
        }
    }
}

/// Checks that the stream begins with the eight signature bytes.
pub fn check_signature(stream: &[u8]) -> (r: Result<(), PngError>)
    ensures
        r is Ok <==> has_signature(stream@),
        r is Err ==> r == Err::<(), PngError>(PngError::InvalidSignature),
{
    if stream.len() < 8 {
        return Err(PngError::InvalidSignature);
    }
    let mut i: usize = 0;
    while i < 8
        invariant
            i <= 8 <= stream@.len(),
            forall|j: int| 0 <= j < i ==> stream@[j] == PNG_MAGIC@[j],
        decreases 8 - i,
    {
        if stream[i] != PNG_MAGIC[i] {
            assert(stream@.subrange(0, 8)[i as int] != PNG_MAGIC@[i as int]);
            return Err(PngError::InvalidSignature);
        }
        i = i + 1;
    }
    assert(stream@.subrange(0, 8) =~= PNG_MAGIC@);
    Ok(())
}

/// Parses a whole container from its bytes.
pub fn parse_container(file_bytes: &[u8]) -> (r: Result<PngContainer, PngError>)
    ensures
        match r {
            Ok(c) => parse_result(file_bytes@) == Ok::<ContainerView, PngError>(c@) && c@.wf(),
            Err(e) => parse_result(file_bytes@) == Err::<ContainerView, PngError>(e),
        },
{
    let ghost s = file_bytes@;
    match check_signature(file_bytes) {
        Err(e) => {
            return Err(e);
        },
        Ok(_) => {},
    }
    let (first, start) = match read_chunk(file_bytes, 8) {
        Err(e) => {
            return Err(e);
        },
        Ok(pair) => pair,
    };
    if first.chunk_type != ChunkType(IHDR) {
        return Err(PngError::MalformedHeader { available: 0 });
    }
    let header = match parse_ihdr(first.data.as_slice()) {
        Err(e) => {
            return Err(e);
        },
        Ok(h) => h,
    };
    let ghost first_view = first@;
    let mut chunks: Vec<ChunkRecord> = Vec::new();
    chunks.push(first);
    let mut pos = start;
    let ghost mut acc = seq![first_view];
    proof {
        lemma_read_chunk_bounds(s, 8);
        assert(chunk_views(chunks@) =~= acc);
        lemma_prepend_nothing(acc, chunks_from(s, start as int));
        assert(IHDR@[1] != IEND@[1]);
    }
    loop
        invariant
            s == file_bytes@,
            pos <= s.len(),
            acc == chunk_views(chunks@),
            acc.len() >= 1,
            acc[0] == first_view,
            all_framable(acc),
            forall|i: int| 0 <= i < acc.len() ==> (#[trigger] acc[i]).code != IEND@,
            first_view.code == IHDR@,
            header_result(first_view.data) == Ok::<IHDRData, PngError>(header),
            parse_result(s) == with_header(header, prepend(acc, chunks_from(s, pos as int))),
        decreases s.len() - pos,
    {
        match read_chunk(file_bytes, pos) {
            Err(e) => {
                return Err(e);
            },
            Ok((record, next)) => {
                let is_trailer = record.chunk_type == ChunkType(IEND);
                let ghost view = record@;
                chunks.push(record);
                proof {
                    lemma_read_chunk_bounds(s, pos as int);
                    assert(chunk_views(chunks@) =~= acc.push(view));
                    lemma_prepend_step(acc, view, chunks_from(s, next as int));
                    lemma_push_keeps_shape(acc, view);
                    acc = acc.push(view);
                }
                if is_trailer {
                    return Ok(PngContainer { header, chunks });
                }
                pos = next;
            },
        }
    }
}

/// Putting `acc` in front of nothing more than `r` is `r` behind `acc`.
proof fn lemma_prepend_nothing(acc: Seq<ChunkView>, r: Result<Seq<ChunkView>, PngError>)
    ensures
        prepend(acc, r) == prepend(acc, prepend(Seq::empty(), r)),
{
    if r is Ok {
        assert(Seq::<ChunkView>::empty() + r->Ok_0 =~= r->Ok_0);
    }
}

/// One more chunk moves from the unread part to the chunks read so far.
proof fn lemma_prepend_step(
    acc: Seq<ChunkView>,
    chunk: ChunkView,
    r: Result<Seq<ChunkView>, PngError>,
)
    ensures
        prepend(acc, prepend(seq![chunk], r)) == prepend(acc.push(chunk), r),
        prepend(acc, Ok(seq![chunk])) == Ok::<Seq<ChunkView>, PngError>(acc.push(chunk)),
{
    assert(acc + seq![chunk] =~= acc.push(chunk));
    if r is Ok {
        assert(acc + (seq![chunk] + r->Ok_0) =~= acc.push(chunk) + r->Ok_0);
    }
}

/// A framable chunk behind framable chunks without a trailer: all are
/// framable, and they end at the trailer when the new chunk is one.
proof fn lemma_push_keeps_shape(acc: Seq<ChunkView>, chunk: ChunkView)
    requires
        all_framable(acc),
        chunk.wf(),
        forall|i: int| 0 <= i < acc.len() ==> (#[trigger] acc[i]).code != IEND@,
    ensures
        all_framable(acc.push(chunk)),
        chunk.code == IEND@ ==> ends_at_trailer(acc.push(chunk)),
        chunk.code != IEND@ ==> forall|i: int|
            0 <= i < acc.push(chunk).len() ==> (#[trigger] acc.push(chunk)[i]).code != IEND@,
{
    let all = acc.push(chunk);
    assert forall|i: int| 0 <= i < all.len() implies (#[trigger] all[i]).wf() by {
        if i < acc.len() {
            assert(all[i] == acc[i]);
        }
    }
    assert forall|i: int| 0 <= i < all.len() - 1 implies (#[trigger] all[i]).code != IEND@ by {
        assert(all[i] == acc[i]);
    }
}

/// Writes the container back as a byte stream.
pub fn reassemble_container(container: &PngContainer) -> (out: Vec<u8>)
    requires
        all_framable(container@.chunks),
    ensures
        out@ == container@.bytes(),
{
    let mut out: Vec<u8> = Vec::new();
    let mut k: usize = 0;
    while k < 8
        invariant
            k <= 8,
            out@ == PNG_MAGIC@.take(k as int),
        decreases 8 - k,
    {
        out.push(PNG_MAGIC[k]);
        assert(out@ =~= PNG_MAGIC@.take(k + 1));
        k = k + 1;
    }
    assert(out@ =~= PNG_MAGIC@);
    let ghost views = container@.chunks;
    let mut i: usize = 0;
    while i < container.chunks.len()
        invariant
            i <= container.chunks@.len(),
            views == container@.chunks,
            all_framable(views),
            out@ == PNG_MAGIC@ + chunks_bytes(views.take(i as int)),
        decreases container.chunks@.len() - i,
    {
        proof {
            assert(views[i as int].wf());
            lemma_chunks_bytes_push(views.take(i as int), views[i as int]);
            assert(views.take(i as int).push(views[i as int]) =~= views.take(i + 1));
        }
        write_chunk(&mut out, &container.chunks[i]);
        i = i + 1;
    }
    assert(views.take(i as int) =~= views);
    out
}

/// The chunks that a read yields are framable and end at the first trailer.
pub proof fn lemma_chunks_from_shape(s: Seq<u8>, pos: int)
    ensures
        chunks_from(s, pos) is Ok ==> all_framable(chunks_from(s, pos)->Ok_0) && ends_at_trailer(
            chunks_from(s, pos)->Ok_0,
        ),
    decreases s.len() - pos,
{
    if chunk_at(s, pos) is Ok {
        lemma_read_chunk_bounds(s, pos);
        let (chunk, next) = chunk_at(s, pos)->Ok_0;
        if chunk.code != IEND@ {
            lemma_chunks_from_shape(s, next);
            if chunks_from(s, next) is Ok {
                let rest = chunks_from(s, next)->Ok_0;
                let all = seq![chunk] + rest;
                assert forall|i: int| 0 <= i < all.len() implies (#[trigger] all[i]).wf() by {
                    if i > 0 {
                        assert(all[i] == rest[i - 1]);
                    }
                }
                assert(all.last() == rest.last());
                assert forall|i: int| 0 <= i < all.len() - 1 implies (#[trigger] all[i]).code
                    != IEND@ by {
                    if i > 0 {
                        assert(all[i] == rest[i - 1]);
                    }
                }
            }
        }
    }
}

/// The bytes of a chunk sequence with one more chunk at its end.
pub proof fn lemma_chunks_bytes_push(chunks: Seq<ChunkView>, last: ChunkView)
    ensures
        chunks_bytes(chunks.push(last)) == chunks_bytes(chunks) + last.bytes(),
    decreases chunks.len(),
{
    if chunks.len() == 0 {
        assert(chunks.push(last).drop_first() =~= Seq::<ChunkView>::empty());
        assert(chunks_bytes(Seq::<ChunkView>::empty()) =~= Seq::<u8>::empty());
        assert(chunks_bytes(chunks.push(last)) =~= last.bytes());
        assert(chunks_bytes(chunks) + last.bytes() =~= last.bytes());
    } else {
        lemma_chunks_bytes_push(chunks.drop_first(), last);
        assert(chunks.push(last).drop_first() =~= chunks.drop_first().push(last));
        assert(chunks_bytes(chunks.push(last)) =~= chunks_bytes(chunks) + last.bytes());
    }
}

/// Chunks that were written one behind the other, ending at the first
/// trailer, read back as the same chunks, whatever stands before and
/// behind them in the stream.
pub proof fn lemma_chunks_from_written(before: Seq<u8>, chunks: Seq<ChunkView>, after: Seq<u8>)
    requires
        all_framable(chunks),
        ends_at_trailer(chunks),
    ensures
        chunks_from(before + chunks_bytes(chunks) + after, before.len() as int) == Ok::<
            Seq<ChunkView>,
            PngError,
        >(chunks),
    decreases chunks.len(),
{
    let s = before + chunks_bytes(chunks) + after;
    let first = chunks[0];
    let rest = chunks.drop_first();
    assert(first.wf());
    lemma_read_written_chunk(before, first, chunks_bytes(rest) + after);
    assert(s =~= before + first.bytes() + (chunks_bytes(rest) + after));
    if chunks.len() == 1 {
        assert(chunks =~= seq![first]);
    } else {
        assert(first.code != IEND@);
        assert(rest.last() == chunks.last());
        assert forall|i: int| 0 <= i < rest.len() implies (#[trigger] rest[i]).wf() by {
            assert(rest[i] == chunks[i + 1]);
        }
        assert forall|i: int| 0 <= i < rest.len() - 1 implies (#[trigger] rest[i]).code
            != IEND@ by {
            assert(rest[i] == chunks[i + 1]);
        }
        lemma_chunks_from_written(before + first.bytes(), rest, after);
        assert(s =~= (before + first.bytes()) + chunks_bytes(rest) + after);
        assert(chunks =~= seq![first] + rest);
    }
}

/// A container that parsing yields is well formed.
pub proof fn lemma_parsed_is_wf(s: Seq<u8>)
    requires
        parse_result(s) is Ok,
    ensures
        parse_result(s)->Ok_0.wf(),
{
    lemma_read_chunk_bounds(s, 8);
    let (first, next) = chunk_at(s, 8)->Ok_0;
    lemma_chunks_from_shape(s, next);
    let rest = chunks_from(s, next)->Ok_0;
    let all = seq![first] + rest;
    assert(all.last() == rest.last());
    assert forall|i: int| 0 <= i < all.len() implies (#[trigger] all[i]).wf() by {
        if i > 0 {
            assert(all[i] == rest[i - 1]);
        }
    }
    assert forall|i: int| 0 <= i < all.len() - 1 implies (#[trigger] all[i]).code != IEND@ by {
        if i > 0 {
            assert(all[i] == rest[i - 1]);
        } else {
            assert(IHDR@[1] != IEND@[1]);
        }
    }
}

/// Reassembly and parsing are inverse on well-formed containers: the
/// bytes of a well-formed container parse to that container.
pub proof fn lemma_parse_reassembled(c: ContainerView)
    requires
        c.wf(),
    ensures
        parse_result(c.bytes()) == Ok::<ContainerView, PngError>(c),
{
    let s = c.bytes();
    let first = c.chunks[0];
    let rest = c.chunks.drop_first();
    assert(first.wf());
    assert(IHDR@[1] != IEND@[1]);
    assert(c.chunks.len() >= 2);
    assert(s.subrange(0, 8) =~= PNG_MAGIC@);
    lemma_read_written_chunk(PNG_MAGIC@, first, chunks_bytes(rest));
    assert(s =~= PNG_MAGIC@ + first.bytes() + chunks_bytes(rest));
    assert(rest.last() == c.chunks.last());
    assert forall|i: int| 0 <= i < rest.len() implies (#[trigger] rest[i]).wf() by {
        assert(rest[i] == c.chunks[i + 1]);
    }
    assert forall|i: int| 0 <= i < rest.len() - 1 implies (#[trigger] rest[i]).code != IEND@ by {
        assert(rest[i] == c.chunks[i + 1]);
    }
    lemma_chunks_from_written(PNG_MAGIC@ + first.bytes(), rest, Seq::empty());
    assert(s =~= (PNG_MAGIC@ + first.bytes()) + chunks_bytes(rest) + Seq::<u8>::empty());
    assert(c.chunks =~= seq![first] + rest);
}

/// Chunks that read well from `pos` on occupy exactly the bytes that
/// writing them produces.
pub proof fn lemma_chunks_from_bytes(s: Seq<u8>, pos: int)
    requires
        chunks_from(s, pos) is Ok,
    ensures
        0 <= pos,
        pos + chunks_bytes(chunks_from(s, pos)->Ok_0).len() <= s.len(),
        s.subrange(pos, pos + chunks_bytes(chunks_from(s, pos)->Ok_0).len()) == chunks_bytes(
            chunks_from(s, pos)->Ok_0,
        ),
    decreases s.len() - pos,
{
    lemma_read_chunk_is_written(s, pos);
    let (chunk, next) = chunk_at(s, pos)->Ok_0;
    let chunks = chunks_from(s, pos)->Ok_0;
    assert(chunks_bytes(Seq::<ChunkView>::empty()) =~= Seq::<u8>::empty());
    if chunk.code == IEND@ {
        assert(chunks.drop_first() =~= Seq::<ChunkView>::empty());
        assert(chunks_bytes(chunks) =~= chunk.bytes());
    } else {
        lemma_chunks_from_bytes(s, next);
        let rest = chunks_from(s, next)->Ok_0;
        assert(chunks.drop_first() =~= rest);
        assert(chunks_bytes(chunks) == chunk.bytes() + chunks_bytes(rest));
        assert(s.subrange(pos, next + chunks_bytes(rest).len()) =~= s.subrange(pos, next)
            + s.subrange(next, next + chunks_bytes(rest).len()));
    }
}

/// A parsed container reassembles to the bytes it was parsed from: its
/// bytes are the stream up to the end of the trailer chunk.
pub proof fn lemma_reassembled_is_prefix(s: Seq<u8>)
    requires
        parse_result(s) is Ok,
    ensures
        parse_result(s)->Ok_0.bytes().len() <= s.len(),
        s.take(parse_result(s)->Ok_0.bytes().len() as int) == parse_result(s)->Ok_0.bytes(),
{
    lemma_read_chunk_is_written(s, 8);
    let (first, next) = chunk_at(s, 8)->Ok_0;
    lemma_chunks_from_bytes(s, next);
    let rest = chunks_from(s, next)->Ok_0;
    let chunks = seq![first] + rest;
    assert(chunks.drop_first() =~= rest);
    assert(chunks_bytes(chunks) == first.bytes() + chunks_bytes(rest));
    let end = next + chunks_bytes(rest).len();
    assert(s.take(end) =~= s.subrange(0, 8) + s.subrange(8, next) + s.subrange(next, end));
}

/// A pass that changes nothing changes nothing: whatever container a
/// stream parses to, the reassembled bytes of that container parse to the
/// same container, with the same chunk sequence and header fields.
pub proof fn lemma_round_trip(s: Seq<u8>)
    requires
        parse_result(s) is Ok,
    ensures
        parse_result(parse_result(s)->Ok_0.bytes()) == parse_result(s),
{
    lemma_parsed_is_wf(s);
    lemma_parse_reassembled(parse_result(s)->Ok_0);
}

} // verus!
