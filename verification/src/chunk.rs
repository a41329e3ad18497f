//! The chunk stream codec: the framing layer of the container.
//!
//! A chunk is a four-byte big-endian length, a four-byte type code, that
//! many bytes of data, and a four-byte big-endian checksum. The checksum
//! covers the type code followed by the data, never the length. The codec
//! knows nothing of what a chunk means.

use crate::checksum::{checksum_ieee, crc32_ieee};
use crate::chunk_type::ChunkType;
use crate::endian::{
    be_bytes, be_value, lemma_be_bytes_of_value, lemma_be_value_of_bytes, lemma_be_value_range,
    read_u32_be, write_u32_be,
};
use crate::error::PngError;
use vstd::prelude::*;
use vstd::slice::{slice_subrange, slice_to_vec};

verus! {

/// One record of the container: a type code and its data.
#[derive(Debug, PartialEq, Eq)]
pub struct ChunkRecord {
    pub chunk_type: ChunkType,
    pub data: Vec<u8>,
}

impl Clone for ChunkRecord {
    /// A copy with the same code and the same data.
    fn clone(&self) -> (r: Self)
        ensures
            r@ == self@,
    {
        ChunkRecord { chunk_type: self.chunk_type, data: slice_to_vec(self.data.as_slice()) }
    }
}

/// What a record is to the contracts: the four bytes of its code and the
/// bytes of its data.
pub struct ChunkView {
    pub code: Seq<u8>,
    pub data: Seq<u8>,
}

impl View for ChunkRecord {
    type V = ChunkView;

    open spec fn view(&self) -> ChunkView {
        ChunkView { code: self.chunk_type@, data: self.data@ }
    }
}

impl ChunkView {
    /// A record can be framed when its code has four bytes and the length of
    /// its data fits the four-byte length field.
    pub open spec fn wf(self) -> bool {
        self.code.len() == 4 && self.data.len() <= u32::MAX
    }

    /// The bytes that the checksum covers: the type code, then the data.
    pub open spec fn checked_bytes(self) -> Seq<u8> {
        self.code + self.data
    }

    /// The checksum that belongs to this record.
    pub open spec fn checksum(self) -> u32 {
        crc32_ieee(self.checked_bytes())
    }

    /// The record as it stands in a stream.
    pub open spec fn bytes(self) -> Seq<u8> {
        be_bytes(self.data.len() as u32) + self.code + self.data + be_bytes(self.checksum())
    }
}

/// How many bytes of `s` remain at `pos`.
pub open spec fn remaining(s: Seq<u8>, pos: int) -> int {
    if 0 <= pos <= s.len() {
        s.len() - pos
    } else {
        0
    }
}

/// The error of a read of `required` bytes at `offset` that finds too few.
pub open spec fn truncated(s: Seq<u8>, offset: int, required: int) -> PngError {
    PngError::TruncatedStream {
        offset: offset as usize,
        required: required as usize,
        available: remaining(s, offset) as usize,
    }
}

/// The four reads that frame the chunk at `pos`: length, type code, data,
/// stored checksum. The first read that finds too few bytes decides the
/// error. Success gives the record, the checksum the stream stores for it,
/// and the position just behind the chunk.
pub open spec fn frame_at(s: Seq<u8>, pos: int) -> Result<(ChunkView, u32, int), PngError> {
    let n = be_value(s.subrange(pos, pos + 4));
    if remaining(s, pos) < 4 {
        Err(truncated(s, pos, 4))
    } else if remaining(s, pos + 4) < 4 {
        Err(truncated(s, pos + 4, 4))
    } else if remaining(s, pos + 8) < n {
        Err(truncated(s, pos + 8, n))
    } else if remaining(s, pos + 8 + n) < 4 {
        Err(truncated(s, pos + 8 + n, 4))
    } else {
        Ok(
            (
                ChunkView { code: s.subrange(pos + 4, pos + 8), data: s.subrange(pos + 8, pos + 8 + n) },
                be_value(s.subrange(pos + 8 + n, pos + 12 + n)) as u32,
                pos + 12 + n,
            ),
        )
    }
}

/// The verdict on a framed chunk that starts at `offset`, given the
/// checksum `stored` in the stream and the one `computed` from the chunk.
pub open spec fn checksum_verdict(offset: int, stored: u32, computed: u32) -> Result<(), PngError> {
    if stored == computed {
        Ok(())
    } else {
        Err(PngError::ChecksumMismatch { offset: offset as usize, stored, computed })
    }
}

/// The chunk at `pos`: its frame, accepted when the stored checksum is the
/// checksum of its type code and data.
#[verifier::opaque]
pub open spec fn chunk_at(s: Seq<u8>, pos: int) -> Result<(ChunkView, int), PngError> {
    match frame_at(s, pos) {
        Err(e) => Err(e),
        Ok((chunk, stored, next)) => match checksum_verdict(pos, stored, chunk.checksum()) {
            Err(e) => Err(e),
            Ok(_) => Ok((chunk, next)),
        },
    }
}

/// Frames the chunk that starts at `pos` without judging its checksum.
///
/// Returns the record, the stored checksum and the position behind the
/// chunk, or the `TruncatedStream` error of the first read that fails.
pub fn read_frame(stream: &[u8], pos: usize) -> (r: Result<(ChunkRecord, u32, usize), PngError>)
    ensures
        match r {
            Ok((record, stored, next)) => frame_at(stream@, pos as int) == Ok::<
                (ChunkView, u32, int),
                PngError,
            >((record@, stored, next as int)),
            Err(e) => frame_at(stream@, pos as int) == Err::<(ChunkView, u32, int), PngError>(e),
        },
{
    let len = stream.len();
    if pos > len || len - pos < 4 {
        return Err(
            PngError::TruncatedStream {
                offset: pos,
                required: 4,
                available: if pos > len {
                    0
                } else {
                    len - pos
                },
            },
        );
    }
    let n: usize = read_u32_be(stream, pos) as usize;
    if len - pos - 4 < 4 {
        return Err(
            PngError::TruncatedStream { offset: pos + 4, required: 4, available: len - pos - 4 },
        );
    }
    if len - pos - 8 < n {
        return Err(
            PngError::TruncatedStream { offset: pos + 8, required: n, available: len - pos - 8 },
        );
    }
    if len - pos - 8 - n < 4 {
        return Err(
            PngError::TruncatedStream {
                offset: pos + 8 + n,
                required: 4,
                available: len - pos - 8 - n,
            },
        );
    }
    let chunk_type = ChunkType([stream[pos + 4], stream[pos + 5], stream[pos + 6], stream[pos + 7]]);
    let data = slice_to_vec(slice_subrange(stream, pos + 8, pos + 8 + n));
    let stored = read_u32_be(stream, pos + 8 + n);
    assert(chunk_type@ =~= stream@.subrange(pos + 4, pos + 8));
    Ok((ChunkRecord { chunk_type, data }, stored, pos + 12 + n))
}

/// Judges a framed chunk that starts at `offset`: accepts it when the
/// checksum stored in the stream is the one computed from the chunk.
pub fn verify_checksum(offset: usize, stored: u32, computed: u32) -> (r: Result<(), PngError>)
    ensures
        r == checksum_verdict(offset as int, stored, computed),
{
    if stored == computed {
        Ok(())
    } else {
        Err(PngError::ChecksumMismatch { offset, stored, computed })
    }
}

/// Reads the chunk that starts at `pos`.
///
/// Consumes exactly `12 + length` bytes: on success the second component is
/// the position just behind the chunk. Fails with `TruncatedStream` when one
/// of the four reads finds too few bytes, and with `ChecksumMismatch` when
/// the stored checksum is not the CRC-32 of the type code and the data.
pub fn read_chunk(stream: &[u8], pos: usize) -> (r: Result<(ChunkRecord, usize), PngError>)
    ensures
        match r {
            Ok((record, next)) => chunk_at(stream@, pos as int) == Ok::<(ChunkView, int), PngError>(
                (record@, next as int),
            ),
            Err(e) => chunk_at(stream@, pos as int) == Err::<(ChunkView, int), PngError>(e),
        },
{
    proof {
        reveal(chunk_at);
    }
    match read_frame(stream, pos) {
        Err(e) => Err(e),
        Ok((record, stored, next)) => {
            let computed = checksum_ieee(slice_subrange(stream, pos + 4, next - 4));
            assert(stream@.subrange(pos + 4, next - 4) =~= record@.checked_bytes());
            match verify_checksum(pos, stored, computed) {
                Err(e) => Err(e),
                Ok(_) => Ok((record, next)),
            }
        },
    }
}

/// Appends the record to the stream: length, type code, data, checksum.
pub fn write_chunk(stream: &mut Vec<u8>, record: &ChunkRecord)
    requires
        record@.wf(),
    ensures
        final(stream)@ == old(stream)@ + record@.bytes(),
{
    write_u32_be(stream, record.data.len() as u32);
    let body = stream.len();
    stream.push(record.chunk_type.0[0]);
    stream.push(record.chunk_type.0[1]);
    stream.push(record.chunk_type.0[2]);
    stream.push(record.chunk_type.0[3]);
    stream.extend_from_slice(record.data.as_slice());
    assert(stream@ =~= old(stream)@ + be_bytes(record.data.len() as u32) + record@.code
        + record@.data);
    let crc = checksum_ieee(slice_subrange(stream.as_slice(), body, stream.len()));
    assert(stream@.subrange(body as int, stream.len() as int) =~= record@.checked_bytes());
    write_u32_be(stream, crc);
}

/// A written record reads back unchanged, wherever it stands in a stream:
/// the read at its first byte succeeds, returns the record, and ends just
/// behind its last byte.
pub proof fn lemma_read_written_chunk(before: Seq<u8>, chunk: ChunkView, after: Seq<u8>)
    requires
        chunk.wf(),
    ensures
        chunk_at(before + chunk.bytes() + after, before.len() as int) == Ok::<
            (ChunkView, int),
            PngError,
        >((chunk, (before.len() + chunk.bytes().len()) as int)),
        chunk.bytes().len() == 12 + chunk.data.len(),
{
    reveal(chunk_at);
    let s = before + chunk.bytes() + after;
    let pos = before.len() as int;
    let n = chunk.data.len() as int;
    lemma_be_value_of_bytes(n as u32);
    lemma_be_value_of_bytes(chunk.checksum());
    assert(s.subrange(pos, pos + 4) =~= be_bytes(n as u32));
    assert(s.subrange(pos + 4, pos + 8) =~= chunk.code);
    assert(s.subrange(pos + 8, pos + 8 + n) =~= chunk.data);
    assert(s.subrange(pos + 8 + n, pos + 12 + n) =~= be_bytes(chunk.checksum()));
}

/// A record that was written and is read alone comes back unchanged.
pub proof fn lemma_write_then_read(chunk: ChunkView)
    requires
        chunk.wf(),
    ensures
        chunk_at(chunk.bytes(), 0) == Ok::<(ChunkView, int), PngError>(
            (chunk, chunk.bytes().len() as int),
        ),
{
    lemma_read_written_chunk(Seq::empty(), chunk, Seq::empty());
    assert(Seq::<u8>::empty() + chunk.bytes() + Seq::<u8>::empty() =~= chunk.bytes());
}

/// A chunk that reads well can be framed, and its read ends behind its
/// twelve framing bytes and its data, inside the stream.
pub proof fn lemma_read_chunk_bounds(s: Seq<u8>, pos: int)
    requires
        chunk_at(s, pos) is Ok,
    ensures
        ({
            let (chunk, next) = chunk_at(s, pos)->Ok_0;
            &&& chunk.wf()
            &&& 0 <= pos < next <= s.len()
            &&& next == pos + 12 + chunk.data.len()
        }),
{
    reveal(chunk_at);
    lemma_be_value_range(s.subrange(pos, pos + 4));
}

/// A chunk that reads well is the written form of the record it yields:
/// the bytes it occupied are exactly the bytes that writing it produces.
pub proof fn lemma_read_chunk_is_written(s: Seq<u8>, pos: int)
    requires
        chunk_at(s, pos) is Ok,
    ensures
        ({
            let (chunk, next) = chunk_at(s, pos)->Ok_0;
            &&& chunk.wf()
            &&& 0 <= pos < next <= s.len()
            &&& next == pos + 12 + chunk.data.len()
            &&& s.subrange(pos, next) == chunk.bytes()
        }),
{
    reveal(chunk_at);
    let (chunk, next) = chunk_at(s, pos)->Ok_0;
    let n = be_value(s.subrange(pos, pos + 4));
    lemma_be_value_range(s.subrange(pos, pos + 4));
    lemma_be_bytes_of_value(s.subrange(pos, pos + 4));
    lemma_be_bytes_of_value(s.subrange(pos + 8 + n, pos + 12 + n));
    assert(s.subrange(pos, next) =~= chunk.bytes());
}

/// Damage to the data of a written record: byte `i` of the data is replaced
/// by another value `b`. The read then yields the damaged record only if
/// the damage leaves the CRC-32 unchanged; in every other case it fails
/// with `ChecksumMismatch`, naming the checksum that was written and the
/// one that the damaged bytes give.
pub proof fn lemma_damaged_data(chunk: ChunkView, i: int, b: u8)
    requires
        chunk.wf(),
        0 <= i < chunk.data.len(),
        b != chunk.data[i],
    ensures
        ({
            let damaged = ChunkView { code: chunk.code, data: chunk.data.update(i, b) };
            let stream = chunk.bytes().update(8 + i, b);
            chunk_at(stream, 0) == if damaged.checksum() == chunk.checksum() {
                Ok::<(ChunkView, int), PngError>((damaged, stream.len() as int))
            } else {
                Err::<(ChunkView, int), PngError>(
                    PngError::ChecksumMismatch {
                        offset: 0,
                        stored: chunk.checksum(),
                        computed: damaged.checksum(),
                    },
                )
            }
        }),
{
    reveal(chunk_at);
    let damaged = ChunkView { code: chunk.code, data: chunk.data.update(i, b) };
    let s = chunk.bytes().update(8 + i, b);
    let n = chunk.data.len() as int;
    lemma_be_value_of_bytes(n as u32);
    lemma_be_value_of_bytes(chunk.checksum());
    assert(s.subrange(0, 4) =~= be_bytes(n as u32));
    assert(s.subrange(4, 8) =~= chunk.code);
    assert(s.subrange(8, 8 + n) =~= damaged.data);
    assert(s.subrange(8 + n, 12 + n) =~= be_bytes(chunk.checksum()));
}

} // verus!
