//! Whole-file embedding and extraction.
//!
//! The image data of a container is the data of its image-data chunks, one
//! behind the other. The carrier is the part of it that the header
//! declares: one channel byte for every channel of every pixel, and never
//! more than the image data holds. Embedding writes the payload bits into
//! the carrier and puts every byte back where it came from, so that all
//! chunks keep their type, their place and their length.

use crate::bits::{bits_of, bits_to_bytes, bytes_of, bytes_to_bits, lemma_bytes_of_bits};
use crate::chunk::{ChunkRecord, ChunkView};
use crate::chunk_type::{ChunkType, IDAT, IEND, IHDR};
use crate::container::{
    all_framable, chunk_views, ends_at_trailer, lemma_parse_reassembled, parse_container,
    parse_result, reassemble_container, ContainerView, PngContainer,
};
use crate::error::PngError;
use crate::header::IHDRData;
use crate::pixel::{embed, embed_result, embedded, extract, extract_result, lemma_extract_embedded};
use vstd::prelude::*;
use vstd::slice::slice_to_vec;

verus! {

/// How payload bits are laid into channel bytes.
#[derive(Clone, Copy, Debug, PartialEq, Eq, Structural)]
pub enum EncodingMethod {
    /// One payload bit in the least-significant bit of each channel byte,
    /// from the first channel byte on.
    LsbLeftRight,
    /// Several payload bits in each channel byte. No container implements
    /// this derivation.
    LsbMultiBit,
}

/// The channels of one pixel under a colour type: greyscale and palette
/// have one, greyscale with alpha two, truecolour three, truecolour with
/// alpha four. Other colour types have no layout.
pub open spec fn channels_per_pixel(color_type: u8) -> Option<int> {
    if color_type == 0 || color_type == 3 {
        Some(1)
    } else if color_type == 4 {
        Some(2)
    } else if color_type == 2 {
        Some(3)
    } else if color_type == 6 {
        Some(4)
    } else {
        None
    }
}

/// The channel bytes that the header declares: pixels times channels, for
/// samples of eight bits. Other bit depths and unknown colour types have
/// no channel bytes to speak of.
pub open spec fn declared_channels(header: IHDRData) -> Option<int> {
    match channels_per_pixel(header.color_type) {
        Some(channels) if header.bit_depth == 8 => Some(header.width * header.height * channels),
        _ => None,
    }
}

/// The data of the image-data chunks, one behind the other.
pub open spec fn image_data(chunks: Seq<ChunkView>) -> Seq<u8>
    decreases chunks.len(),
{
    if chunks.len() == 0 {
        Seq::empty()
    } else if chunks.last().code == IDAT@ {
        image_data(chunks.drop_last()) + chunks.last().data
    } else {
        image_data(chunks.drop_last())
    }
}

/// The number of channel bytes that can carry payload: what the header
/// declares, but no more than the image data holds.
pub open spec fn capacity(header: IHDRData, available: int) -> Option<int> {
    match declared_channels(header) {
        Some(declared) => Some(
            if declared < available {
                declared
            } else {
                available
            },
        ),
        None => None,
    }
}

/// Whether a method is implemented for a container with this header.
pub open spec fn method_implemented(method: EncodingMethod, header: IHDRData) -> bool {
    method == EncodingMethod::LsbLeftRight && declared_channels(header) is Some
}

/// The carrier of a container: the leading channel bytes of its image
/// data, or `UnsupportedEncodingMethod` when the method is not implemented
/// for it.
pub open spec fn carrier_of(c: ContainerView, method: EncodingMethod) -> Result<Seq<u8>, PngError> {
    if method_implemented(method, c.header) {
        Ok(
            image_data(c.chunks).take(
                capacity(c.header, image_data(c.chunks).len() as int)->Some_0,
            ),
        )
    } else {
        Err(PngError::UnsupportedEncodingMethod)
    }
}

/// Chunk data that starts at `offset` of the image data, with the bytes
/// that `pixels` covers taken from `pixels`.
pub open spec fn overlay(data: Seq<u8>, pixels: Seq<u8>, offset: int) -> Seq<u8> {
    Seq::new(
        data.len(),
        |k: int|
            if offset + k < pixels.len() {
                pixels[offset + k]
            } else {
                data[k]
            },
    )
}

/// The chunks with `pixels` written over the start of their image data.
/// Every chunk keeps its code and the length of its data; chunks that are
/// not image data are unchanged.
pub open spec fn with_image_data(chunks: Seq<ChunkView>, pixels: Seq<u8>) -> Seq<ChunkView> {
    Seq::new(
        chunks.len(),
        |i: int|
            if chunks[i].code == IDAT@ {
                ChunkView {
                    code: chunks[i].code,
                    data: overlay(chunks[i].data, pixels, image_data(chunks.take(i)).len() as int),
                }
            } else {
                chunks[i]
            },
    )
}

/// What embedding a payload into a file yields.
///
/// `UnsupportedEncodingMethod` for a method that no container implements;
/// else the error of parsing; else `UnsupportedEncodingMethod` when the
/// method is not implemented for this header; else `PayloadTooLarge` when
/// the payload has more bits than the carrier has channel bytes; else the
/// bytes of the container whose carrier holds the payload bits.
pub open spec fn embed_payload_result(
    file: Seq<u8>,
    payload: Seq<u8>,
    method: EncodingMethod,
) -> Result<Seq<u8>, PngError> {
    if method != EncodingMethod::LsbLeftRight {
        Err(PngError::UnsupportedEncodingMethod)
    } else {
        match parse_result(file) {
            Err(e) => Err(e),
            Ok(c) => match carrier_of(c, method) {
                Err(e) => Err(e),
                Ok(carrier) => if 8 * payload.len() > usize::MAX {
                    Err(
                        PngError::PayloadTooLarge {
                            required: usize::MAX,
                            capacity: carrier.len() as usize,
                        },
                    )
                } else {
                    match embed_result(carrier, bits_of(payload)) {
                        Err(e) => Err(e),
                        Ok(pixels) => Ok(
                            ContainerView {
                                header: c.header,
                                chunks: with_image_data(c.chunks, pixels),
                            }.bytes(),
                        ),
                    }
                },
            },
        }
    }
}

/// What extracting `count` payload bits from a file yields: the errors of
/// method and parsing as for embedding, `InsufficientCapacity` when `count`
/// exceeds the channel bytes of the carrier, else the bits packed into
/// bytes.
pub open spec fn extract_payload_result(
    file: Seq<u8>,
    count: int,
    method: EncodingMethod,
) -> Result<Seq<u8>, PngError> {
    if method != EncodingMethod::LsbLeftRight {
        Err(PngError::UnsupportedEncodingMethod)
    } else {
        match parse_result(file) {
            Err(e) => Err(e),
            Ok(c) => match carrier_of(c, method) {
                Err(e) => Err(e),
                Ok(carrier) => match extract_result(carrier, count) {
                    Err(e) => Err(e),
                    Ok(bits) => Ok(bytes_of(bits)),
                },
            },
        }
    }
}

/// The number of channel bytes that can carry payload, given the header
/// and the number of image data bytes; `None` when the header's bit depth
/// or colour type has no channel layout.
pub fn channel_capacity(header: &IHDRData, available: usize) -> (r: Option<usize>)
    ensures
        match r {
            Some(n) => capacity(*header, available as int) == Some(n as int),
            None => capacity(*header, available as int) is None,
        },
{
    if header.bit_depth != 8 {
        return None;
    }
    let channels: u128 = if header.color_type == 0 || header.color_type == 3 {
        1
    } else if header.color_type == 4 {
        2
    } else if header.color_type == 2 {
        3
    } else if header.color_type == 6 {
        4
    } else {
        return None;
    };
    let w = header.width as u128;
    let h = header.height as u128;
    assert(w * h <= 0xFFFF_FFFF * 0xFFFF_FFFF) by (nonlinear_arith)
        requires
            0 <= w <= 0xFFFF_FFFF,
            0 <= h <= 0xFFFF_FFFF,
    ;
    let pixels: u128 = w * h;
    let declared: u128 = pixels * channels;
    if declared < available as u128 {
        Some(declared as usize)
    } else {
        Some(available)
    }
}

/// Collects the data of the image-data chunks, in stream order.
pub fn gather_image_data(chunks: &Vec<ChunkRecord>) -> (out: Vec<u8>)
    ensures
        out@ == image_data(chunk_views(chunks@)),
{
    let ghost views = chunk_views(chunks@);
    let mut out: Vec<u8> = Vec::new();
    let mut i: usize = 0;
    while i < chunks.len()
        invariant
            i <= chunks@.len(),
            views == chunk_views(chunks@),
            out@ == image_data(views.take(i as int)),
        decreases chunks@.len() - i,
    {
        proof {
            assert(views.take(i + 1).drop_last() =~= views.take(i as int));
            assert(views.take(i + 1).last() == chunks@[i as int]@);
        }
        if chunks[i].chunk_type == ChunkType(IDAT) {
            let ghost before = out@;
            out.extend_from_slice(chunks[i].data.as_slice());
            assert(out@ =~= before + chunks@[i as int]@.data);
        }
        i = i + 1;
    }
    assert(views.take(i as int) =~= views);
    out
}

/// Builds the chunks anew with `pixels` written over the start of their
/// image data.
pub fn scatter_image_data(chunks: &Vec<ChunkRecord>, pixels: &[u8]) -> (out: Vec<ChunkRecord>)
    ensures
        chunk_views(out@) == with_image_data(chunk_views(chunks@), pixels@),
{
    let ghost views = chunk_views(chunks@);
    let ghost target = with_image_data(views, pixels@);
    let mut out: Vec<ChunkRecord> = Vec::new();
    let mut used: usize = 0;
    let mut i: usize = 0;
    while i < chunks.len()
        invariant
            i <= chunks@.len(),
            views == chunk_views(chunks@),
            target == with_image_data(views, pixels@),
            used <= pixels@.len(),
            used == vstd::math::min(
                image_data(views.take(i as int)).len() as int,
                pixels@.len() as int,
            ),
            chunk_views(out@) == target.take(i as int),
        decreases chunks@.len() - i,
    {
        let record = &chunks[i];
        let ghost offset = image_data(views.take(i as int)).len() as int;
        let ghost before = chunk_views(out@);
        proof {
            assert(views.take(i + 1).drop_last() =~= views.take(i as int));
            assert(views.take(i + 1).last() == record@);
        }
        let data = if record.chunk_type == ChunkType(IDAT) {
            let mut data: Vec<u8> = Vec::new();
            let mut k: usize = 0;
            while k < record.data.len()
                invariant
                    k <= record.data@.len(),
                    used <= pixels@.len(),
                    used == vstd::math::min(offset + k, pixels@.len() as int),
                    data@ == overlay(record.data@, pixels@, offset).take(k as int),
                decreases record.data@.len() - k,
            {
                let ghost so_far = data@;
                if used < pixels.len() {
                    data.push(pixels[used]);
                    used = used + 1;
                } else {
                    data.push(record.data[k]);
                }
                assert(data@ =~= overlay(record.data@, pixels@, offset).take(k + 1));
                k = k + 1;
            }
            assert(data@ =~= overlay(record.data@, pixels@, offset));
            data
        } else {
            slice_to_vec(record.data.as_slice())
        };
        let rebuilt = ChunkRecord { chunk_type: record.chunk_type, data };
        assert(rebuilt@ == target[i as int]);
        let ghost view = rebuilt@;
        out.push(rebuilt);
        assert(chunk_views(out@) =~= before.push(view));
        assert(before.push(view) =~= target.take(i + 1));
        i = i + 1;
    }
    assert(target.take(i as int) =~= target);
    out
}

/// Copies the carrier out of a parsed container.
pub fn carrier(container: &PngContainer, method: EncodingMethod) -> (r: Result<Vec<u8>, PngError>)
    ensures
        match r {
            Ok(pixels) => carrier_of(container@, method) == Ok::<Seq<u8>, PngError>(pixels@),
            Err(e) => carrier_of(container@, method) == Err::<Seq<u8>, PngError>(e),
        },
{
    if method != EncodingMethod::LsbLeftRight {
        return Err(PngError::UnsupportedEncodingMethod);
    }
    let mut image = gather_image_data(&container.chunks);
    match channel_capacity(&container.header, image.len()) {
        None => Err(PngError::UnsupportedEncodingMethod),
        Some(n) => {
            image.truncate(n);
            assert(image@ =~= image_data(container@.chunks).take(n as int));
            Ok(image)
        },
    }
}

/// Embeds `payload` into the container `file_bytes` and returns the new
/// file. The new file has the same chunks in the same order and of the
/// same lengths. Its image-data chunks differ from the old ones in the
/// least-significant bits of leading data bytes, and so in their
/// checksums; bytes behind the trailer chunk are dropped.
pub fn embed_payload(file_bytes: &[u8], payload: &[u8], method: EncodingMethod) -> (r: Result<
    Vec<u8>,
    PngError,
>)
    ensures
        match r {
            Ok(out) => embed_payload_result(file_bytes@, payload@, method) == Ok::<
                Seq<u8>,
                PngError,
            >(out@),
            Err(e) => embed_payload_result(file_bytes@, payload@, method) == Err::<
                Seq<u8>,
                PngError,
            >(e),
        },
{
    if method != EncodingMethod::LsbLeftRight {
        return Err(PngError::UnsupportedEncodingMethod);
    }
    let container = match parse_container(file_bytes) {
        Err(e) => {
            return Err(e);
        },
        Ok(c) => c,
    };
    let mut pixels = match carrier(&container, method) {
        Err(e) => {
            return Err(e);
        },
        Ok(p) => p,
    };
    if payload.len() > usize::MAX / 8 {
        return Err(PngError::PayloadTooLarge { required: usize::MAX, capacity: pixels.len() });
    }
    let bits = bytes_to_bits(payload);
    match embed(&mut pixels, bits.as_slice()) {
        Err(e) => {
            return Err(e);
        },
        Ok(_) => {},
    }
    let chunks = scatter_image_data(&container.chunks, pixels.as_slice());
    let rebuilt = PngContainer { header: container.header, chunks };
    proof {
        lemma_with_image_data_shape(container@.chunks, pixels@);
    }
    Ok(reassemble_container(&rebuilt))
}

/// Extracts `expected_bit_count` payload bits from the container
/// `file_bytes` and returns them packed into bytes, most significant bit
/// first.
pub fn extract_payload(file_bytes: &[u8], expected_bit_count: usize, method: EncodingMethod) -> (r:
    Result<Vec<u8>, PngError>)
    ensures
        match r {
            Ok(out) => extract_payload_result(file_bytes@, expected_bit_count as int, method)
                == Ok::<Seq<u8>, PngError>(out@),
            Err(e) => extract_payload_result(file_bytes@, expected_bit_count as int, method)
                == Err::<Seq<u8>, PngError>(e),
        },
{
    if method != EncodingMethod::LsbLeftRight {
        return Err(PngError::UnsupportedEncodingMethod);
    }
    let container = match parse_container(file_bytes) {
        Err(e) => {
            return Err(e);
        },
        Ok(c) => c,
    };
    let pixels = match carrier(&container, method) {
        Err(e) => {
            return Err(e);
        },
        Ok(p) => p,
    };
    match extract(pixels.as_slice(), expected_bit_count) {
        Err(e) => Err(e),
        Ok(bits) => Ok(bits_to_bytes(bits.as_slice())),
    }
}

/// Writing pixels over image data keeps the shape of the chunks: the same
/// number of chunks, each with its code and the length of its data, and
/// every chunk that is not image data as it was.
pub proof fn lemma_with_image_data_shape(chunks: Seq<ChunkView>, pixels: Seq<u8>)
    ensures
        with_image_data(chunks, pixels).len() == chunks.len(),
        forall|i: int|
            0 <= i < chunks.len() ==> {
                &&& (#[trigger] with_image_data(chunks, pixels)[i]).code == chunks[i].code
                &&& with_image_data(chunks, pixels)[i].data.len() == chunks[i].data.len()
                &&& chunks[i].code != IDAT@ ==> with_image_data(chunks, pixels)[i] == chunks[i]
            },
        all_framable(chunks) ==> all_framable(with_image_data(chunks, pixels)),
        ends_at_trailer(chunks) ==> ends_at_trailer(with_image_data(chunks, pixels)),
{
    let new = with_image_data(chunks, pixels);
    if all_framable(chunks) {
        assert forall|i: int| 0 <= i < new.len() implies (#[trigger] new[i]).wf() by {
            assert(chunks[i].wf());
        }
    }
    if ends_at_trailer(chunks) {
        assert(new.last().code == chunks.last().code);
        assert forall|i: int| 0 <= i < new.len() - 1 implies (#[trigger] new[i]).code != IEND@ by {
            assert(chunks[i].code != IEND@);
        }
    }
}

/// The image data after pixels were written over its start: the pixels,
/// then what the image data held behind them.
pub proof fn lemma_image_data_replaced(chunks: Seq<ChunkView>, pixels: Seq<u8>)
    ensures
        image_data(with_image_data(chunks, pixels)).len() == image_data(chunks).len(),
        forall|k: int|
            0 <= k < image_data(chunks).len() ==> #[trigger] image_data(
                with_image_data(chunks, pixels),
            )[k] == if k < pixels.len() {
                pixels[k]
            } else {
                image_data(chunks)[k]
            },
    decreases chunks.len(),
{
    if chunks.len() > 0 {
        let new = with_image_data(chunks, pixels);
        let front = chunks.drop_last();
        lemma_image_data_replaced(front, pixels);
        assert(new.drop_last() =~= with_image_data(front, pixels)) by {
            assert forall|i: int| 0 <= i < front.len() implies new.drop_last()[i]
                == with_image_data(front, pixels)[i] by {
                assert(chunks.take(i) =~= front.take(i));
            }
        }
        assert(chunks.take(chunks.len() - 1) =~= front);
    }
}

/// What was embedded comes out again: if embedding `payload` into `file`
/// yields a new file, then extracting as many bits as the payload has from
/// the new file, by the same method, yields the payload.
pub proof fn lemma_extract_embedded_payload(
    file: Seq<u8>,
    payload: Seq<u8>,
    method: EncodingMethod,
)
    requires
        embed_payload_result(file, payload, method) is Ok,
    ensures
        extract_payload_result(
            embed_payload_result(file, payload, method)->Ok_0,
            8 * payload.len() as int,
            method,
        ) == Ok::<Seq<u8>, PngError>(payload),
{
    let c = parse_result(file)->Ok_0;
    let old_carrier = carrier_of(c, method)->Ok_0;
    let bits = bits_of(payload);
    let pixels = embedded(old_carrier, bits);
    let rebuilt = ContainerView { header: c.header, chunks: with_image_data(c.chunks, pixels) };
    crate::container::lemma_parsed_is_wf(file);
    lemma_with_image_data_shape(c.chunks, pixels);
    lemma_image_data_replaced(c.chunks, pixels);
    assert(IHDR@[1] != IDAT@[1]);
    assert(rebuilt.wf());
    lemma_parse_reassembled(rebuilt);
    let new_carrier = carrier_of(rebuilt, method)->Ok_0;
    assert(new_carrier =~= pixels);
    lemma_extract_embedded(old_carrier, bits);
    lemma_bytes_of_bits(payload);
}

} // verus!
