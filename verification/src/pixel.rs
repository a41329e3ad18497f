//! The pixel LSB codec: payload bits in the least-significant bit of
//! channel bytes.
//!
//! The carrier is a flat sequence of channel bytes, all channels of one
//! pixel before the next pixel. Bit `i` of the payload lives in channel
//! byte `i`; embedding and extraction walk the carrier in the same order.

use crate::error::PngError;
use vstd::prelude::*;

verus! {

/// The least-significant bit of a channel byte.
pub open spec fn lsb(b: u8) -> bool {
    b % 2 == 1
}

/// The byte `b` with its least-significant bit replaced by `bit`: the seven
/// upper bits stay as they are.
pub open spec fn with_lsb(b: u8, bit: bool) -> u8 {
    if bit {
        (b - b % 2 + 1) as u8
    } else {
        (b - b % 2) as u8
    }
}

/// The carrier after `bits` were embedded: channel byte `i` carries bit `i`,
/// and the bytes behind the payload are untouched.
pub open spec fn embedded(pixels: Seq<u8>, bits: Seq<bool>) -> Seq<u8> {
    Seq::new(
        pixels.len(),
        |i: int|
            if i < bits.len() {
                with_lsb(pixels[i], bits[i])
            } else {
                pixels[i]
            },
    )
}

/// The first `count` bits that the carrier holds.
pub open spec fn extracted(pixels: Seq<u8>, count: int) -> Seq<bool> {
    Seq::new(count as nat, |i: int| lsb(pixels[i]))
}

/// What embedding yields: the new carrier, or `PayloadTooLarge` when there
/// are more payload bits than channel bytes.
pub open spec fn embed_result(pixels: Seq<u8>, bits: Seq<bool>) -> Result<Seq<u8>, PngError> {
    if bits.len() > pixels.len() {
        Err(
            PngError::PayloadTooLarge {
                required: bits.len() as usize,
                capacity: pixels.len() as usize,
            },
        )
    } else {
        Ok(embedded(pixels, bits))
    }
}

/// What extraction yields: `count` bits, or `InsufficientCapacity` when
/// more bits are asked for than there are channel bytes.
pub open spec fn extract_result(pixels: Seq<u8>, count: int) -> Result<Seq<bool>, PngError> {
    if count > pixels.len() {
        Err(
            PngError::InsufficientCapacity {
                required: count as usize,
                capacity: pixels.len() as usize,
            },
        )
    } else {
        Ok(extracted(pixels, count))
    }
}

/// Overwrites the least-significant bit of one byte.
fn set_lsb(b: u8, bit: bool) -> (r: u8)
    ensures
        r == with_lsb(b, bit),
{
    assert((b & 0xFE) == b - b % 2) by (bit_vector);
    assert(((b & 0xFE) | 1) == b - b % 2 + 1) by (bit_vector);
    if bit {
        (b & 0xFE) | 1
    } else {
        b & 0xFE
    }
}

/// Reads the least-significant bit of one byte.
fn get_lsb(b: u8) -> (r: bool)
    ensures
        r == lsb(b),
{
    assert((b & 1 == 1) == (b % 2 == 1)) by (bit_vector);
    b & 1 == 1
}

/// Embeds the payload bits, in order, into the least-significant bits of
/// the leading channel bytes.
///
/// Fails with `PayloadTooLarge`, and leaves the carrier as it was, when the
/// payload has more bits than the carrier has channel bytes.
pub fn embed(pixels: &mut Vec<u8>, payload_bits: &[bool]) -> (r: Result<(), PngError>)
    ensures
        match r {
            Ok(_) => embed_result(old(pixels)@, payload_bits@) == Ok::<Seq<u8>, PngError>(
                final(pixels)@,
            ),
            Err(e) => embed_result(old(pixels)@, payload_bits@) == Err::<Seq<u8>, PngError>(e)
                && final(pixels)@ == old(pixels)@,
        },
{
    let count = payload_bits.len();
    if count > pixels.len() {
        return Err(PngError::PayloadTooLarge { required: count, capacity: pixels.len() });
    }
    let mut i: usize = 0;
    while i < count
        invariant
            i <= count,
            count == payload_bits@.len(),
            count <= pixels@.len(),
            pixels@.len() == old(pixels)@.len(),
            forall|j: int| 0 <= j < i ==> pixels@[j] == with_lsb(old(pixels)@[j], payload_bits@[j]),
            forall|j: int| i <= j < pixels@.len() ==> pixels@[j] == old(pixels)@[j],
        decreases count - i,
    {
        let b = set_lsb(pixels[i], payload_bits[i]);
        pixels.set(i, b);
        i = i + 1;
    }
    assert(pixels@ =~= embedded(old(pixels)@, payload_bits@));
    Ok(())
}

/// Extracts `bit_count` bits from the least-significant bits of the leading
/// channel bytes.
///
/// Fails with `InsufficientCapacity` when `bit_count` exceeds the number of
/// channel bytes.
pub fn extract(pixels: &[u8], bit_count: usize) -> (r: Result<Vec<bool>, PngError>)
    ensures
        match r {
            Ok(bits) => extract_result(pixels@, bit_count as int) == Ok::<Seq<bool>, PngError>(
                bits@,
            ),
            Err(e) => extract_result(pixels@, bit_count as int) == Err::<Seq<bool>, PngError>(e),
        },
{
    if bit_count > pixels.len() {
        return Err(
            PngError::InsufficientCapacity { required: bit_count, capacity: pixels.len() },
        );
    }
    let mut bits: Vec<bool> = Vec::new();
    let mut i: usize = 0;
    while i < bit_count
        invariant
            i <= bit_count <= pixels@.len(),
            bits@.len() == i,
            forall|j: int| 0 <= j < i ==> bits@[j] == lsb(pixels@[j]),
        decreases bit_count - i,
    {
        bits.push(get_lsb(pixels[i]));
        i = i + 1;
    }
    assert(bits@ =~= extracted(pixels@, bit_count as int));
    Ok(bits)
}

/// Replacing the least-significant bit changes nothing else: the new byte
/// has the bit asked for, keeps the seven upper bits, and so differs from
/// the old one by at most one.
pub proof fn lemma_with_lsb(b: u8, bit: bool)
    ensures
        lsb(with_lsb(b, bit)) == bit,
        with_lsb(b, bit) / 2 == b / 2,
        -1 <= with_lsb(b, bit) - b <= 1,
        lsb(b) == bit ==> with_lsb(b, bit) == b,
{
}

/// Embedding and extraction are inverse: whenever the payload fits, the
/// bits extracted from the carrier that embedding yields are the payload.
/// Embedding keeps the length of the carrier and the seven upper bits of
/// every channel byte, and leaves the bytes behind the payload as they were.
pub proof fn lemma_extract_embedded(pixels: Seq<u8>, bits: Seq<bool>)
    requires
        bits.len() <= pixels.len(),
    ensures
        embed_result(pixels, bits) == Ok::<Seq<u8>, PngError>(embedded(pixels, bits)),
        extract_result(embedded(pixels, bits), bits.len() as int) == Ok::<Seq<bool>, PngError>(
            bits,
        ),
        embedded(pixels, bits).len() == pixels.len(),
        forall|i: int| 0 <= i < pixels.len() ==> #[trigger] embedded(pixels, bits)[i] / 2 == pixels[i] / 2,
        forall|i: int|
            bits.len() <= i < pixels.len() ==> #[trigger] embedded(pixels, bits)[i] == pixels[i],
{
    let carrier = embedded(pixels, bits);
    assert forall|i: int| 0 <= i < bits.len() implies lsb(#[trigger] carrier[i]) == bits[i] by {
        lemma_with_lsb(pixels[i], bits[i]);
    }
    assert(extracted(carrier, bits.len() as int) =~= bits);
    assert forall|i: int| 0 <= i < pixels.len() implies #[trigger] carrier[i] / 2 == pixels[i]
        / 2 by {
        if i < bits.len() {
            lemma_with_lsb(pixels[i], bits[i]);
        }
    }
}

/// The capacity of a carrier is its number of channel bytes: a payload of
/// exactly that many bits is embedded, and one of a single bit more is
/// refused with `PayloadTooLarge`.
pub proof fn lemma_capacity_boundary(pixels: Seq<u8>, bits: Seq<bool>)
    ensures
        bits.len() == pixels.len() ==> embed_result(pixels, bits) is Ok,
        bits.len() == pixels.len() + 1 ==> embed_result(pixels, bits) == Err::<Seq<u8>, PngError>(
            PngError::PayloadTooLarge {
                required: bits.len() as usize,
                capacity: pixels.len() as usize,
            },
        ),
        embed_result(pixels, bits) is Ok <==> bits.len() <= pixels.len(),
{
}

} // verus!
