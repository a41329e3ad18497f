//! The payload as a bit stream.
//!
//! A payload byte gives eight bits, most significant bit first, so that the
//! bits of a payload read from left to right as its bytes do. Packing bits
//! into bytes is the inverse; an incomplete last byte is filled with zero
//! bits at its low end.

use vstd::prelude::*;

verus! {

/// The weight of bit `k` of a byte, counted from the most significant bit.
pub open spec fn weight(k: int) -> int {
    if k == 0 {
        128
    } else if k == 1 {
        64
    } else if k == 2 {
        32
    } else if k == 3 {
        16
    } else if k == 4 {
        8
    } else if k == 5 {
        4
    } else if k == 6 {
        2
    } else {
        1
    }
}

/// Bit `k` of `byte`, counted from the most significant bit.
pub open spec fn bit_of(byte: u8, k: int) -> bool {
    (byte as int / weight(k)) % 2 == 1
}

/// The bits of a payload: bit `i` is bit `i % 8` of byte `i / 8`.
pub open spec fn bits_of(bytes: Seq<u8>) -> Seq<bool> {
    Seq::new(8 * bytes.len(), |i: int| bit_of(bytes[i / 8], i % 8))
}

/// What bit `i` adds to its byte: its weight when the bit exists and is
/// set, nothing otherwise.
pub open spec fn bit_value(bits: Seq<bool>, i: int) -> int {
    if 0 <= i < bits.len() && bits[i] {
        weight(i % 8)
    } else {
        0
    }
}

/// Byte `j` of the packed bits.
pub open spec fn byte_of(bits: Seq<bool>, j: int) -> u8 {
    (bit_value(bits, 8 * j) + bit_value(bits, 8 * j + 1) + bit_value(bits, 8 * j + 2) + bit_value(
        bits,
        8 * j + 3,
    ) + bit_value(bits, 8 * j + 4) + bit_value(bits, 8 * j + 5) + bit_value(bits, 8 * j + 6)
        + bit_value(bits, 8 * j + 7)) as u8
}

/// The bytes that the bits pack into: one byte for every eight bits, and
/// one more for what is left.
pub open spec fn bytes_of(bits: Seq<bool>) -> Seq<u8> {
    Seq::new((bits.len() + 7) / 8, |j: int| byte_of(bits, j))
}

/// Bit `k` of a byte, `k` below eight, most significant bit first.
fn get_bit(byte: u8, k: usize) -> (r: bool)
    requires
        k < 8,
    ensures
        r == bit_of(byte, k as int),
{
    (byte / bit_weight(k)) % 2 == 1
}

/// Unpacks a payload into its bits, most significant bit of each byte first.
pub fn bytes_to_bits(bytes: &[u8]) -> (bits: Vec<bool>)
    requires
        8 * bytes.len() <= usize::MAX,
    ensures
        bits@ == bits_of(bytes@),
{
    let mut bits: Vec<bool> = Vec::new();
    let mut j: usize = 0;
    while j < bytes.len()
        invariant
            j <= bytes@.len(),
            bits@.len() == 8 * j,
            forall|i: int| 0 <= i < bits@.len() ==> bits@[i] == bit_of(bytes@[i / 8], i % 8),
        decreases bytes@.len() - j,
    {
        let byte = bytes[j];
        let mut k: usize = 0;
        while k < 8
            invariant
                k <= 8,
                j < bytes@.len(),
                byte == bytes@[j as int],
                bits@.len() == 8 * j + k,
                forall|i: int| 0 <= i < bits@.len() ==> bits@[i] == bit_of(bytes@[i / 8], i % 8),
            decreases 8 - k,
        {
            bits.push(get_bit(byte, k));
            k = k + 1;
        }
        j = j + 1;
    }
    assert(bits@ =~= bits_of(bytes@));
    bits
}

/// The weight of bit `k` below eight, most significant bit first.
fn bit_weight(k: usize) -> (w: u8)
    requires
        k < 8,
    ensures
        w == weight(k as int),
{
    if k == 0 {
        128
    } else if k == 1 {
        64
    } else if k == 2 {
        32
    } else if k == 3 {
        16
    } else if k == 4 {
        8
    } else if k == 5 {
        4
    } else if k == 6 {
        2
    } else {
        1
    }
}

/// Packs bits into bytes, most significant bit of each byte first. A last
/// byte that gets fewer than eight bits has zero bits at its low end.
pub fn bits_to_bytes(bits: &[bool]) -> (bytes: Vec<u8>)
    ensures
        bytes@ == bytes_of(bits@),
{
    let n = bits.len();
    let count: usize = if n % 8 == 0 {
        n / 8
    } else {
        n / 8 + 1
    };
    assert(count == (n + 7) / 8);
    let mut bytes: Vec<u8> = Vec::new();
    let mut j: usize = 0;
    while j < count
        invariant
            n == bits@.len(),
            count == (n + 7) / 8,
            j <= count,
            bytes@.len() == j,
            forall|i: int| 0 <= i < j ==> bytes@[i] == byte_of(bits@, i),
        decreases count - j,
    {
        let base: usize = 8 * j;
        let mut byte: u8 = 0;
        let mut k: usize = 0;
        while k < 8
            invariant
                k <= 8,
                n == bits@.len(),
                base == 8 * j,
                base < n,
                byte == partial_byte(bits@, j as int, k as int),
            decreases 8 - k,
        {
            proof {
                lemma_partial_byte_bound(bits@, j as int, k as int);
                assert((8 * j + k) % 8 == k);
            }
            if k < n - base && bits[base + k] {
                byte = byte + bit_weight(k);
            }
            k = k + 1;
        }
        proof {
            reveal_with_fuel(partial_byte, 9);
        }
        bytes.push(byte);
        j = j + 1;
    }
    assert(bytes@ =~= bytes_of(bits@));
    bytes
}

/// The value of the first `k` bits of byte `j`.
spec fn partial_byte(bits: Seq<bool>, j: int, k: int) -> int
    decreases k,
{
    if k <= 0 {
        0
    } else {
        partial_byte(bits, j, k - 1) + bit_value(bits, 8 * j + k - 1)
    }
}

/// The first `k` bits of a byte leave room for the bits that follow.
proof fn lemma_partial_byte_bound(bits: Seq<bool>, j: int, k: int)
    requires
        0 <= k <= 8,
    ensures
        k == 0 ==> partial_byte(bits, j, k) == 0,
        k > 0 ==> 0 <= partial_byte(bits, j, k) <= 256 - weight(k - 1),
    decreases k,
{
    if k > 0 {
        lemma_partial_byte_bound(bits, j, k - 1);
        assert((8 * j + k - 1) % 8 == k - 1);
    }
}

/// Packing the bits of a payload gives the payload back.
pub proof fn lemma_bytes_of_bits(bytes: Seq<u8>)
    ensures
        bits_of(bytes).len() == 8 * bytes.len(),
        bytes_of(bits_of(bytes)) == bytes,
{
    let bits = bits_of(bytes);
    assert forall|j: int| 0 <= j < bytes.len() implies byte_of(bits, j) == bytes[j] by {
        let b = bytes[j];
        assert forall|k: int| 0 <= k < 8 implies bit_value(bits, 8 * j + k) == if bit_of(b, k) {
            weight(k)
        } else {
            0
        } by {
            assert((8 * j + k) / 8 == j);
            assert((8 * j + k) % 8 == k);
        }
        lemma_byte_from_bits(b);
        assert(bit_value(bits, 8 * j) == bit_value(bits, 8 * j + 0));
    }
    assert(bytes_of(bits) =~= bytes);
}

/// A byte is the sum of the weights of its set bits.
proof fn lemma_byte_from_bits(b: u8)
    ensures
        b == (if bit_of(b, 0) { 128int } else { 0 }) + (if bit_of(b, 1) { 64int } else { 0 }) + (if bit_of(b, 2) { 32int } else { 0 })
            + (if bit_of(b, 3) { 16int } else { 0 }) + (if bit_of(b, 4) { 8int } else { 0 }) + (if bit_of(b, 5) { 4int } else { 0 })
            + (if bit_of(b, 6) { 2int } else { 0 }) + (if bit_of(b, 7) { 1int } else { 0 }),
{
    assert(b == 128 * ((b / 128) % 2) + 64 * ((b / 64) % 2) + 32 * ((b / 32) % 2) + 16 * ((b / 16)
        % 2) + 8 * ((b / 8) % 2) + 4 * ((b / 4) % 2) + 2 * ((b / 2) % 2) + (b % 2)) by (bit_vector);
}

} // verus!
