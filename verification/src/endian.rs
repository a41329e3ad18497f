//! Big-endian 32-bit integers, the only integer layout of the container.

use vstd::arithmetic::div_mod::lemma_fundamental_div_mod_converse;
use vstd::prelude::*;

verus! {

/// The number that the first four bytes of `s` spell, most significant
/// byte first.
pub open spec fn be_value(s: Seq<u8>) -> int
    recommends
        s.len() >= 4,
{
    s[0] * 0x100_0000 + s[1] * 0x1_0000 + s[2] * 0x100 + s[3]
}

/// The four bytes that spell `x`, most significant byte first.
pub open spec fn be_bytes(x: u32) -> Seq<u8> {
    seq![
        (x / 0x100_0000) as u8,
        ((x / 0x1_0000) % 0x100) as u8,
        ((x / 0x100) % 0x100) as u8,
        (x % 0x100) as u8,
    ]
}

/// Four bytes always spell a number that fits in `u32`.
pub proof fn lemma_be_value_range(s: Seq<u8>)
    ensures
        0 <= be_value(s) <= u32::MAX,
{
}

/// Decoding the bytes of `x` gives `x` back.
pub proof fn lemma_be_value_of_bytes(x: u32)
    ensures
        be_bytes(x).len() == 4,
        be_value(be_bytes(x)) == x,
{
}

/// Encoding the number that four bytes spell gives the same four bytes.
pub proof fn lemma_be_bytes_of_value(s: Seq<u8>)
    requires
        s.len() == 4,
    ensures
        be_bytes(be_value(s) as u32) == s,
{
    let v = be_value(s);
    let (b0, b1, b2, b3) = (s[0] as int, s[1] as int, s[2] as int, s[3] as int);
    lemma_fundamental_div_mod_converse(v, 0x100_0000, b0, b1 * 0x1_0000 + b2 * 0x100 + b3);
    lemma_fundamental_div_mod_converse(v, 0x1_0000, b0 * 0x100 + b1, b2 * 0x100 + b3);
    lemma_fundamental_div_mod_converse(v, 0x100, b0 * 0x1_0000 + b1 * 0x100 + b2, b3);
    lemma_fundamental_div_mod_converse(b0 * 0x100 + b1, 0x100, b0, b1);
    lemma_fundamental_div_mod_converse(b0 * 0x1_0000 + b1 * 0x100 + b2, 0x100, b0 * 0x100 + b1, b2);
    assert(be_bytes(v as u32) =~= s);
}

/// Reads the big-endian `u32` that starts at `pos`.
pub(crate) fn read_u32_be(stream: &[u8], pos: usize) -> (x: u32)
    requires
        pos + 4 <= stream.len(),
    ensures
        x == be_value(stream@.subrange(pos as int, pos + 4)),
{
    let b0: u32 = stream[pos] as u32;
    let b1: u32 = stream[pos + 1] as u32;
    let b2: u32 = stream[pos + 2] as u32;
    let b3: u32 = stream[pos + 3] as u32;
    b0 * 0x100_0000 + b1 * 0x1_0000 + b2 * 0x100 + b3
}

/// Appends the four big-endian bytes of `x` to the stream.
pub fn write_u32_be(stream: &mut Vec<u8>, x: u32)
    ensures
        final(stream)@ == old(stream)@ + be_bytes(x),
{
    stream.push((x / 0x100_0000) as u8);
    stream.push(((x / 0x1_0000) % 0x100) as u8);
    stream.push(((x / 0x100) % 0x100) as u8);
    stream.push((x % 0x100) as u8);
    assert(stream@ =~= old(stream)@ + be_bytes(x));
}

} // verus!
