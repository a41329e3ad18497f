//! The catalogue of chunk type codes and the bit-flag predicates that
//! classify any four-byte code.
//!
//! A code is four bytes. Bit 5 (the binary digit of weight 32) of each byte
//! carries one property of the chunk; for ASCII letters it is the bit that
//! tells lower case from upper case.

use vstd::prelude::*;

verus! {

/// An exact four-byte chunk identifier, copied by value.
///
/// Its view is the sequence of its four bytes.
#[derive(Clone, Copy, Eq, Hash, Debug)]
pub struct ChunkType(pub [u8; 4]);

impl View for ChunkType {
    type V = Seq<u8>;

    open spec fn view(&self) -> Seq<u8> {
        self.0@
    }
}

impl PartialEq for ChunkType {
    /// Two codes are equal when their four bytes match exactly.
    fn eq(&self, other: &Self) -> (r: bool) {
        let r = self.0[0] == other.0[0] && self.0[1] == other.0[1] && self.0[2] == other.0[2]
            && self.0[3] == other.0[3];
        proof {
            if r {
                assert(self.0@ =~= other.0@);
            }
        }
        r
    }
}

impl vstd::std_specs::cmp::PartialEqSpecImpl for ChunkType {
    open spec fn obeys_eq_spec() -> bool {
        true
    }

    open spec fn eq_spec(&self, other: &Self) -> bool {
        self@ == other@
    }
}

// -- Critical chunks --

/// Image header (`IHDR`).
pub const IHDR: [u8; 4] = [0x49, 0x48, 0x44, 0x52];

/// Palette (`PLTE`).
pub const PLTE: [u8; 4] = [0x50, 0x4C, 0x54, 0x45];

/// Image data (`IDAT`).
pub const IDAT: [u8; 4] = [0x49, 0x44, 0x41, 0x54];

/// Image trailer (`IEND`).
pub const IEND: [u8; 4] = [0x49, 0x45, 0x4E, 0x44];

// -- Ancillary chunks --

/// Transparency (`tRNS`).
#[allow(non_upper_case_globals)]
pub const tRNS: [u8; 4] = [0x74, 0x52, 0x4E, 0x53];

/// Background colour (`bKGD`).
#[allow(non_upper_case_globals)]
pub const bKGD: [u8; 4] = [0x62, 0x4B, 0x47, 0x44];

/// Image last-modification time (`tIME`).
#[allow(non_upper_case_globals)]
pub const tIME: [u8; 4] = [0x74, 0x49, 0x4D, 0x45];

/// Physical pixel dimensions (`pHYs`).
#[allow(non_upper_case_globals)]
pub const pHYs: [u8; 4] = [0x70, 0x48, 0x59, 0x73];

/// Source system's pixel chromaticities (`cHRM`).
#[allow(non_upper_case_globals)]
pub const cHRM: [u8; 4] = [0x63, 0x48, 0x52, 0x4D];

/// Source system's gamma value (`gAMA`).
#[allow(non_upper_case_globals)]
pub const gAMA: [u8; 4] = [0x67, 0x41, 0x4D, 0x41];

/// sRGB colour space (`sRGB`).
#[allow(non_upper_case_globals)]
pub const sRGB: [u8; 4] = [0x73, 0x52, 0x47, 0x42];

/// ICC profile (`iCCP`).
#[allow(non_upper_case_globals)]
pub const iCCP: [u8; 4] = [0x69, 0x43, 0x43, 0x50];

/// Coding-independent code points for video signal type identification (`cICP`).
#[allow(non_upper_case_globals)]
pub const cICP: [u8; 4] = [0x63, 0x49, 0x43, 0x50];

/// Mastering display colour volume (`mDCV`).
#[allow(non_upper_case_globals)]
pub const mDCV: [u8; 4] = [0x6D, 0x44, 0x43, 0x56];

/// Content light level information (`cLLI`).
#[allow(non_upper_case_globals)]
pub const cLLI: [u8; 4] = [0x63, 0x4C, 0x4C, 0x49];

/// EXIF metadata (`eXIf`).
#[allow(non_upper_case_globals)]
pub const eXIf: [u8; 4] = [0x65, 0x58, 0x49, 0x66];

/// Latin-1 uncompressed textual data (`tEXt`).
#[allow(non_upper_case_globals)]
pub const tEXt: [u8; 4] = [0x74, 0x45, 0x58, 0x74];

/// Latin-1 compressed textual data (`zTXt`).
#[allow(non_upper_case_globals)]
pub const zTXt: [u8; 4] = [0x7A, 0x54, 0x58, 0x74];

/// UTF-8 textual data (`iTXt`).
#[allow(non_upper_case_globals)]
pub const iTXt: [u8; 4] = [0x69, 0x54, 0x58, 0x74];

/// Significant bits (`sBIT`).
#[allow(non_upper_case_globals)]
pub const sBIT: [u8; 4] = [0x73, 0x42, 0x49, 0x54];

// -- Extension chunks --

/// Animation control (`acTL`).
#[allow(non_upper_case_globals)]
pub const acTL: [u8; 4] = [0x61, 0x63, 0x54, 0x4C];

/// Frame control (`fcTL`).
#[allow(non_upper_case_globals)]
pub const fcTL: [u8; 4] = [0x66, 0x63, 0x54, 0x4C];

/// Frame data (`fdAT`).
#[allow(non_upper_case_globals)]
pub const fdAT: [u8; 4] = [0x66, 0x64, 0x41, 0x54];

// -- Chunk type determination --

/// Whether bit 5 of `b`, the binary digit of weight 32, is set.
pub open spec fn bit5_set(b: u8) -> bool {
    (b / 32) % 2 == 1
}

/// A code names a critical chunk when bit 5 of its first byte is clear.
pub open spec fn spec_is_critical(code: Seq<u8>) -> bool {
    !bit5_set(code[0])
}

/// A code names a private chunk when bit 5 of its second byte is set.
pub open spec fn spec_is_private(code: Seq<u8>) -> bool {
    bit5_set(code[1])
}

/// The reserved bit of a code is bit 5 of its third byte.
pub open spec fn spec_reserved_set(code: Seq<u8>) -> bool {
    bit5_set(code[2])
}

/// A chunk is safe to copy when bit 5 of the fourth byte of its code is set.
pub open spec fn spec_safe_to_copy(code: Seq<u8>) -> bool {
    bit5_set(code[3])
}

/// Tests bit 5 of one byte.
fn has_bit5(b: u8) -> (r: bool)
    ensures
        r == bit5_set(b),
{
    assert((b & 32 != 0) == ((b / 32) % 2 == 1)) by (bit_vector);
    b & 32 != 0
}

/// Returns true if the chunk is critical: every conforming reader must
/// understand it.
pub fn is_critical(code: ChunkType) -> (r: bool)
    ensures
        r == spec_is_critical(code@),
{
    !has_bit5(code.0[0])
}

/// Returns true if the chunk is private, as opposed to publicly registered.
pub fn is_private(code: ChunkType) -> (r: bool)
    ensures
        r == spec_is_private(code@),
{
    has_bit5(code.0[1])
}

/// Checks whether the reserved bit of the chunk name is set.
/// If it is set the chunk name is invalid.
pub fn reserved_set(code: ChunkType) -> (r: bool)
    ensures
        r == spec_reserved_set(code@),
{
    has_bit5(code.0[2])
}

/// Returns true if an editor that does not know the chunk may copy it
/// unmodified when it rewrites the file.
pub fn safe_to_copy(code: ChunkType) -> (r: bool)
    ensures
        r == spec_safe_to_copy(code@),
{
    has_bit5(code.0[3])
}

} // verus!
