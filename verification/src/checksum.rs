//! The integrity checksum of the container format.

use crc::crc32;
use vstd::prelude::*;

verus! {

/// The CRC-32 of a byte sequence with the IEEE 802.3 polynomial, the value
/// that `crc::crc32::checksum_ieee` computes for these bytes.
pub uninterp spec fn crc32_ieee(bytes: Seq<u8>) -> u32;

/// Calls `crc::crc32::checksum_ieee`.
///
/// Trusted: the result is taken to be `crc32_ieee` of the bytes. The outside
/// function is a table-driven fold over the slice, so its result depends on
/// the bytes alone and it returns for every slice. Nothing else is claimed
/// of the value.
#[verifier::external_body]
pub(crate) fn checksum_ieee(bytes: &[u8]) -> (crc: u32)
    ensures
        crc == crc32_ieee(bytes@),
{
    crc32::checksum_ieee(bytes)
}

} // verus!
