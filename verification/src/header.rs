//! The header field parser: the fixed layout of the first chunk's data.

use crate::endian::{be_value, read_u32_be};
use crate::error::PngError;
use vstd::prelude::*;

verus! {

/// The number of bytes that the header fields occupy.
pub const IHDR_LENGTH: usize = 13;

/// The image metadata that the header chunk carries. The fields are decoded
/// as they stand: no range or combination of values is judged here.
#[derive(Clone, Copy, Debug, PartialEq, Eq, Structural)]
pub struct IHDRData {
    pub width: u32,
    pub height: u32,
    pub bit_depth: u8,
    pub color_type: u8,
    pub compression_method: u8,
    pub filter_method: u8,
    pub interlace_method: u8,
}

/// The fields that the first thirteen bytes of `data` spell: width in bytes
/// 0 to 3 and height in bytes 4 to 7, both big-endian, then one byte each
/// for bit depth, colour type, compression, filter and interlace method.
pub open spec fn header_fields(data: Seq<u8>) -> IHDRData
    recommends
        data.len() >= IHDR_LENGTH,
{
    IHDRData {
        width: be_value(data.subrange(0, 4)) as u32,
        height: be_value(data.subrange(4, 8)) as u32,
        bit_depth: data[8],
        color_type: data[9],
        compression_method: data[10],
        filter_method: data[11],
        interlace_method: data[12],
    }
}

/// What parsing header data yields: the fields, or `MalformedHeader` with
/// the number of bytes supplied when they are fewer than thirteen.
pub open spec fn header_result(data: Seq<u8>) -> Result<IHDRData, PngError> {
    if data.len() < IHDR_LENGTH {
        Err(PngError::MalformedHeader { available: data.len() as usize })
    } else {
        Ok(header_fields(data))
    }
}

/// Decodes the header fields from the data of the first chunk.
///
/// Bytes beyond the thirteenth are not read.
pub fn parse_ihdr(data: &[u8]) -> (r: Result<IHDRData, PngError>)
    ensures
        r == header_result(data@),
{
    if data.len() < IHDR_LENGTH {
        return Err(PngError::MalformedHeader { available: data.len() });
    }
    Ok(
        IHDRData {
            width: read_u32_be(data, 0),
            height: read_u32_be(data, 4),
            bit_depth: data[8],
            color_type: data[9],
            compression_method: data[10],
            filter_method: data[11],
            interlace_method: data[12],
        },
    )
}

} // verus!
