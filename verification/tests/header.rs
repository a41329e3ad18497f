use pngsteg::error::PngError;
use pngsteg::header::{parse_ihdr, IHDRData, IHDR_LENGTH};

#[test]
fn header_fields_by_fixed_offsets() {
    let data = [0x00, 0x00, 0x00, 0x10, 0x00, 0x00, 0x00, 0x20, 0x08, 0x02, 0x00, 0x00, 0x00];
    assert_eq!(
        parse_ihdr(&data),
        Ok(IHDRData {
            width: 16,
            height: 32,
            bit_depth: 8,
            color_type: 2,
            compression_method: 0,
            filter_method: 0,
            interlace_method: 0,
        })
    );
}

#[test]
fn every_header_byte_lands_in_its_field() {
    let data = [0x01, 0x02, 0x03, 0x04, 0xF5, 0xF6, 0xF7, 0xF8, 9, 10, 11, 12, 13];
    assert_eq!(
        parse_ihdr(&data),
        Ok(IHDRData {
            width: 0x0102_0304,
            height: 0xF5F6_F7F8,
            bit_depth: 9,
            color_type: 10,
            compression_method: 11,
            filter_method: 12,
            interlace_method: 13,
        })
    );
}

#[test]
fn header_values_are_not_judged() {
    let data = [0, 0, 0, 0, 0, 0, 0, 0, 255, 255, 255, 255, 255];
    let header = parse_ihdr(&data).unwrap();
    assert_eq!(header.width, 0);
    assert_eq!(header.height, 0);
    assert_eq!(header.bit_depth, 255);
    assert_eq!(header.interlace_method, 255);
}

#[test]
fn short_header_is_malformed() {
    assert_eq!(IHDR_LENGTH, 13);
    for n in 0..13 {
        let data = vec![0u8; n];
        assert_eq!(parse_ihdr(&data), Err(PngError::MalformedHeader { available: n }));
    }
}

#[test]
fn bytes_behind_the_thirteenth_are_not_read() {
    let mut data = vec![0, 0, 0, 1, 0, 0, 0, 2, 8, 6, 0, 0, 1];
    let expected = parse_ihdr(&data);
    data.extend_from_slice(&[0xFF, 0xFF, 0xFF]);
    assert_eq!(parse_ihdr(&data), expected);
    assert_eq!(expected.unwrap().color_type, 6);
}
