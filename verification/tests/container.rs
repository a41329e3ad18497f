use pngsteg::chunk::{write_chunk, ChunkRecord};
use pngsteg::chunk_type::{tEXt, ChunkType, IDAT, IEND, IHDR};
use pngsteg::container::{
    check_signature, parse_container, reassemble_container, PngContainer, PNG_MAGIC,
};
use pngsteg::error::PngError;
use pngsteg::header::IHDRData;

const SAMPLE: [u8; 69] = [
    0x89, 0x50, 0x4E, 0x47, 0x0D, 0x0A, 0x1A, 0x0A, 0x00, 0x00, 0x00, 0x0D, 0x49, 0x48, 0x44,
    0x52, 0x00, 0x00, 0x00, 0x02, 0x00, 0x00, 0x00, 0x02, 0x08, 0x02, 0x00, 0x00, 0x00, 0xFD,
    0xD4, 0x9A, 0x73, 0x00, 0x00, 0x00, 0x0C, 0x49, 0x44, 0x41, 0x54, 0x0A, 0x0B, 0x0C, 0x0D,
    0x0E, 0x0F, 0x10, 0x11, 0x12, 0x13, 0x14, 0x15, 0x72, 0x4E, 0xE1, 0x02, 0x00, 0x00, 0x00,
    0x00, 0x49, 0x45, 0x4E, 0x44, 0xAE, 0x42, 0x60, 0x82,
];

fn header_data(width: u32, height: u32) -> Vec<u8> {
    let mut data = Vec::new();
    data.extend_from_slice(&width.to_be_bytes());
    data.extend_from_slice(&height.to_be_bytes());
    data.extend_from_slice(&[8, 2, 0, 0, 0]);
    data
}

fn file_of(chunks: &[ChunkRecord]) -> Vec<u8> {
    let mut out = PNG_MAGIC.to_vec();
    for chunk in chunks {
        write_chunk(&mut out, chunk);
    }
    out
}

fn record(code: [u8; 4], data: &[u8]) -> ChunkRecord {
    ChunkRecord { chunk_type: ChunkType(code), data: data.to_vec() }
}

#[test]
fn signature_is_the_eight_magic_bytes() {
    assert_eq!(PNG_MAGIC, [0x89, 0x50, 0x4E, 0x47, 0x0D, 0x0A, 0x1A, 0x0A]);
    assert_eq!(check_signature(&PNG_MAGIC), Ok(()));
    assert_eq!(check_signature(&SAMPLE), Ok(()));
}

#[test]
fn wrong_or_short_signature_is_invalid() {
    assert_eq!(check_signature(&[]), Err(PngError::InvalidSignature));
    assert_eq!(check_signature(&PNG_MAGIC[..7]), Err(PngError::InvalidSignature));
    for i in 0..8 {
        let mut bytes = SAMPLE.to_vec();
        bytes[i] ^= 1;
        assert_eq!(check_signature(&bytes), Err(PngError::InvalidSignature));
        assert_eq!(parse_container(&bytes), Err(PngError::InvalidSignature));
    }
}

#[test]
fn sample_file_parses_into_header_and_chunks() {
    let container = parse_container(&SAMPLE).unwrap();
    assert_eq!(
        container.header,
        IHDRData {
            width: 2,
            height: 2,
            bit_depth: 8,
            color_type: 2,
            compression_method: 0,
            filter_method: 0,
            interlace_method: 0,
        }
    );
    assert_eq!(
        container.chunks,
        vec![
            record(IHDR, &[0, 0, 0, 2, 0, 0, 0, 2, 8, 2, 0, 0, 0]),
            record(IDAT, &[10, 11, 12, 13, 14, 15, 16, 17, 18, 19, 20, 21]),
            record(IEND, &[]),
        ]
    );
}

#[test]
fn parsed_file_reassembles_to_its_bytes() {
    let container = parse_container(&SAMPLE).unwrap();
    assert_eq!(reassemble_container(&container), SAMPLE.to_vec());
}

#[test]
fn no_op_pass_changes_nothing() {
    let chunks = vec![
        record(IHDR, &header_data(640, 480)),
        record(tEXt, b"Title\0steg"),
        record(IDAT, &[1, 2, 3]),
        record(*b"prVt", &[9; 40]),
        record(IDAT, &[]),
        record(IDAT, &[4, 5]),
        record(IEND, &[]),
    ];
    let file = file_of(&chunks);
    let first = parse_container(&file).unwrap();
    let again = parse_container(&reassemble_container(&first)).unwrap();
    assert_eq!(again, first);
    assert_eq!(first.chunks, chunks);
    assert_eq!(first.header.width, 640);
    assert_eq!(first.header.height, 480);
    assert_eq!(reassemble_container(&first), file);
}

#[test]
fn bytes_behind_the_trailer_are_not_read() {
    let mut file = SAMPLE.to_vec();
    file.extend_from_slice(&[1, 2, 3, 4, 5]);
    let container = parse_container(&file).unwrap();
    assert_eq!(container, parse_container(&SAMPLE).unwrap());
    assert_eq!(reassemble_container(&container), SAMPLE.to_vec());
}

#[test]
fn chunks_behind_the_first_trailer_are_not_read() {
    let file = file_of(&[
        record(IHDR, &header_data(1, 1)),
        record(IEND, &[]),
        record(IDAT, &[1, 2, 3]),
        record(IEND, &[]),
    ]);
    let container = parse_container(&file).unwrap();
    assert_eq!(container.chunks.len(), 2);
    assert_eq!(container.chunks[1], record(IEND, &[]));
}

#[test]
fn first_chunk_must_be_the_header() {
    let file = file_of(&[record(IDAT, &[0; 13]), record(IEND, &[])]);
    assert_eq!(parse_container(&file), Err(PngError::MalformedHeader { available: 0 }));
    let file = file_of(&[record(IEND, &[])]);
    assert_eq!(parse_container(&file), Err(PngError::MalformedHeader { available: 0 }));
}

#[test]
fn short_header_chunk_is_malformed() {
    let file = file_of(&[record(IHDR, &[0; 12]), record(IEND, &[])]);
    assert_eq!(parse_container(&file), Err(PngError::MalformedHeader { available: 12 }));
    let file = file_of(&[record(IHDR, &[]), record(IEND, &[])]);
    assert_eq!(parse_container(&file), Err(PngError::MalformedHeader { available: 0 }));
}

#[test]
fn long_header_chunk_is_kept_as_it_is() {
    let mut data = header_data(3, 4);
    data.push(0xAB);
    let chunks = vec![record(IHDR, &data), record(IEND, &[])];
    let file = file_of(&chunks);
    let container = parse_container(&file).unwrap();
    assert_eq!(container.header.width, 3);
    assert_eq!(container.header.height, 4);
    assert_eq!(container.chunks, chunks);
    assert_eq!(reassemble_container(&container), file);
}

#[test]
fn signature_alone_is_truncated() {
    assert_eq!(
        parse_container(&PNG_MAGIC),
        Err(PngError::TruncatedStream { offset: 8, required: 4, available: 0 })
    );
}

#[test]
fn stream_that_ends_before_the_trailer_is_truncated() {
    let file = file_of(&[record(IHDR, &header_data(1, 1)), record(IDAT, &[1, 2, 3])]);
    assert_eq!(
        parse_container(&file),
        Err(PngError::TruncatedStream { offset: file.len(), required: 4, available: 0 })
    );
    // every proper prefix of a file fails, none of them silently
    for n in 8..SAMPLE.len() {
        assert!(matches!(
            parse_container(&SAMPLE[..n]),
            Err(PngError::TruncatedStream { .. })
        ));
    }
}

#[test]
fn damaged_chunk_fails_the_whole_parse() {
    let mut file = SAMPLE.to_vec();
    file[45] ^= 0x10;
    assert!(matches!(
        parse_container(&file),
        Err(PngError::ChecksumMismatch { offset: 33, stored: 0x724E_E102, .. })
    ));
    let mut file = SAMPLE.to_vec();
    file[20] ^= 0x01;
    assert!(matches!(
        parse_container(&file),
        Err(PngError::ChecksumMismatch { offset: 8, stored: 0xFDD4_9A73, .. })
    ));
}

#[test]
fn reassembly_writes_what_it_is_given() {
    let container = PngContainer {
        header: IHDRData {
            width: 0,
            height: 0,
            bit_depth: 0,
            color_type: 0,
            compression_method: 0,
            filter_method: 0,
            interlace_method: 0,
        },
        chunks: vec![record(IEND, &[])],
    };
    let mut expected = PNG_MAGIC.to_vec();
    expected.extend_from_slice(&[0, 0, 0, 0, 0x49, 0x45, 0x4E, 0x44, 0xAE, 0x42, 0x60, 0x82]);
    assert_eq!(reassemble_container(&container), expected);
}
