use pngsteg::chunk::{write_chunk, ChunkRecord};
use pngsteg::chunk_type::{tEXt, ChunkType, IDAT, IEND, IHDR};
use pngsteg::container::{parse_container, PNG_MAGIC};
use pngsteg::encoding::{
    carrier, channel_capacity, embed_payload, extract_payload, gather_image_data,
    scatter_image_data, EncodingMethod,
};
use pngsteg::error::PngError;
use pngsteg::header::IHDRData;

const SAMPLE: [u8; 69] = [
    0x89, 0x50, 0x4E, 0x47, 0x0D, 0x0A, 0x1A, 0x0A, 0x00, 0x00, 0x00, 0x0D, 0x49, 0x48, 0x44,
    0x52, 0x00, 0x00, 0x00, 0x02, 0x00, 0x00, 0x00, 0x02, 0x08, 0x02, 0x00, 0x00, 0x00, 0xFD,
    0xD4, 0x9A, 0x73, 0x00, 0x00, 0x00, 0x0C, 0x49, 0x44, 0x41, 0x54, 0x0A, 0x0B, 0x0C, 0x0D,
    0x0E, 0x0F, 0x10, 0x11, 0x12, 0x13, 0x14, 0x15, 0x72, 0x4E, 0xE1, 0x02, 0x00, 0x00, 0x00,
    0x00, 0x49, 0x45, 0x4E, 0x44, 0xAE, 0x42, 0x60, 0x82,
];

const SAMPLE_WITH_A5: [u8; 69] = [
    0x89, 0x50, 0x4E, 0x47, 0x0D, 0x0A, 0x1A, 0x0A, 0x00, 0x00, 0x00, 0x0D, 0x49, 0x48, 0x44,
    0x52, 0x00, 0x00, 0x00, 0x02, 0x00, 0x00, 0x00, 0x02, 0x08, 0x02, 0x00, 0x00, 0x00, 0xFD,
    0xD4, 0x9A, 0x73, 0x00, 0x00, 0x00, 0x0C, 0x49, 0x44, 0x41, 0x54, 0x0B, 0x0A, 0x0D, 0x0C,
    0x0E, 0x0F, 0x10, 0x11, 0x12, 0x13, 0x14, 0x15, 0xD0, 0xDC, 0x0D, 0xD0, 0x00, 0x00, 0x00,
    0x00, 0x49, 0x45, 0x4E, 0x44, 0xAE, 0x42, 0x60, 0x82,
];

fn header(width: u32, height: u32, bit_depth: u8, color_type: u8) -> IHDRData {
    IHDRData {
        width,
        height,
        bit_depth,
        color_type,
        compression_method: 0,
        filter_method: 0,
        interlace_method: 0,
    }
}

fn header_data(width: u32, height: u32, bit_depth: u8, color_type: u8) -> Vec<u8> {
    let mut data = Vec::new();
    data.extend_from_slice(&width.to_be_bytes());
    data.extend_from_slice(&height.to_be_bytes());
    data.extend_from_slice(&[bit_depth, color_type, 0, 0, 0]);
    data
}

fn record(code: [u8; 4], data: &[u8]) -> ChunkRecord {
    ChunkRecord { chunk_type: ChunkType(code), data: data.to_vec() }
}

fn file_of(chunks: &[ChunkRecord]) -> Vec<u8> {
    let mut out = PNG_MAGIC.to_vec();
    for chunk in chunks {
        write_chunk(&mut out, chunk);
    }
    out
}

#[test]
fn capacity_is_pixels_times_channels() {
    assert_eq!(channel_capacity(&header(16, 32, 8, 0), 10_000), Some(512));
    assert_eq!(channel_capacity(&header(16, 32, 8, 3), 10_000), Some(512));
    assert_eq!(channel_capacity(&header(16, 32, 8, 4), 10_000), Some(1024));
    assert_eq!(channel_capacity(&header(16, 32, 8, 2), 10_000), Some(1536));
    assert_eq!(channel_capacity(&header(16, 32, 8, 6), 10_000), Some(2048));
    assert_eq!(channel_capacity(&header(0, 32, 8, 6), 10_000), Some(0));
    assert_eq!(channel_capacity(&header(16, 0, 8, 6), 10_000), Some(0));
}

#[test]
fn capacity_is_bounded_by_the_image_data() {
    assert_eq!(channel_capacity(&header(16, 32, 8, 2), 1536), Some(1536));
    assert_eq!(channel_capacity(&header(16, 32, 8, 2), 1535), Some(1535));
    assert_eq!(channel_capacity(&header(16, 32, 8, 2), 0), Some(0));
    assert_eq!(
        channel_capacity(&header(u32::MAX, u32::MAX, 8, 6), usize::MAX),
        Some(usize::MAX)
    );
}

#[test]
fn other_depths_and_colour_types_have_no_capacity() {
    for depth in [0u8, 1, 2, 4, 7, 9, 16, 255] {
        assert_eq!(channel_capacity(&header(4, 4, depth, 2), 100), None);
    }
    for color_type in [1u8, 5, 7, 8, 255] {
        assert_eq!(channel_capacity(&header(4, 4, 8, color_type), 100), None);
    }
}

#[test]
fn image_data_is_gathered_in_stream_order() {
    let chunks = vec![
        record(IHDR, &header_data(2, 2, 8, 2)),
        record(IDAT, &[1, 2, 3]),
        record(tEXt, &[99, 98]),
        record(IDAT, &[]),
        record(IDAT, &[4, 5]),
        record(IEND, &[]),
    ];
    assert_eq!(gather_image_data(&chunks), vec![1, 2, 3, 4, 5]);
    assert_eq!(gather_image_data(&vec![record(IEND, &[])]), Vec::<u8>::new());
}

#[test]
fn pixels_are_scattered_back_into_their_chunks() {
    let chunks = vec![
        record(IHDR, &header_data(2, 2, 8, 2)),
        record(IDAT, &[1, 2, 3]),
        record(tEXt, &[99, 98]),
        record(IDAT, &[]),
        record(IDAT, &[4, 5]),
        record(IEND, &[]),
    ];
    let out = scatter_image_data(&chunks, &[10, 20, 30, 40]);
    assert_eq!(
        out,
        vec![
            record(IHDR, &header_data(2, 2, 8, 2)),
            record(IDAT, &[10, 20, 30]),
            record(tEXt, &[99, 98]),
            record(IDAT, &[]),
            record(IDAT, &[40, 5]),
            record(IEND, &[]),
        ]
    );
    assert_eq!(scatter_image_data(&chunks, &[]), chunks);
    assert_eq!(gather_image_data(&scatter_image_data(&chunks, &[7, 8])), vec![7, 8, 3, 4, 5]);
}

#[test]
fn carrier_is_the_declared_part_of_the_image_data() {
    let file = file_of(&[
        record(IHDR, &header_data(1, 2, 8, 2)),
        record(IDAT, &[1, 2, 3, 4]),
        record(IDAT, &[5, 6, 7, 8]),
        record(IEND, &[]),
    ]);
    let container = parse_container(&file).unwrap();
    assert_eq!(carrier(&container, EncodingMethod::LsbLeftRight), Ok(vec![1, 2, 3, 4, 5, 6]));
    assert_eq!(
        carrier(&container, EncodingMethod::LsbMultiBit),
        Err(PngError::UnsupportedEncodingMethod)
    );
}

#[test]
fn embedding_one_byte_gives_the_known_file() {
    assert_eq!(
        embed_payload(&SAMPLE, &[0xA5], EncodingMethod::LsbLeftRight),
        Ok(SAMPLE_WITH_A5.to_vec())
    );
}

#[test]
fn extraction_reads_the_known_file() {
    assert_eq!(
        extract_payload(&SAMPLE_WITH_A5, 8, EncodingMethod::LsbLeftRight),
        Ok(vec![0xA5])
    );
    // 0x0A 0x0B 0x0C 0x0D ... : lowest bits 0,1,0,1,0,1,0,1, 0,1,0,1
    assert_eq!(
        extract_payload(&SAMPLE, 12, EncodingMethod::LsbLeftRight),
        Ok(vec![0x55, 0x50])
    );
    assert_eq!(extract_payload(&SAMPLE, 0, EncodingMethod::LsbLeftRight), Ok(vec![]));
}

#[test]
fn embedded_payload_comes_out_again() {
    let image: Vec<u8> = (0..300u32).map(|i| (i * 37 % 251) as u8).collect();
    let file = file_of(&[
        record(IHDR, &header_data(10, 10, 8, 2)),
        record(tEXt, b"Comment\0nothing to see"),
        record(IDAT, &image[..100]),
        record(IDAT, &image[100..101]),
        record(IDAT, &image[101..]),
        record(IEND, &[]),
    ]);
    let payload = b"The quick brown fox jumps over it.";
    let out = embed_payload(&file, payload, EncodingMethod::LsbLeftRight).unwrap();
    assert_eq!(out.len(), file.len());
    assert_eq!(
        extract_payload(&out, 8 * payload.len(), EncodingMethod::LsbLeftRight),
        Ok(payload.to_vec())
    );
    let before = parse_container(&file).unwrap();
    let after = parse_container(&out).unwrap();
    assert_eq!(after.header, before.header);
    assert_eq!(after.chunks.len(), before.chunks.len());
    for (a, b) in after.chunks.iter().zip(before.chunks.iter()) {
        assert_eq!(a.chunk_type, b.chunk_type);
        assert_eq!(a.data.len(), b.data.len());
        if a.chunk_type != ChunkType(IDAT) {
            assert_eq!(a, b);
        }
        for (x, y) in a.data.iter().zip(b.data.iter()) {
            assert_eq!(x >> 1, y >> 1);
        }
    }
    let new_image = gather_image_data(&after.chunks);
    assert_eq!(&new_image[8 * payload.len()..], &image[8 * payload.len()..]);
}

#[test]
fn empty_payload_changes_nothing() {
    assert_eq!(embed_payload(&SAMPLE, &[], EncodingMethod::LsbLeftRight), Ok(SAMPLE.to_vec()));
}

#[test]
fn payload_must_fit_the_carrier() {
    // 2 x 2 pixels of 3 channels: 12 channel bytes carry one byte of payload
    assert!(embed_payload(&SAMPLE, &[0xFF], EncodingMethod::LsbLeftRight).is_ok());
    assert_eq!(
        embed_payload(&SAMPLE, &[0xFF, 0x00], EncodingMethod::LsbLeftRight),
        Err(PngError::PayloadTooLarge { required: 16, capacity: 12 })
    );
    let file = file_of(&[
        record(IHDR, &header_data(2, 4, 8, 0)),
        record(IDAT, &[0; 20]),
        record(IEND, &[]),
    ]);
    assert!(embed_payload(&file, &[0xFF], EncodingMethod::LsbLeftRight).is_ok());
    assert_eq!(
        embed_payload(&file, &[0xFF, 0xFF], EncodingMethod::LsbLeftRight),
        Err(PngError::PayloadTooLarge { required: 16, capacity: 8 })
    );
}

#[test]
fn extraction_must_fit_the_carrier() {
    assert!(extract_payload(&SAMPLE, 12, EncodingMethod::LsbLeftRight).is_ok());
    assert_eq!(
        extract_payload(&SAMPLE, 13, EncodingMethod::LsbLeftRight),
        Err(PngError::InsufficientCapacity { required: 13, capacity: 12 })
    );
}

#[test]
fn container_without_image_data_has_no_capacity() {
    let file = file_of(&[record(IHDR, &header_data(2, 2, 8, 2)), record(IEND, &[])]);
    assert_eq!(embed_payload(&file, &[], EncodingMethod::LsbLeftRight), Ok(file.clone()));
    assert_eq!(
        embed_payload(&file, &[1], EncodingMethod::LsbLeftRight),
        Err(PngError::PayloadTooLarge { required: 8, capacity: 0 })
    );
    assert_eq!(
        extract_payload(&file, 1, EncodingMethod::LsbLeftRight),
        Err(PngError::InsufficientCapacity { required: 1, capacity: 0 })
    );
}

#[test]
fn multi_bit_method_is_not_implemented() {
    assert_eq!(
        embed_payload(&SAMPLE, &[1], EncodingMethod::LsbMultiBit),
        Err(PngError::UnsupportedEncodingMethod)
    );
    assert_eq!(
        extract_payload(&SAMPLE, 8, EncodingMethod::LsbMultiBit),
        Err(PngError::UnsupportedEncodingMethod)
    );
    // the method is judged before the file
    assert_eq!(
        embed_payload(&[], &[1], EncodingMethod::LsbMultiBit),
        Err(PngError::UnsupportedEncodingMethod)
    );
}

#[test]
fn sixteen_bit_samples_are_not_implemented() {
    let file = file_of(&[
        record(IHDR, &header_data(2, 2, 16, 2)),
        record(IDAT, &[0; 24]),
        record(IEND, &[]),
    ]);
    assert_eq!(
        embed_payload(&file, &[1], EncodingMethod::LsbLeftRight),
        Err(PngError::UnsupportedEncodingMethod)
    );
    assert_eq!(
        extract_payload(&file, 8, EncodingMethod::LsbLeftRight),
        Err(PngError::UnsupportedEncodingMethod)
    );
}

#[test]
fn structural_errors_pass_through() {
    assert_eq!(
        embed_payload(b"not a png at all", &[1], EncodingMethod::LsbLeftRight),
        Err(PngError::InvalidSignature)
    );
    assert_eq!(
        extract_payload(&SAMPLE[..40], 8, EncodingMethod::LsbLeftRight),
        Err(PngError::TruncatedStream { offset: 37, required: 4, available: 3 })
    );
    assert_eq!(
        extract_payload(&SAMPLE[..50], 8, EncodingMethod::LsbLeftRight),
        Err(PngError::TruncatedStream { offset: 41, required: 12, available: 9 })
    );
    let mut damaged = SAMPLE.to_vec();
    damaged[42] ^= 0x02;
    assert!(matches!(
        embed_payload(&damaged, &[1], EncodingMethod::LsbLeftRight),
        Err(PngError::ChecksumMismatch { offset: 33, .. })
    ));
    let file = file_of(&[record(IHDR, &[0; 5]), record(IEND, &[])]);
    assert_eq!(
        extract_payload(&file, 8, EncodingMethod::LsbLeftRight),
        Err(PngError::MalformedHeader { available: 5 })
    );
}
