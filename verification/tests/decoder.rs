use qoi_viewer::decode::QoiImage;
use qoi_viewer::types::{Channels, Colorspace, Pixel, QoiError};

/// A stream header: magic, big-endian width and height, channels, colorspace.
fn header(width: u32, height: u32, channels: u8, colorspace: u8) -> Vec<u8> {
    let mut v = vec![0x71, 0x6F, 0x69, 0x66];
    v.extend_from_slice(&width.to_be_bytes());
    v.extend_from_slice(&height.to_be_bytes());
    v.push(channels);
    v.push(colorspace);
    v
}

fn end_marker() -> Vec<u8> {
    vec![0, 0, 0, 0, 0, 0, 0, 1]
}

#[test]
fn pixel_hash_formula() {
    assert_eq!(Pixel(10, 20, 30, 40).hash(), (10 * 3 + 20 * 5 + 30 * 7 + 40 * 11) % 64);
    assert_eq!(Pixel(0, 0, 0, 255).hash(), 53);
    assert_eq!(Pixel(0, 0, 0, 0).hash(), 0);
}

#[test]
fn zero_pixel_image_decodes_empty() {
    let mut data = header(0, 7, 3, 0);
    data.extend_from_slice(&end_marker());
    let img = QoiImage::decode(&data).unwrap();
    assert_eq!(img.width, 0);
    assert_eq!(img.height, 7);
    assert!(img.pixels.is_empty());

    let mut data = header(9, 0, 4, 1);
    data.extend_from_slice(&end_marker());
    let img = QoiImage::decode(&data).unwrap();
    assert!(img.pixels.is_empty());
    assert!(matches!(img.channels, Channels::Rgba));
    assert!(matches!(img.colorspace, Colorspace::Linear));
}

#[test]
fn bad_magic_rejected() {
    let mut data = header(0, 0, 3, 0);
    data[3] = b'x'; // "qoix"
    data.extend_from_slice(&end_marker());
    assert_eq!(QoiImage::decode(&data).unwrap_err(), QoiError::InvalidMagic);
}

#[test]
fn bad_channel_count_rejected() {
    let mut data = header(1, 1, 5, 0);
    data.extend_from_slice(&end_marker());
    assert_eq!(QoiImage::decode(&data).unwrap_err(), QoiError::InvalidChannelCount);
}

#[test]
fn bad_colorspace_rejected() {
    let mut data = header(1, 1, 3, 2);
    data.extend_from_slice(&end_marker());
    assert_eq!(QoiImage::decode(&data).unwrap_err(), QoiError::InvalidColorspace);
}

#[test]
fn short_header_is_eof() {
    assert_eq!(QoiImage::decode(&[]).unwrap_err(), QoiError::UnexpectedEof);
    assert_eq!(QoiImage::decode(&[0x71, 0x6F]).unwrap_err(), QoiError::UnexpectedEof);
    let data = header(1, 1, 3, 0);
    assert_eq!(QoiImage::decode(&data[..10]).unwrap_err(), QoiError::UnexpectedEof);
}

#[test]
fn truncated_stream_is_eof_not_bad_marker() {
    // A valid header and a valid opcode, but no end marker at all.
    let mut data = header(1, 1, 3, 0);
    data.extend_from_slice(&[0xFE, 1, 2, 3]);
    assert_eq!(QoiImage::decode(&data).unwrap_err(), QoiError::UnexpectedEof);
    // Only part of the marker present.
    let mut data = header(1, 1, 3, 0);
    data.extend_from_slice(&[0xFE, 1, 2, 3, 0, 0, 0]);
    assert_eq!(QoiImage::decode(&data).unwrap_err(), QoiError::UnexpectedEof);
}

#[test]
fn zeroed_end_marker_rejected() {
    let mut data = header(1, 1, 3, 0);
    data.extend_from_slice(&[0xFE, 1, 2, 3]);
    data.extend_from_slice(&[0, 0, 0, 0, 0, 0, 0, 0]);
    assert_eq!(QoiImage::decode(&data).unwrap_err(), QoiError::InvalidEndMarker);
}

#[test]
fn truncated_opcode_payload_is_eof() {
    let mut data = header(1, 1, 3, 0);
    data.push(0xFE); // RGB opcode, payload missing
    assert_eq!(QoiImage::decode(&data).unwrap_err(), QoiError::UnexpectedEof);
    let mut data = header(1, 1, 4, 0);
    data.extend_from_slice(&[0xFF, 9, 9]); // RGBA opcode, payload cut short
    assert_eq!(QoiImage::decode(&data).unwrap_err(), QoiError::UnexpectedEof);
    let mut data = header(1, 1, 3, 0);
    data.push(0x85); // LUMA opcode, payload byte missing
    assert_eq!(QoiImage::decode(&data).unwrap_err(), QoiError::UnexpectedEof);
}

#[test]
fn rgb_opcode_three_channels() {
    let mut data = header(1, 1, 3, 0);
    data.extend_from_slice(&[0xFE, 10, 20, 30]);
    data.extend_from_slice(&end_marker());
    let img = QoiImage::decode(&data).unwrap();
    assert_eq!(img.pixels, vec![10, 20, 30]);
    assert_eq!(img.pixels.len(), 1 * 1 * 3);
}

#[test]
fn rgb_opcode_carries_previous_alpha() {
    // First pixel sets alpha 40 via RGBA; the RGB opcode keeps it.
    let mut data = header(2, 1, 4, 0);
    data.extend_from_slice(&[0xFF, 1, 2, 3, 40]);
    data.extend_from_slice(&[0xFE, 7, 8, 9]);
    data.extend_from_slice(&end_marker());
    let img = QoiImage::decode(&data).unwrap();
    assert_eq!(img.pixels, vec![1, 2, 3, 40, 7, 8, 9, 40]);
}

#[test]
fn rgba_opcode_in_three_channel_image_emits_no_alpha_byte() {
    let mut data = header(1, 1, 3, 0);
    data.extend_from_slice(&[0xFF, 5, 6, 7, 8]);
    data.extend_from_slice(&end_marker());
    let img = QoiImage::decode(&data).unwrap();
    // Alpha 8 is tracked but never written to the output.
    assert_eq!(img.pixels, vec![5, 6, 7]);
}

#[test]
fn alpha_tracked_in_three_channel_image() {
    // An RGBA opcode sets alpha 9; a later INDEX of that pixel's slot must
    // reproduce it, alpha included, for the hash to match.
    let p = Pixel(5, 6, 7, 9);
    let slot = p.hash() as u8;
    let mut data = header(3, 1, 3, 0);
    data.extend_from_slice(&[0xFF, 5, 6, 7, 9]);
    data.extend_from_slice(&[0xFE, 1, 1, 1]);
    data.push(slot); // INDEX opcode: top bits 00
    data.extend_from_slice(&end_marker());
    let img = QoiImage::decode(&data).unwrap();
    assert_eq!(img.pixels, vec![5, 6, 7, 1, 1, 1, 5, 6, 7]);
}

#[test]
fn index_opcode_reads_initial_history() {
    // Before any opcode, slot 53 holds the initial pixel (0,0,0,255) and
    // every other slot holds (0,0,0,0).
    let mut data = header(2, 1, 4, 0);
    data.push(53);
    data.push(0);
    data.extend_from_slice(&end_marker());
    let img = QoiImage::decode(&data).unwrap();
    assert_eq!(img.pixels, vec![0, 0, 0, 255, 0, 0, 0, 0]);
}

#[test]
fn index_opcode_reproduces_older_pixel() {
    let p = Pixel(10, 20, 30, 40);
    let slot = p.hash() as u8;
    assert_eq!(slot, 12);
    let mut data = header(3, 1, 4, 0);
    data.extend_from_slice(&[0xFF, 10, 20, 30, 40]);
    data.extend_from_slice(&[0xFF, 200, 201, 202, 203]);
    data.push(slot);
    data.extend_from_slice(&end_marker());
    let img = QoiImage::decode(&data).unwrap();
    assert_eq!(
        img.pixels,
        vec![10, 20, 30, 40, 200, 201, 202, 203, 10, 20, 30, 40]
    );
}

#[test]
fn diff_opcode_applies_biased_deltas() {
    // From the initial pixel (0,0,0,255): dr=+1, dg=0, db=-2.
    let op = 0x40 | (3 << 4) | (2 << 2) | 0;
    let mut data = header(1, 1, 4, 0);
    data.push(op);
    data.extend_from_slice(&end_marker());
    let img = QoiImage::decode(&data).unwrap();
    assert_eq!(img.pixels, vec![1, 0, 254, 255]);
}

#[test]
fn diff_opcode_wraps_around() {
    // dr=-1 from r=0 wraps to 255; alpha stays.
    let op = 0x40 | (1 << 4) | (2 << 2) | 2;
    let mut data = header(1, 1, 4, 0);
    data.push(op);
    data.extend_from_slice(&end_marker());
    let img = QoiImage::decode(&data).unwrap();
    assert_eq!(img.pixels, vec![255, 0, 0, 255]);
}

#[test]
fn luma_opcode_applies_deltas() {
    // dg = +5 (low six bits 37), dr-dg = -3 (nibble 5), db-dg = +2 (nibble 10).
    let mut data = header(1, 1, 4, 0);
    data.extend_from_slice(&[0x80 | 37, 0x5A]);
    data.extend_from_slice(&end_marker());
    let img = QoiImage::decode(&data).unwrap();
    assert_eq!(img.pixels, vec![2, 5, 7, 255]);
}

#[test]
fn luma_opcode_wraps_around() {
    // dg = -32 (low six bits 0) from g=0 wraps to 224.
    let mut data = header(1, 1, 4, 0);
    data.extend_from_slice(&[0x80, 0x88]); // dr-dg = 0, db-dg = 0
    data.extend_from_slice(&end_marker());
    let img = QoiImage::decode(&data).unwrap();
    assert_eq!(img.pixels, vec![224, 224, 224, 255]);
}

#[test]
fn run_opcode_repeats_previous_pixel() {
    // One RGB pixel, then a run of 3 (embedded value 2): 4 pixels in all.
    let mut data = header(4, 1, 3, 0);
    data.extend_from_slice(&[0xFE, 10, 20, 30]);
    data.push(0xC0 | 2);
    data.extend_from_slice(&end_marker());
    let img = QoiImage::decode(&data).unwrap();
    assert_eq!(img.pixels, vec![10, 20, 30, 10, 20, 30, 10, 20, 30, 10, 20, 30]);
    assert_eq!(img.pixels.len(), 4 * 1 * 3);
}

#[test]
fn run_opcode_embedded_zero_is_one_copy() {
    let mut data = header(2, 1, 4, 0);
    data.extend_from_slice(&[0xFF, 1, 2, 3, 4]);
    data.push(0xC0);
    data.extend_from_slice(&end_marker());
    let img = QoiImage::decode(&data).unwrap();
    assert_eq!(img.pixels, vec![1, 2, 3, 4, 1, 2, 3, 4]);
}

#[test]
fn run_opcode_does_not_disturb_history() {
    // A pixel, a run, then an INDEX of the pixel's own slot: the run must
    // not have moved anything in the cache.
    let p = Pixel(10, 20, 30, 40);
    let slot = p.hash() as u8;
    let mut data = header(4, 1, 4, 0);
    data.extend_from_slice(&[0xFF, 10, 20, 30, 40]);
    data.push(0xC0 | 1); // run of 2
    data.push(slot);
    data.extend_from_slice(&end_marker());
    let img = QoiImage::decode(&data).unwrap();
    assert_eq!(img.pixels.len(), 4 * 1 * 4);
    for chunk in img.pixels.chunks(4) {
        assert_eq!(chunk, &[10, 20, 30, 40]);
    }
}

#[test]
fn run_capped_at_image_end() {
    // The first pixel already fills the 1x1 target, so the run opcode is
    // never read: it is treated as the start of the end marker region.
    let mut data = header(1, 1, 3, 0);
    data.extend_from_slice(&[0xFE, 10, 20, 30]);
    data.push(0xC0 | 1);
    data.extend_from_slice(&end_marker());
    assert_eq!(QoiImage::decode(&data).unwrap_err(), QoiError::InvalidEndMarker);

    // A run of two that starts with only one pixel left stops at the
    // target: the output holds exactly width * height * channels bytes.
    let mut data = header(1, 2, 3, 0);
    data.extend_from_slice(&[0xFE, 10, 20, 30]);
    data.push(0xC0 | 1);
    data.extend_from_slice(&end_marker());
    let img = QoiImage::decode(&data).unwrap();
    assert_eq!(img.pixels, vec![10, 20, 30, 10, 20, 30]);
    assert_eq!(img.pixels.len(), 1 * 2 * 3);
}

#[test]
fn trailing_bytes_after_marker_ignored() {
    let mut data = header(0, 0, 3, 0);
    data.extend_from_slice(&end_marker());
    data.extend_from_slice(&[0xAB, 0xCD]);
    assert!(QoiImage::decode(&data).is_ok());
}

#[test]
fn output_length_matches_geometry() {
    // 2x2, four channels, all pixels from single-pixel opcodes.
    let mut data = header(2, 2, 4, 1);
    data.extend_from_slice(&[0xFF, 1, 1, 1, 1]);
    data.extend_from_slice(&[0xFE, 2, 2, 2]);
    data.push(0x40 | (2 << 4) | (2 << 2) | 2); // dr=dg=db=0
    data.push(0xC0); // run of 1
    data.extend_from_slice(&end_marker());
    let img = QoiImage::decode(&data).unwrap();
    assert_eq!(img.pixels.len(), 2 * 2 * 4);
}

#[test]
fn geometry_helpers() {
    let mut data = header(2, 1, 3, 0);
    data.extend_from_slice(&[0xFE, 1, 2, 3, 0xC0]);
    data.extend_from_slice(&end_marker());
    let img = QoiImage::decode(&data).unwrap();
    assert_eq!(img.bytes_per_pixel(), 3);
    assert_eq!(img.pitch(), 6);

    let mut data = header(2, 1, 4, 0);
    data.extend_from_slice(&[0xFF, 1, 2, 3, 4, 0xC0]);
    data.extend_from_slice(&end_marker());
    let img = QoiImage::decode(&data).unwrap();
    assert_eq!(img.bytes_per_pixel(), 4);
    assert_eq!(img.pitch(), 8);
}

#[test]
fn big_endian_geometry() {
    let mut data = header(0x0102, 0, 3, 0);
    data.extend_from_slice(&end_marker());
    let img = QoiImage::decode(&data).unwrap();
    assert_eq!(img.width, 0x0102);
    assert_eq!(img.height, 0);
}
