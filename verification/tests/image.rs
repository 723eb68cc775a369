use bitsy_dialog::image::{parse_image, pick_frame_index, pick_raw_frame, IMAGE_HEADER_SIZE};

#[test]
fn parse_image_encodes_an_8x8_cell() {
    let mut pixels = vec![0u8; 64];
    pixels[0] = 1;
    pixels[1] = 1;
    pixels[2] = 0;
    pixels[3] = 1;
    let raw = parse_image(&pixels, 2);
    assert_eq!(raw.len(), IMAGE_HEADER_SIZE + 32);
    assert_eq!(&raw[0..5], &[0x21, 4, 8, 0, 255]);
    assert_eq!(
        &raw[5..13],
        &[0x01, 0x23, 0x45, 0x67, 0x89, 0xAB, 0xCD, 0xEF]
    );
    // First byte packs pixels 0 and 1, each multiplied by the primary.
    assert_eq!(raw[13], (2 << 4) | 2);
    // Second byte packs pixels 2 and 3.
    assert_eq!(raw[14], 2);
    assert!(raw[15..].iter().all(|&b| b == 0));
}

#[test]
fn parse_image_marks_a_16x16_cell_as_wide() {
    let pixels = vec![1u8; 256];
    let raw = parse_image(&pixels, 1);
    assert_eq!(raw.len(), IMAGE_HEADER_SIZE + 128);
    assert_eq!(raw[2], 16);
    assert!(raw[13..].iter().all(|&b| b == 0x11));
}

#[test]
fn pick_raw_frame_cycles_in_order() {
    let frames = vec![vec![1u8], vec![2u8], vec![3u8]];
    assert_eq!(pick_raw_frame(&frames, 0), &vec![1u8]);
    assert_eq!(pick_raw_frame(&frames, 1), &vec![2u8]);
    assert_eq!(pick_raw_frame(&frames, 2), &vec![3u8]);
    assert_eq!(pick_raw_frame(&frames, 3), &vec![1u8]);
    assert_eq!(pick_raw_frame(&frames, 100), &vec![2u8]);
}

#[test]
fn pick_frame_index_wraps() {
    assert_eq!(pick_frame_index(1, 999), 0);
    assert_eq!(pick_frame_index(4, 6), 2);
}
