use odyssey::display::{DisplayConfig, DisplayTest, Frame, PrintDisplay};

fn config(bit_depth: Vec<u8>, left_pad: u8, right_pad: u8, w: u32, h: u32) -> DisplayConfig {
    DisplayConfig {
        frame_buffer: b"/dev/fb0".to_vec(),
        bit_depth,
        left_pad,
        right_pad,
        screen_width: w,
        screen_height: h,
    }
}

#[test]
fn test_re_encode_565() {
    // Input buffer of 3 bytes
    let image_buffer: Vec<u8> = vec![0xFF, 0xFF, 0xFF];
    let image_bit_depth = 8;

    // Re-encoded for 565 bit schema
    let display_bit_depths = vec![5, 6, 5];

    // Should output two bytes, corresponding to 11111 111111 11111
    let expected_result = vec![0xFF, 0xFF];

    let result = PrintDisplay::_re_encode(image_buffer, image_bit_depth, &display_bit_depths);

    assert_eq!(result, expected_result);
}

#[test]
fn test_re_encode_noop() {
    // Input buffer of 3 bytes
    let image_buffer: Vec<u8> = vec![0xFF, 0xFF, 0xFF];
    let image_bit_depth = 8;

    // no-op re-encoded for 8 bit display
    let display_bit_depths = vec![8];

    // Should output exactly what came in
    let expected_result = vec![0xFF, 0xFF, 0xFF];

    let result = PrintDisplay::_re_encode(image_buffer, image_bit_depth, &display_bit_depths);

    assert_eq!(result, expected_result);
}

#[test]
fn re_encode_three_bit_pack_with_right_pad() {
    // Eight 3-bit pixels and an 8-bit right pad: 32-bit chunks, LSB first.
    let input = vec![0xFFu8; 8];
    let widths = vec![3u8; 8];
    let out = PrintDisplay::re_encode_format(input, 8, &widths, 0, 8);
    assert_eq!(out, vec![0x00, 0xFF, 0xFF, 0xFF]);
}

#[test]
fn re_encode_single_byte_passthrough() {
    let out = PrintDisplay::_re_encode(vec![0xFF], 8, &vec![8]);
    assert_eq!(out, vec![0xFF]);
}

#[test]
fn re_encode_all_ones_keeps_length_when_widths_fill_chunk() {
    // Two 8-bit sub-pixels fill their chunk exactly: all-ones in, all-ones out.
    let input = vec![0xFFu8; 6];
    let widths = vec![8u8, 8];
    let out = PrintDisplay::re_encode_format(input, 8, &widths, 0, 0);
    assert_eq!(out, vec![0xFFu8; 6]);
}

#[test]
fn re_encode_truncates_to_high_bits() {
    // 0xF0 truncated to its top 4 bits twice: 1111 1111 in one byte.
    let out = PrintDisplay::re_encode_format(vec![0xF0, 0x0F], 8, &vec![4, 4], 0, 0);
    assert_eq!(out, vec![0xF0]);
}

#[test]
fn display_test_patterns() {
    let display = PrintDisplay::new(config(vec![8], 0, 0, 4, 2));
    assert_eq!(display.display_test(DisplayTest::White), vec![0xFFu8; 8]);
    assert_eq!(display.display_test(DisplayTest::Blank), vec![0x00u8; 8]);
    // A 4x2 panel lies inside the first default-width stripe band.
    assert_eq!(display.display_test(DisplayTest::Grid), vec![0xFFu8; 8]);
    // The sweep ramps each row from 0 to 255 across the 4 columns.
    assert_eq!(
        display.display_test(DisplayTest::Dimensions),
        vec![0, 85, 170, 255, 0, 85, 170, 255]
    );
}

#[test]
fn stripe_pattern_alternates_along_diagonals() {
    let display = PrintDisplay::new(config(vec![8], 0, 0, 4, 2));
    assert_eq!(
        display.stripe_pattern(1),
        vec![0xFF, 0x00, 0xFF, 0x00, 0x00, 0xFF, 0x00, 0xFF]
    );
    assert_eq!(
        display.stripe_pattern(2),
        vec![0xFF, 0xFF, 0x00, 0x00, 0xFF, 0x00, 0x00, 0xFF]
    );
}

#[test]
fn sweep_pattern_is_capped_by_the_narrowest_subpixel() {
    // Narrowest width 5: the sweep tops out at 2^5 - 1 = 31.
    let display = PrintDisplay::new(config(vec![5, 6, 5], 0, 0, 3, 1));
    assert_eq!(display.sweep_pattern(), vec![0, 15, 31]);
}

fn encode_png(width: u32, height: u32, data: &[u8]) -> Vec<u8> {
    let mut out: Vec<u8> = Vec::new();
    {
        let mut encoder = png::Encoder::new(std::io::Cursor::new(&mut out), width, height);
        encoder.set_color(png::ColorType::Grayscale);
        encoder.set_depth(png::BitDepth::Eight);
        let mut writer = encoder.write_header().expect("png header");
        writer.write_image_data(data).expect("png data");
    }
    out
}

#[test]
fn frame_from_vec_decodes_png() {
    // The decoder must hand back the actual samples, not its input.
    let pixels = vec![0u8, 64, 128, 255];
    let png_bytes = encode_png(2, 2, &pixels);
    assert_ne!(png_bytes, pixels);
    let frame = Frame::from_vec(b"layer.png".to_vec(), 2500, png_bytes).expect("decode");
    assert_eq!(frame.buffer, pixels);
    assert_eq!(frame.bit_depth, 8);
    assert_eq!(frame.exposure_time_ms, 2500);
    assert_eq!(frame.file_name, b"layer.png".to_vec());
}

#[test]
fn frame_from_vec_rejects_garbage() {
    let err = Frame::from_vec(b"x".to_vec(), 1, vec![1, 2, 3]).unwrap_err();
    assert!(matches!(err.error_type, odyssey::error::ErrorType::PrintError));
}

#[test]
fn display_frame_checked_rejects_wrong_depth() {
    let display = PrintDisplay::new(config(vec![5, 6, 5], 0, 0, 2, 1));
    let pixels = vec![0xFFu8, 0xFF];
    let png_bytes = encode_png(2, 1, &pixels);
    let mut frame = Frame::from_vec(b"a.png".to_vec(), 1, png_bytes).expect("decode");
    // Source depths other than 8 or 16 bits per pixel are refused.
    frame.bit_depth = 3;
    let err = display.display_frame_checked(frame).unwrap_err();
    assert!(matches!(err.error_type, odyssey::error::ErrorType::HardwareError));
}

#[test]
fn display_frame_encodes_for_panel() {
    let display = PrintDisplay::new(config(vec![5, 6, 5], 0, 0, 3, 1));
    let pixels = vec![0xFFu8, 0xFF, 0xFF];
    let png_bytes = encode_png(3, 1, &pixels);
    let frame = Frame::from_vec(b"a.png".to_vec(), 1, png_bytes).expect("decode");
    let out = display.display_frame_checked(frame).expect("encode");
    assert_eq!(out, vec![0xFF, 0xFF]);
}

#[test]
fn re_encode_empty_buffer_is_empty() {
    let out = PrintDisplay::re_encode_format(Vec::new(), 8, &vec![5, 6, 5], 0, 0);
    assert!(out.is_empty());
    let out = PrintDisplay::_re_encode(Vec::new(), 8, &vec![8]);
    assert!(out.is_empty());
}

#[test]
fn re_encode_drops_a_trailing_partial_group() {
    // Five bytes in groups of three: the dangling two are not emitted.
    let out = PrintDisplay::re_encode_format(vec![0xFF; 5], 8, &vec![5, 6, 5], 0, 0);
    assert_eq!(out, vec![0xFF, 0xFF]);
}
