use udpstream::hub75::{to_hub75_data, Rgb, RgbImage};
use udpstream::packet::packetize;
use udpstream::video::{render_test_pattern, rgb888_frame_to_565, rgb888_to_565};

#[test]
fn rgb888_to_565_keeps_the_top_bits() {
    assert_eq!(rgb888_to_565(255, 255, 255), 0xFFFF);
    assert_eq!(rgb888_to_565(255, 0, 0), 0xF800);
    assert_eq!(rgb888_to_565(0, 255, 0), 0x07E0);
    assert_eq!(rgb888_to_565(0, 0, 255), 0x001F);
    assert_eq!(rgb888_to_565(0, 0, 0), 0x0000);
    assert_eq!(rgb888_to_565(8, 4, 8), (1 << 11) | (1 << 5) | 1);
}

#[test]
fn clear_pattern_is_all_zero() {
    let frame = render_test_pattern(7, 2, 2, true);
    assert_eq!(frame, vec![0u8; 8]);
}

#[test]
fn test_pattern_scrolls_with_lines_and_counter() {
    let frame = render_test_pattern(0, 2, 2, false);
    // Line 0 has gray 0, line 1 has gray 4; rgb888_to_565(4,4,4) = 32.
    assert_eq!(frame, vec![0, 0, 0, 0, 32, 0, 32, 0]);
    let frame = render_test_pattern(1, 2, 2, false);
    // With counter 1, line 0 already has gray 4.
    assert_eq!(&frame[0..2], &[32, 0]);
}

#[test]
fn live_frame_conversion_packs_little_endian() {
    let input: Vec<u8> = vec![255, 0, 0, 0, 255, 0, 0, 0, 255];
    let frame = rgb888_frame_to_565(&input);
    assert_eq!(frame, vec![0x00, 0xF8, 0xE0, 0x07, 0x1F, 0x00]);
}

#[test]
fn one_full_live_frame_covers_the_panel_without_gaps() {
    // A 64x64 live frame: exactly frame_pixels * 3 input bytes give one
    // frame, and the packetizer emits offsets 0, 1024, ... 7168.
    let frame_pixels = 64 * 64;
    let input = vec![255u8; frame_pixels * 3];
    let frame = rgb888_frame_to_565(&input);
    assert_eq!(frame.len(), frame_pixels * 2);
    let packets = packetize(&frame, 1024);
    assert_eq!(packets.len(), 8);
    let mut expected_offset = 0usize;
    for p in &packets {
        let offset = u16::from_be_bytes([p[0], p[1]]) as usize;
        assert_eq!(offset, expected_offset);
        assert_eq!(p.len(), 2 + 1024);
        expected_offset += 1024;
    }
    assert_eq!(expected_offset, frame.len());
}

#[test]
fn hub75_data_places_pixels_and_headers() {
    let image = RgbImage::new(1, 1, vec![Rgb { r: 255, g: 0, b: 0 }]).unwrap();
    let data = to_hub75_data(&image);
    assert_eq!(data.len(), 8208);
    // Block 0 header: offset 0.
    assert_eq!(&data[0..2], &[0x00, 0x00]);
    // The one pixel, RGB565 0xF800 little-endian.
    assert_eq!(data[2], 0x00);
    assert_eq!(data[3], 0xF8);
    // Outside the image everything stays black.
    assert_eq!(data[4], 0);
    assert_eq!(data[5], 0);
    // Block headers carry big-endian offsets 1024 * b.
    for b in 1..8usize {
        let at = 1026 * b;
        let offset = u16::from_be_bytes([data[at], data[at + 1]]) as usize;
        assert_eq!(offset, 1024 * b);
    }
}

#[test]
fn hub75_image_dimensions_must_match_the_pixel_count() {
    assert!(RgbImage::new(2, 2, vec![Rgb { r: 0, g: 0, b: 0 }; 4]).is_some());
    assert!(RgbImage::new(2, 2, vec![Rgb { r: 0, g: 0, b: 0 }; 3]).is_none());
}
