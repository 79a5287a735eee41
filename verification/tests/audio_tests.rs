use udpstream::audio::{advance_counter, counter_period, encode_volume_packet, fill_audio_frame, sample_value};

#[test]
fn period_for_48000_hz_at_440_hz_is_109() {
    assert_eq!(counter_period(48000, 440), 109);
}

#[test]
fn sample_at_counter_zero_is_the_most_negative_value() {
    // round(65535 * 0 / 109) - 32768 = -32768, whose unsigned 16-bit
    // two's-complement pattern is 32768.
    assert_eq!(sample_value(0, 109), 32768);
}

#[test]
fn counter_wraps_after_the_period() {
    assert_eq!(advance_counter(108, 109), 0);
    let mut c = 0u32;
    for _ in 0..109 {
        c = advance_counter(c, 109);
    }
    assert_eq!(c, 0);
}

#[test]
fn frame_bytes_duplicate_each_sample_little_endian() {
    let mut buf = vec![0u8; 1024];
    let next = fill_audio_frame(&mut buf, 0, 109);
    // Sample 0: 32768 = 0x8000 -> low 0x00, high 0x80, twice.
    assert_eq!(&buf[0..4], &[0x00, 0x80, 0x00, 0x80]);
    // Sample 1: round(65535 / 109) = 601; 601 + 32768 = 33369 = 0x8259.
    assert_eq!(sample_value(1, 109), 33369);
    assert_eq!(&buf[4..8], &[0x59, 0x82, 0x59, 0x82]);
    // 256 samples were produced; the counter continued from there.
    assert_eq!(next, 256 % 109);
}

#[test]
fn ramp_is_monotone_within_one_period() {
    // Interpreting each sample's bit pattern as a signed value, the ramp
    // climbs from -32768 across the period.
    assert_eq!(sample_value(0, 109) as i16, -32768);
    let mut previous = i32::MIN;
    for c in 0..109 {
        let signed = sample_value(c, 109) as i16 as i32;
        assert!(signed >= previous);
        previous = signed;
    }
}

#[test]
fn volume_packet_layout_is_little_endian_pairs() {
    let p = encode_volume_packet(32768, 1, 0x1234, 65535);
    assert_eq!(
        p,
        vec![0, 0x00, 0x80, 0x01, 0x00, 0x34, 0x12, 0xFF, 0xFF]
    );
}

#[test]
fn period_of_one_pins_the_counter_at_zero() {
    assert_eq!(advance_counter(0, 1), 0);
    assert_eq!(sample_value(0, 1), 32768);
}
