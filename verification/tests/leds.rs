use iidx_core::rgb::{
    button_colours, colour_bit, interleave_frame, pack_word, parallel_clock_divider,
    rainbow_frame, Rgb8,
};

#[test]
fn test_rgb8_new_and_default() {
    let c = Rgb8::new(1, 2, 3);
    assert_eq!(c.r, 1);
    assert_eq!(c.g, 2);
    assert_eq!(c.b, 3);
    let d = Rgb8::default();
    assert_eq!((d.r, d.g, d.b), (0, 0, 0));
}

#[test]
fn test_colour_bit_order() {
    // Green is sent first, most significant bit first.
    let c = Rgb8::new(0x00, 0b1000_0001, 0x00);
    assert!(colour_bit(c, 0)); // MSB of green
    for bit in 1..7 {
        assert!(!colour_bit(c, bit));
    }
    assert!(colour_bit(c, 7)); // LSB of green
    // Red occupies bits 8..16, blue 16..24.
    let c = Rgb8::new(0xFF, 0x00, 0x00);
    for bit in 0..8 {
        assert!(!colour_bit(c, bit));
        assert!(colour_bit(c, 8 + bit));
        assert!(!colour_bit(c, 16 + bit));
    }
}

#[test]
fn test_interleave_two_strips() {
    // Strip 0 red, strip 1 green, one LED each.
    let frame = vec![vec![Rgb8::new(0xFF, 0x00, 0x00)], vec![Rgb8::new(0x00, 0xFF, 0x00)]];
    let words = interleave_frame(&frame, 1);
    assert_eq!(words.len(), 24);
    // Green bytes first: only strip 1 has green set.
    assert_eq!(words[0], 0b10);
    for k in 0..8 {
        assert_eq!(words[k], 0b10);
    }
    // Then red: only strip 0.
    for k in 8..16 {
        assert_eq!(words[k], 0b01);
    }
    // Then blue: neither.
    for k in 16..24 {
        assert_eq!(words[k], 0b00);
    }
}

#[test]
fn test_interleave_msb_first_within_byte() {
    let frame = vec![vec![Rgb8::new(0x00, 0b1000_0001, 0x00)]];
    let words = interleave_frame(&frame, 1);
    assert_eq!(words[0], 1); // MSB of the green byte comes first
    for k in 1..7 {
        assert_eq!(words[k], 0);
    }
    assert_eq!(words[7], 1); // LSB of the green byte comes last
}

#[test]
fn test_interleave_multiple_leds() {
    // Two LEDs per strip: word k = led*24 + b.
    let frame = vec![vec![Rgb8::new(0, 0, 0), Rgb8::new(0, 0x80, 0)]];
    let words = interleave_frame(&frame, 2);
    assert_eq!(words.len(), 48);
    assert_eq!(words[0], 0); // LED 0 green MSB
    assert_eq!(words[24], 1); // LED 1 green MSB
    assert_eq!(words[25], 0);
}

#[test]
fn test_pack_word_matches_interleave() {
    let frame = vec![vec![Rgb8::new(0x12, 0x34, 0x56)], vec![Rgb8::new(0x9A, 0xBC, 0xDE)]];
    let words = interleave_frame(&frame, 1);
    for bit in 0..24 {
        assert_eq!(words[bit], pack_word(&frame, 0, bit));
    }
}

#[test]
fn test_rainbow_frame_matches_conversion() {
    // The frame must hold the real conversions, hue wrapping around the
    // circle, not the inputs handed through.
    let frame = rainbow_frame(250, 10);
    assert_eq!(frame.len(), 10);
    for (i, c) in frame.iter().enumerate() {
        let hue = 250u8.wrapping_add(i as u8);
        let expected = smart_leds::hsv::hsv2rgb(smart_leds::hsv::Hsv {
            hue,
            sat: 255,
            val: 128,
        });
        assert_eq!((c.r, c.g, c.b), (expected.r, expected.g, expected.b), "led {}", i);
    }
    // And at least one LED differs from a raw copy of its inputs.
    assert_ne!((frame[0].r, frame[0].g, frame[0].b), (250, 255, 128));
}

#[test]
fn test_button_colours_values() {
    let c = button_colours();
    assert_eq!(c.len(), 3);
    assert_eq!((c[0].r, c[0].g, c[0].b), (0xA2, 0x2B, 0x95));
    assert_eq!((c[1].r, c[1].g, c[1].b), (0x12, 0x34, 0x56));
    assert_eq!((c[2].r, c[2].g, c[2].b), (0x63, 0x6A, 0x2C));
}

#[test]
fn test_parallel_clock_divider() {
    // 125 MHz system clock over the 8 MHz word-bit clock.
    assert_eq!(parallel_clock_divider(125_000_000), 15);
    assert_eq!(parallel_clock_divider(8_000_000), 1);
}
