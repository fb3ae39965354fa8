use iidx_core::button::{buttons_to_bitstring, poll_buttons, ButtonState};
use iidx_core::encoder::{decode_phases, gcd, sample_clock_divider, transition_delta, EncoderState};
use iidx_core::usb::{make_report, next_encoder_reading, MyDeviceHandler};

/// The canonical bank: seven gameplay keys at bits 0..7, four menu keys at
/// bits 8..12, bit 7 reserved.
fn canonical_bank() -> Vec<ButtonState> {
    let indices: [u16; 11] = [0, 1, 2, 3, 4, 5, 6, 8, 9, 10, 11];
    let mut bank = Vec::new();
    for &i in indices.iter() {
        bank.push(ButtonState::new(i));
    }
    bank
}

#[test]
fn test_button_state_new() {
    let b = ButtonState::new(3);
    assert_eq!(b.output_index, 3);
    assert!(!b.pressed);
    assert_eq!(b.transition_time, 0);
}

#[test]
fn test_debounce_press_hold_release() {
    let mut b = ButtonState::new(0);
    // Key goes down and stays down for 10 ms.
    b.debounce_step(true, 5_000);
    assert!(b.pressed);
    assert_eq!(b.transition_time, 5_000);
    b.debounce_step(true, 10_000);
    assert!(b.pressed);
    // Release after the hold; the debounce window has long passed.
    b.debounce_step(false, 15_000);
    assert!(!b.pressed);
    assert_eq!(b.transition_time, 15_000);

    let mut bank = vec![b];
    bank[0].debounce_step(true, 25_000);
    let mask = buttons_to_bitstring(&bank);
    assert_eq!(mask, 0x0001);
    bank[0].debounce_step(false, 35_000);
    let mask = buttons_to_bitstring(&bank);
    assert_eq!(mask, 0x0000);
}

#[test]
fn test_debounce_glitch_rejected() {
    let mut b = ButtonState::new(0);
    // A 1 ms low pulse inside the debounce window commits nothing.
    b.debounce_step(true, 1_000);
    assert!(!b.pressed);
    b.debounce_step(false, 2_000);
    assert!(!b.pressed);
    let bank = vec![b];
    assert_eq!(buttons_to_bitstring(&bank), 0x0000);
}

#[test]
fn test_debounce_no_double_transition_within_window() {
    let mut b = ButtonState::new(0);
    b.debounce_step(true, 10_000);
    assert!(b.pressed);
    // The opposite reading arrives 4 ms or less after the commit: held.
    b.debounce_step(false, 14_000);
    assert!(b.pressed);
    // Just past the window it commits.
    b.debounce_step(false, 14_001);
    assert!(!b.pressed);
}

#[test]
fn test_poll_buttons_whole_bank() {
    let mut bank = canonical_bank();
    let mut raw = vec![false; 11];
    raw[0] = true;
    raw[7] = true; // the first menu key, at mask bit 8
    poll_buttons(&mut bank, &raw, 10_000);
    assert!(bank[0].pressed);
    assert!(bank[7].pressed);
    assert!(!bank[1].pressed);
    let mask = buttons_to_bitstring(&bank);
    assert_eq!(mask, 0x0101);
}

#[test]
fn test_mask_round_trip_all_pressed() {
    let mut bank = canonical_bank();
    let raw = vec![true; 11];
    poll_buttons(&mut bank, &raw, 10_000);
    let mask = buttons_to_bitstring(&bank);
    // All eleven assigned bits set; bit 7 and bits 12..16 stay clear.
    assert_eq!(mask, 0x0F7F);
    for b in bank.iter() {
        assert_eq!((mask >> b.output_index) & 1, 1);
    }
}

#[test]
fn test_report_simultaneous_keys() {
    let mut bank = canonical_bank();
    let mut raw = vec![false; 11];
    raw[0] = true; // gameplay key 1
    raw[7] = true; // menu key 1
    poll_buttons(&mut bank, &raw, 10_000);
    let mask = buttons_to_bitstring(&bank);
    let report = make_report(mask, 42);
    assert_eq!(report.buttons, 0x01);
    assert_eq!(report.buttons_menu, 0x01);
    assert_eq!(report.tt, 42);
}

#[test]
fn test_report_fields_and_bytes() {
    let report = make_report(0x0FFF, 200);
    assert_eq!(report.buttons, 0xFF);
    assert_eq!(report.buttons_menu, 0x0F);
    assert_eq!(report.tt, 200);
    assert!(report.buttons_menu < 16);
    let bytes = report.as_bytes();
    assert_eq!(bytes, vec![0xFF, 0x0F, 200]);
}

#[test]
fn test_next_encoder_reading() {
    assert_eq!(next_encoder_reading(5, None), 5);
    assert_eq!(next_encoder_reading(5, Some(9)), 9);
}

#[test]
fn test_encoder_full_revolution_single_edges() {
    // Scenario: +1440 raw edges, one per loop iteration.
    let mut e = EncoderState::new();
    let mut increments = 0u32;
    let mut last_reported = e.reported;
    for raw in 1..=1440i32 {
        e.update(raw);
        if e.reported != last_reported {
            increments += 1;
            assert_eq!(e.reported, last_reported.wrapping_add(1));
            last_reported = e.reported;
        }
    }
    assert_eq!(e.reported, 144);
    assert_eq!(increments, 144);
    assert_eq!(e.rolling_delta, 0);
}

#[test]
fn test_encoder_full_revolution_batched() {
    // The same revolution in uneven batches leaves the same state.
    let mut e = EncoderState::new();
    let mut raw = 0i32;
    let batches = [7i32, 13, 700, 680, 39, 1];
    for d in batches.iter() {
        raw += d;
        e.update(raw);
    }
    assert_eq!(raw, 1440);
    assert_eq!(e.reported, 144);
    assert_eq!(e.rolling_delta, 0);
}

#[test]
fn test_encoder_reverse_wraps_u8() {
    // Scenario: -10 raw edges from reported = 0.
    let mut e = EncoderState::new();
    e.update(-10);
    assert_eq!(e.reported, 255);
    assert_eq!(e.rolling_delta, 0);
}

#[test]
fn test_encoder_rolling_delta_stays_in_range() {
    let mut e = EncoderState::new();
    let raws = [3i32, 5, -2, 40, -41, 9, 1000, -999];
    let mut raw = 0i32;
    for d in raws.iter() {
        raw += d;
        e.update(raw);
        assert!(e.rolling_delta >= 0);
        assert!(e.rolling_delta < 10);
    }
}

#[test]
fn test_encoder_raw_counter_wraparound() {
    // One forward edge across the i32 boundary is one forward edge.
    let mut e = EncoderState { last_raw: i32::MAX, rolling_delta: 0, reported: 0 };
    e.update(i32::MIN);
    assert_eq!(e.rolling_delta, 1);
    assert_eq!(e.reported, 0);
    assert_eq!(e.last_raw, i32::MIN);
}

#[test]
fn test_gcd_values() {
    assert_eq!(gcd(1440, 144), 144);
    assert_eq!(gcd(144, 1440), 144);
    assert_eq!(gcd(12, 18), 6);
    assert_eq!(gcd(7, 0), 7);
    assert_eq!(gcd(0, 9), 9);
}

#[test]
fn test_transition_table() {
    // prev -> curr, expected counter movement, row by row.
    let expected: [[i32; 4]; 4] = [
        [0, -1, 1, 0],
        [1, 0, 0, -1],
        [-1, 0, 0, 1],
        [0, 1, -1, 0],
    ];
    for prev in 0..4u8 {
        for curr in 0..4u8 {
            assert_eq!(
                transition_delta(prev, curr),
                expected[prev as usize][curr as usize],
                "prev={} curr={}",
                prev,
                curr
            );
        }
    }
}

#[test]
fn test_decode_phases_cycles() {
    // One full forward Gray cycle moves the counter by +4.
    let forward = vec![2u8, 3, 1, 0];
    assert_eq!(decode_phases(0, &forward), 4);
    // The reverse cycle moves it by -4.
    let reverse = vec![1u8, 3, 2, 0];
    assert_eq!(decode_phases(0, &reverse), -4);
    // A double-step (invalid transition) counts as no movement.
    let skip = vec![3u8];
    assert_eq!(decode_phases(0, &skip), 0);
}

#[test]
fn test_sample_clock_divider() {
    // 125 MHz system clock over the 720 kHz sample rate.
    assert_eq!(sample_clock_divider(125_000_000), 173);
    assert_eq!(sample_clock_divider(720_000), 1);
}

#[test]
fn test_device_handler_states() {
    let mut h = MyDeviceHandler::new();
    assert!(!h.configured);
    h.configured(true);
    assert!(h.configured);
    h.reset();
    assert!(!h.configured);
    h.configured(true);
    h.addressed(7);
    assert!(!h.configured);
    h.configured(true);
    h.enabled(true);
    assert!(!h.configured);
}
