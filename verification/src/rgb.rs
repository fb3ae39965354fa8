use vstd::prelude::*;
use vstd::arithmetic::div_mod::lemma_fundamental_div_mod_converse;

verus! {

/// Milliseconds for the rolling rainbow to pass through all 256 hues.
pub const HUE_CYCLE_TIME_MS: u64 = 1000;

/// Frame period of the animation ticker: `HUE_CYCLE_TIME_MS / 256`, fixed
/// here as a literal and tied to the formula by `lemma_led_constants`.
pub const TICKER_TIME_MS: u64 = 3;

/// Cycles every strip is held high at the start of a bit period.
pub const T1: u32 = 3;

/// Extra cycles a strip stays high when its data bit is one.
pub const T2: u32 = 3;

/// Cycles every strip is held low at the end of a bit period.
pub const T3: u32 = 4;

/// State-machine cycles per serial bit: `T1 + T2 + T3`, fixed here as a
/// literal and tied to the formula by `lemma_led_constants`.
pub const CYCLES_PER_BIT: u32 = 10;

/// Serial bit rate of the WS2812 protocol, in hertz.
pub const WS2812_FREQ_HZ: u32 = 800000;

/// Serial bits per LED: one byte each of green, red and blue.
pub const NUM_LED_BITS: usize = 24;

/// Bits per colour channel.
pub const BITS_PER_COLOUR: usize = 8;

/// Length of each per-button chain.
pub const NUM_LEDS_PER_BUTTON: usize = 1;

/// Number of per-button chains driven in parallel.
pub const NUM_BUTTON_STRIPS: usize = 3;

/// Length of the long rainbow strip.
pub const NUM_STRIP_LEDS: usize = 26;

/// Saturation of the rolling rainbow.
pub const RAINBOW_SAT: u8 = 255;

/// Brightness of the rolling rainbow.
pub const RAINBOW_VAL: u8 = 128;

/// The timing constants are what their defining formulas say: the ticker
/// divides the hue cycle over the 256 hues, and a bit period is the three
/// pulse phases end to end.
pub proof fn lemma_led_constants()
    ensures
        TICKER_TIME_MS == HUE_CYCLE_TIME_MS / 256,
        CYCLES_PER_BIT == T1 + T2 + T3,
        NUM_LED_BITS == 3 * BITS_PER_COLOUR,
{
}

/// One LED's colour, eight bits per channel.
#[derive(Clone, Copy, PartialEq, Eq, Structural)]
pub struct Rgb8 {
    pub r: u8,
    pub g: u8,
    pub b: u8,
}

impl Rgb8 {
    pub fn new(r: u8, g: u8, b: u8) -> (c: Rgb8)
        ensures
            c == (Rgb8 { r, g, b }),
    {
        Rgb8 { r, g, b }
    }
}

impl Default for Rgb8 {
    /// Black: all channels off.
    fn default() -> (c: Rgb8)
        ensures
            c == (Rgb8 { r: 0u8, g: 0u8, b: 0u8 }),
    {
        Rgb8 { r: 0, g: 0, b: 0 }
    }
}

/// The `b`-th bit of an LED's 24-bit serial stream: green first, then red,
/// then blue, each byte sent most significant bit first.
pub open spec fn serial_bit(c: Rgb8, b: int) -> bool {
    let byte = if b < 8 {
        c.g
    } else if b < 16 {
        c.r
    } else {
        c.b
    };
    (byte >> ((7 - b % 8) as u8)) & 1 == 1
}

/// Whether bit `s` of a 32-bit word is set.
pub open spec fn word_bit(w: u32, s: u32) -> bool {
    (w >> s) & 1 == 1
}

/// Read the `bit`-th serial bit of one LED's colour.
pub fn colour_bit(c: Rgb8, bit: usize) -> (set: bool)
    requires
        bit < 24,
    ensures
        set == serial_bit(c, bit as int),
{
    let byte = if bit < 8 {
        c.g
    } else if bit < 16 {
        c.r
    } else {
        c.b
    };
    let shift = (7 - bit % 8) as u8;
    (byte >> shift) & 1 == 1
}

proof fn lemma_word_or_bit(x: u32, y: u32, k: u32)
    requires
        k < 32,
    ensures
        word_bit(x | y, k) == (word_bit(x, k) || word_bit(y, k)),
{
    assert(k < 32 ==> ((((x | y) >> k) & 1 == 1) == (((x >> k) & 1 == 1) || ((y >> k) & 1 == 1))))
        by (bit_vector);
}

proof fn lemma_word_shl_bit(c: u32, j: u32, k: u32)
    requires
        c <= 1,
        j < 32,
        k < 32,
    ensures
        word_bit(c << j, k) == (c == 1 && j == k),
{
    assert(c <= 1 && j < 32 && k < 32 ==> ((((c << j) >> k) & 1 == 1) == (c == 1 && j == k)))
        by (bit_vector);
}

proof fn lemma_word_zero_bit(k: u32)
    requires
        k < 32,
    ensures
        !word_bit(0u32, k),
{
    assert(k < 32 ==> (0u32 >> k) & 1 == 0) by (bit_vector);
}

/// Pack one word of the parallel bit stream: bit `s` of the result carries
/// the `bit`-th serial bit of strip `s`'s LED at position `led`; bit
/// positions above the strip count stay zero.
pub fn pack_word(colours: &Vec<Vec<Rgb8>>, led: usize, bit: usize) -> (w: u32)
    requires
        colours@.len() <= 32,
        bit < 24,
        forall|s: int| 0 <= s < colours@.len() ==> led < #[trigger] colours@[s]@.len(),
    ensures
        forall|s: u32|
            s < 32 ==> #[trigger] word_bit(w, s) == (s < colours@.len() && serial_bit(
                colours@[s as int]@[led as int],
                bit as int,
            )),
{
    let mut w: u32 = 0;
    let mut s: usize = 0;
    proof {
        assert forall|t: u32| t < 32 implies !word_bit(0u32, t) by {
            lemma_word_zero_bit(t);
        }
    }
    while s < colours.len()
        invariant
            colours@.len() <= 32,
            bit < 24,
            forall|t: int| 0 <= t < colours@.len() ==> led < #[trigger] colours@[t]@.len(),
            0 <= s <= colours@.len(),
            forall|t: u32|
                t < 32 ==> #[trigger] word_bit(w, t) == (t < s && serial_bit(
                    colours@[t as int]@[led as int],
                    bit as int,
                )),
        decreases colours@.len() - s,
    {
        let set = colour_bit(colours[s][led], bit);
        let c: u32 = if set {
            1
        } else {
            0
        };
        let ghost w0 = w;
        w = w | (c << (s as u32));
        proof {
            assert forall|t: u32| t < 32 implies #[trigger] word_bit(w, t) == (t < s + 1
                && serial_bit(colours@[t as int]@[led as int], bit as int)) by {
                lemma_word_or_bit(w0, c << (s as u32), t);
                lemma_word_shl_bit(c, s as u32, t);
            }
        }
        s = s + 1;
    }
    w
}

/// Word `led * 24 + b` is where strip bit `b` of LED `led` lives in the
/// parallel stream.
pub proof fn lemma_word_index(led: int, b: int)
    requires
        0 <= led,
        0 <= b < 24,
    ensures
        (led * 24 + b) / 24 == led,
        (led * 24 + b) % 24 == b,
{
    lemma_fundamental_div_mod_converse(led * 24 + b, 24, led, b);
}

/// One word of the parallel stream holds, in bit `s`, the serial bit of strip
/// `s` that its position `k` selects: bit `k % 24` of LED `k / 24`.
pub open spec fn word_ok(frame: Seq<Vec<Rgb8>>, w: u32, k: int) -> bool {
    forall|s: u32|
        s < 32 ==> #[trigger] word_bit(w, s) == (s < frame.len() && serial_bit(
            frame[s as int]@[k / 24],
            k % 24,
        ))
}

/// Interleave a parallel colour frame — `colours[strip][led]` — into the
/// word stream the parallel driver feeds to its state machine: `leds * 24`
/// words, where word `led * 24 + b` carries, in bit `s`, the `b`-th serial
/// bit of strip `s`'s LED at position `led`.
pub fn interleave_frame(colours: &Vec<Vec<Rgb8>>, leds: usize) -> (words: Vec<u32>)
    requires
        colours@.len() <= 32,
        forall|s: int| 0 <= s < colours@.len() ==> #[trigger] colours@[s]@.len() == leds,
        leds * 24 <= usize::MAX,
    ensures
        words@.len() == leds * 24,
        forall|k: int| 0 <= k < words@.len() ==> #[trigger] word_ok(colours@, words@[k], k),
{
    let mut words: Vec<u32> = Vec::new();
    let mut led: usize = 0;
    while led < leds
        invariant
            colours@.len() <= 32,
            forall|s: int| 0 <= s < colours@.len() ==> #[trigger] colours@[s]@.len() == leds,
            leds * 24 <= usize::MAX,
            0 <= led <= leds,
            words@.len() == led * 24,
            forall|k: int| 0 <= k < words@.len() ==> #[trigger] word_ok(colours@, words@[k], k),
        decreases leds - led,
    {
        let mut bit: usize = 0;
        proof {
            vstd::arithmetic::mul::lemma_mul_inequality(led as int + 1, leds as int, 24);
        }
        while bit < 24
            invariant
                colours@.len() <= 32,
                forall|s: int| 0 <= s < colours@.len() ==> #[trigger] colours@[s]@.len() == leds,
                led < leds,
                (led + 1) * 24 <= leds * 24 <= usize::MAX,
                0 <= bit <= 24,
                words@.len() == led * 24 + bit,
                forall|k: int| 0 <= k < words@.len() ==> #[trigger] word_ok(colours@, words@[k], k),
            decreases 24 - bit,
        {
            let w = pack_word(colours, led, bit);
            proof {
                lemma_word_index(led as int, bit as int);
                assert(word_ok(colours@, w, led as int * 24 + bit as int));
            }
            words.push(w);
            bit = bit + 1;
        }
        led = led + 1;
    }
    words
}

/// The result of converting one HSV colour to RGB, as the external conversion
/// primitive defines it.
pub uninterp spec fn hsv_rgb_of(hue: u8, sat: u8, val: u8) -> (u8, u8, u8);

/// Relies on smart_leds::hsv::hsv2rgb: a pure conversion whose result depends
/// on the three channel values alone.
#[verifier::external_body]
fn hsv_to_rgb(hue: u8, sat: u8, val: u8) -> (c: Rgb8)
    ensures
        (c.r, c.g, c.b) == hsv_rgb_of(hue, sat, val),
{
    let conv = smart_leds::hsv::hsv2rgb(smart_leds::hsv::Hsv { hue, sat, val });
    Rgb8 { r: conv.r, g: conv.g, b: conv.b }
}

/// The hue of LED `i` in a frame whose first LED shows `base`: one hue step
/// per position, wrapping around the hue circle.
pub open spec fn hue_at(base: u8, i: int) -> u8 {
    ((base + i) % 256) as u8
}

proof fn lemma_hue_inc(x: int, v: u8)
    requires
        v as int == x % 256,
    ensures
        vstd::wrapping::u8_specs::wrapping_add(v, 1) as int == (x + 1) % 256,
{
    vstd::arithmetic::div_mod::lemma_add_mod_noop_right(1, x, 256);
    if v == 255 {
        vstd::arithmetic::div_mod::lemma_mod_self_0(256);
    } else {
        vstd::arithmetic::div_mod::lemma_small_mod((v + 1) as nat, 256nat);
    }
}

/// One frame of the rolling rainbow: LED `i` shows hue `base_hue + i` (around
/// the hue circle) at full saturation and half brightness.
pub fn rainbow_frame(base_hue: u8, n: usize) -> (frame: Vec<Rgb8>)
    ensures
        frame@.len() == n,
        forall|i: int|
            0 <= i < n ==> ((#[trigger] frame@[i]).r, frame@[i].g, frame@[i].b) == hsv_rgb_of(
                hue_at(base_hue, i),
                RAINBOW_SAT,
                RAINBOW_VAL,
            ),
{
    let mut frame: Vec<Rgb8> = Vec::new();
    let mut hue = base_hue;
    let mut i: usize = 0;
    proof {
        vstd::arithmetic::div_mod::lemma_small_mod(base_hue as nat, 256nat);
    }
    while i < n
        invariant
            0 <= i <= n,
            frame@.len() == i,
            hue as int == (base_hue + i) % 256,
            forall|j: int|
                0 <= j < i ==> ((#[trigger] frame@[j]).r, frame@[j].g, frame@[j].b) == hsv_rgb_of(
                    hue_at(base_hue, j),
                    RAINBOW_SAT,
                    RAINBOW_VAL,
                ),
        decreases n - i,
    {
        frame.push(hsv_to_rgb(hue, RAINBOW_SAT, RAINBOW_VAL));
        proof {
            lemma_hue_inc(base_hue + i, hue);
        }
        hue = hue.wrapping_add(1);
        i = i + 1;
    }
    frame
}

/// The fixed colours of the three per-button LEDs.
pub fn button_colours() -> (c: Vec<Rgb8>)
    ensures
        c@.len() == NUM_BUTTON_STRIPS,
        c@[0] == (Rgb8 { r: 0xA2, g: 0x2B, b: 0x95 }),
        c@[1] == (Rgb8 { r: 0x12, g: 0x34, b: 0x56 }),
        c@[2] == (Rgb8 { r: 0x63, g: 0x6A, b: 0x2C }),
{
    let mut c: Vec<Rgb8> = Vec::new();
    c.push(Rgb8 { r: 0xA2, g: 0x2B, b: 0x95 });
    c.push(Rgb8 { r: 0x12, g: 0x34, b: 0x56 });
    c.push(Rgb8 { r: 0x63, g: 0x6A, b: 0x2C });
    c
}

/// Clock divider that slows the system clock to `CYCLES_PER_BIT` state-machine
/// cycles per WS2812 serial bit.
pub fn parallel_clock_divider(clock_freq: u32) -> (d: u32)
    ensures
        d == clock_freq as int / ((WS2812_FREQ_HZ * CYCLES_PER_BIT) as int),
{
    clock_freq / (WS2812_FREQ_HZ * CYCLES_PER_BIT)
}

} // verus!
