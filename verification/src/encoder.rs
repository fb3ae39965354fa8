use vstd::prelude::*;
use vstd::arithmetic::div_mod::{
    lemma_add_mod_noop_right, lemma_fundamental_div_mod, lemma_fundamental_div_mod_converse,
    lemma_hoist_over_denominator, lemma_small_mod,
};

verus! {

/// Edges per revolution of the turntable encoder: 360 physical pulses, each
/// seen as 4 quarter-step edges by the quadrature decoder.
pub const PPR: i32 = 1440;

/// Steps the reported 0..256 axis advances per revolution.
pub const TARGET_STEPS: i32 = 144;

/// The greatest common divisor of `PPR` and `TARGET_STEPS`; `lemma_gear_constants`
/// proves it equal to `gcd_spec(PPR, TARGET_STEPS)`.
pub const GEAR_GCD: i32 = 144;

/// Raw edges (scaled by `ENCODER_STEP`) that make up one reported step;
/// `PPR / GEAR_GCD`, fixed here as a literal and tied to the formula by
/// `lemma_gear_constants`.
pub const THRESHOLD: i32 = 10;

/// Scale applied to each raw edge before accumulation; `TARGET_STEPS / GEAR_GCD`,
/// fixed here as a literal and tied to the formula by `lemma_gear_constants`.
pub const ENCODER_STEP: i32 = 1;

/// Fastest rotation the sampling clock is sized for.
pub const EXPECTED_MAX_ROTATIONS_PER_SECOND: u32 = 50;

/// Sample clock for the quadrature decoder, ten samples per edge at the
/// fastest expected rotation; `lemma_gear_constants` ties it to the other
/// constants.
pub const REQUIRED_SAMPLE_CLOCK_RATE: u32 = 720000;

/// Euclid's greatest common divisor on non-negative integers.
pub open spec fn gcd_spec(n: nat, m: nat) -> nat
    decreases m,
{
    if m == 0 {
        n
    } else {
        gcd_spec(m, n % m)
    }
}

/// Greatest common divisor by Euclid's algorithm.
pub fn gcd(n: i32, m: i32) -> (g: i32)
    requires
        0 <= n,
        0 <= m,
    ensures
        g == gcd_spec(n as nat, m as nat),
    decreases m,
{
    if m == 0 {
        n
    } else {
        gcd(m, n % m)
    }
}

/// The gear-reduction constants are what the defining formulas say they are:
/// `GEAR_GCD` really is the gcd, so `THRESHOLD` and `ENCODER_STEP` are in
/// lowest terms, and the sample clock covers ten samples per edge at the
/// fastest expected rotation.
pub proof fn lemma_gear_constants()
    ensures
        GEAR_GCD == gcd_spec(PPR as nat, TARGET_STEPS as nat),
        THRESHOLD == PPR / GEAR_GCD,
        ENCODER_STEP == TARGET_STEPS / GEAR_GCD,
        PPR * ENCODER_STEP == THRESHOLD * TARGET_STEPS,
        REQUIRED_SAMPLE_CLOCK_RATE == PPR * 10 * EXPECTED_MAX_ROTATIONS_PER_SECOND,
{
    reveal_with_fuel(gcd_spec, 3);
    assert(1440nat % 144nat == 0);
    assert(gcd_spec(1440nat, 144nat) == 144nat);
}

/// Clock divider that slows the system clock to the decoder's required
/// sample rate.
pub fn sample_clock_divider(clock_freq: u32) -> (d: u32)
    ensures
        d == clock_freq as int / (REQUIRED_SAMPLE_CLOCK_RATE as int),
{
    clock_freq / REQUIRED_SAMPLE_CLOCK_RATE
}

/// The signed two's-complement difference between two successive samples of
/// the raw 32-bit edge counter, which wraps on overflow.
pub open spec fn raw_delta(last: i32, raw: i32) -> int {
    vstd::wrapping::i32_specs::wrapping_sub(raw, last) as int
}

/// Host-side state of the gear reduction from raw encoder edges to the
/// 256-step axis reported over USB.
pub struct EncoderState {
    /// Previous sample of the raw edge counter.
    pub last_raw: i32,
    /// Accumulated progress toward the next reported step, always in
    /// `[0, THRESHOLD)`.
    pub rolling_delta: i32,
    /// The axis value sent to the host; wraps modulo 256.
    pub reported: u8,
}

impl EncoderState {
    /// `rolling_delta` never leaves `[0, THRESHOLD)`.
    pub open spec fn wf(self) -> bool {
        0 <= self.rolling_delta < THRESHOLD
    }

    /// What one loop iteration does with a fresh raw counter sample: the
    /// scaled delta joins the rolling remainder, whole `THRESHOLD`s move the
    /// reported axis (modulo 256), and the remainder stays.
    pub open spec fn step_spec(self, raw: i32) -> EncoderState {
        let total = self.rolling_delta + raw_delta(self.last_raw, raw) * ENCODER_STEP;
        EncoderState {
            last_raw: raw,
            rolling_delta: (total % (THRESHOLD as int)) as i32,
            reported: ((self.reported + total / (THRESHOLD as int)) % 256) as u8,
        }
    }

    /// State at power-on: axis at zero, no pending progress.
    pub fn new() -> (s: EncoderState)
        ensures
            s.wf(),
            s.last_raw == 0,
            s.rolling_delta == 0,
            s.reported == 0,
    {
        EncoderState { last_raw: 0, rolling_delta: 0, reported: 0 }
    }

    /// Absorb one raw counter sample and return the axis value to publish.
    pub fn update(&mut self, raw: i32) -> (tt: u8)
        requires
            old(self).wf(),
        ensures
            final(self).wf(),
            *final(self) == old(self).step_spec(raw),
            tt == final(self).reported,
    {
        let ghost s0 = *self;
        let delta = raw.wrapping_sub(self.last_raw);
        self.last_raw = raw;

        proof {
            assert((delta as int) * (ENCODER_STEP as int) == delta as int);
        }
        let mut total: i64 = self.rolling_delta as i64 + (delta as i64) * (ENCODER_STEP as i64);
        let mut reported = self.reported;
        let ghost t0: int = total as int;
        let ghost r0: int = reported as int;
        let ghost mut q: int = 0;

        assert(t0 == s0.rolling_delta + raw_delta(s0.last_raw, raw) * ENCODER_STEP);

        while total >= THRESHOLD as i64
            invariant
                q * (THRESHOLD as int) + total == t0,
                reported as int == (r0 + q) % 256,
            decreases total,
        {
            total = total - THRESHOLD as i64;
            let prev = reported;
            reported = reported.wrapping_add(1);
            proof {
                q = q + 1;
                lemma_mod256_inc(r0 + q - 1, prev);
            }
        }

        while total < 0
            invariant
                total < THRESHOLD as i64,
                q * (THRESHOLD as int) + total == t0,
                reported as int == (r0 + q) % 256,
            decreases (THRESHOLD - 1 - total) / (THRESHOLD as int),
        {
            total = total + THRESHOLD as i64;
            let prev = reported;
            reported = reported.wrapping_sub(1);
            proof {
                q = q - 1;
                lemma_mod256_dec(r0 + q + 1, prev);
            }
        }

        proof {
            lemma_fundamental_div_mod_converse(t0, THRESHOLD as int, q, total as int);
        }
        self.rolling_delta = total as i32;
        self.reported = reported;
        reported
    }
}

/// Stepping the reported value up by one wraps as addition modulo 256 does.
proof fn lemma_mod256_inc(x: int, v: u8)
    requires
        v as int == x % 256,
    ensures
        vstd::wrapping::u8_specs::wrapping_add(v, 1) as int == (x + 1) % 256,
{
    lemma_add_mod_noop_right(1, x, 256);
    if v == 255 {
        vstd::arithmetic::div_mod::lemma_mod_self_0(256);
    } else {
        lemma_small_mod((v + 1) as nat, 256nat);
    }
}

/// Stepping the reported value down by one wraps as subtraction modulo 256 does.
proof fn lemma_mod256_dec(x: int, v: u8)
    requires
        v as int == x % 256,
    ensures
        vstd::wrapping::u8_specs::wrapping_sub(v, 1) as int == (x - 1) % 256,
{
    lemma_add_mod_noop_right(-1, x, 256);
    if v == 0 {
        lemma_fundamental_div_mod_converse(-1, 256, -1, 255);
    } else {
        lemma_small_mod((v - 1) as nat, 256nat);
    }
}

/// The raw counter value the host has seen after a run of samples.
pub open spec fn last_raw_after(s: EncoderState, raws: Seq<i32>) -> i32 {
    if raws.len() == 0 {
        s.last_raw
    } else {
        raws.last()
    }
}

/// The state after absorbing a whole sequence of raw counter samples, one
/// loop iteration each.
pub open spec fn run_spec(s: EncoderState, raws: Seq<i32>) -> EncoderState
    decreases raws.len(),
{
    if raws.len() == 0 {
        s
    } else {
        run_spec(s, raws.drop_last()).step_spec(raws.last())
    }
}

/// The total signed movement of the raw counter over a run of samples: the
/// sum of the wrapped differences between successive samples.
pub open spec fn cumulative_delta(s: EncoderState, raws: Seq<i32>) -> int
    decreases raws.len(),
{
    if raws.len() == 0 {
        0
    } else {
        cumulative_delta(s, raws.drop_last()) + raw_delta(
            last_raw_after(s, raws.drop_last()),
            raws.last(),
        )
    }
}

/// Over any run of raw samples, however the edges are batched, the reported
/// axis advances by exactly the whole quotient of the accumulated scaled
/// movement by `THRESHOLD` (modulo 256), and `rolling_delta` holds the
/// remainder.
pub proof fn lemma_encoder_accumulates(s: EncoderState, raws: Seq<i32>)
    requires
        s.wf(),
    ensures
        ({
            let a = s.rolling_delta + cumulative_delta(s, raws) * ENCODER_STEP;
            let t = run_spec(s, raws);
            &&& t.wf()
            &&& t.last_raw == last_raw_after(s, raws)
            &&& t.rolling_delta == a % (THRESHOLD as int)
            &&& t.reported as int == (s.reported + a / (THRESHOLD as int)) % 256
        }),
    decreases raws.len(),
{
    let th = THRESHOLD as int;
    if raws.len() == 0 {
        lemma_small_mod(s.rolling_delta as nat, th as nat);
        vstd::arithmetic::div_mod::lemma_basic_div(s.rolling_delta as int, th);
        lemma_small_mod(s.reported as nat, 256nat);
    } else {
        lemma_encoder_accumulates(s, raws.drop_last());
        let p = run_spec(s, raws.drop_last());
        let a = s.rolling_delta + cumulative_delta(s, raws.drop_last()) * ENCODER_STEP;
        let d = raw_delta(p.last_raw, raws.last());
        let b = d * ENCODER_STEP;
        let total = p.rolling_delta + b;
        // Remainders compose: (a % th + b) % th == (a + b) % th.
        lemma_add_mod_noop_right(b, a, th);
        // Quotients compose: a / th + (a % th + b) / th == (a + b) / th.
        lemma_fundamental_div_mod(a, th);
        lemma_hoist_over_denominator(a % th + b, a / th, th as nat);
        // The reported value composes modulo 256.
        lemma_add_mod_noop_right(total / th, s.reported + a / th, 256);
    }
}

/// One full revolution, however its edges are batched over loop iterations,
/// advances the reported axis by exactly `TARGET_STEPS` (modulo 256) and
/// leaves no pending progress behind.
pub proof fn lemma_full_revolution(s: EncoderState, raws: Seq<i32>)
    requires
        s.wf(),
        s.rolling_delta == 0,
        cumulative_delta(s, raws) == PPR,
    ensures
        run_spec(s, raws).reported as int == (s.reported + TARGET_STEPS) % 256,
        run_spec(s, raws).rolling_delta == 0,
{
    lemma_encoder_accumulates(s, raws);
    lemma_fundamental_div_mod_converse(PPR * ENCODER_STEP, THRESHOLD as int, TARGET_STEPS as int, 0);
}

/// The quadrature transition table, indexed by the previous and current
/// 2-bit phase: adjacent phases move the counter one step in the direction
/// given by the phase relationship, and the diagonal double-steps are treated
/// as no movement.
pub open spec fn transition_spec(prev: u8, curr: u8) -> int {
    if prev == 0 && curr == 1 {
        -1
    } else if prev == 0 && curr == 2 {
        1
    } else if prev == 1 && curr == 0 {
        1
    } else if prev == 1 && curr == 3 {
        -1
    } else if prev == 2 && curr == 0 {
        -1
    } else if prev == 2 && curr == 3 {
        1
    } else if prev == 3 && curr == 1 {
        1
    } else if prev == 3 && curr == 2 {
        -1
    } else {
        0
    }
}

/// Classify one quadrature phase transition as the counter movement the
/// decoder's jump table assigns to it.
pub fn transition_delta(prev: u8, curr: u8) -> (d: i32)
    requires
        prev < 4,
        curr < 4,
    ensures
        d as int == transition_spec(prev, curr),
{
    if prev == 0 && curr == 1 {
        -1
    } else if prev == 0 && curr == 2 {
        1
    } else if prev == 1 && curr == 0 {
        1
    } else if prev == 1 && curr == 3 {
        -1
    } else if prev == 2 && curr == 0 {
        -1
    } else if prev == 2 && curr == 3 {
        1
    } else if prev == 3 && curr == 1 {
        1
    } else if prev == 3 && curr == 2 {
        -1
    } else {
        0
    }
}

/// The counter movement a run of sampled phases produces, starting from a
/// given phase: the sum of the table entries of successive transitions.
pub open spec fn phase_delta_sum(prev: u8, phases: Seq<u8>) -> int
    decreases phases.len(),
{
    if phases.len() == 0 {
        0
    } else {
        phase_delta_sum(prev, phases.drop_last()) + transition_spec(
            if phases.len() == 1 {
                prev
            } else {
                phases[phases.len() - 2]
            },
            phases.last(),
        )
    }
}

/// Fold a run of sampled phases through the transition table, as the decoder's
/// state machine does, and return the accumulated counter movement.
pub fn decode_phases(prev: u8, phases: &Vec<u8>) -> (sum: i64)
    requires
        prev < 4,
        forall|i: int| 0 <= i < phases@.len() ==> phases@[i] < 4,
        phases@.len() < 0x7FFF_FFFF,
    ensures
        sum == phase_delta_sum(prev, phases@),
{
    let mut sum: i64 = 0;
    let mut cur_prev: u8 = prev;
    let mut i: usize = 0;
    while i < phases.len()
        invariant
            prev < 4,
            forall|j: int| 0 <= j < phases@.len() ==> phases@[j] < 4,
            phases@.len() < 0x7FFF_FFFF,
            0 <= i <= phases@.len(),
            cur_prev == if i == 0 { prev } else { phases@[i - 1] },
            sum == phase_delta_sum(prev, phases@.take(i as int)),
            -(i as int) <= sum <= i as int,
        decreases phases@.len() - i,
    {
        let d = transition_delta(cur_prev, phases[i]);
        proof {
            assert(phases@.take(i as int + 1).drop_last() =~= phases@.take(i as int));
            lemma_phase_sum_bound(prev, phases@.take(i as int + 1));
        }
        sum = sum + d as i64;
        cur_prev = phases[i];
        i = i + 1;
    }
    proof {
        assert(phases@.take(phases@.len() as int) =~= phases@);
    }
    sum
}

/// The accumulated movement of a phase run never exceeds its length in
/// magnitude: each transition moves the counter by at most one.
pub proof fn lemma_phase_sum_bound(prev: u8, phases: Seq<u8>)
    ensures
        -phases.len() <= phase_delta_sum(prev, phases) <= phases.len(),
    decreases phases.len(),
{
    if phases.len() > 0 {
        lemma_phase_sum_bound(prev, phases.drop_last());
    }
}

} // verus!
