use vstd::prelude::*;

verus! {

/// A committed state change is held for this long before the opposite raw
/// reading can be committed, in microseconds.
pub const DEBOUNCE_TIME_US: u64 = 4000;

/// Grid period of the scan ticker, in microseconds.
pub const POLL_PERIOD_US: u64 = 250;

/// Debounced state of one key, together with its position in the output mask.
#[derive(Clone, Copy)]
pub struct ButtonState {
    /// Bit this key occupies in the 16-bit mask. The canonical map puts the
    /// seven gameplay keys at bits 0..7 and the four menu keys at bits 8..12;
    /// bit 7 is reserved and never assigned.
    pub output_index: u16,
    /// Current debounced state; true means pressed.
    pub pressed: bool,
    /// Monotonic time of the last committed state change, in microseconds.
    pub transition_time: u64,
}

impl ButtonState {
    /// The key sits at one of the eleven assigned mask positions.
    pub open spec fn wf(self) -> bool {
        self.output_index < 12 && self.output_index != 7
    }

    /// What one debounce tick does: the raw reading is committed exactly when
    /// it differs from the held state and the held state is older than the
    /// debounce window; a commit restamps the transition time.
    pub open spec fn debounced(self, raw_pressed: bool, now: u64) -> ButtonState {
        if raw_pressed != self.pressed && now - self.transition_time > DEBOUNCE_TIME_US {
            ButtonState { pressed: raw_pressed, transition_time: now, ..self }
        } else {
            self
        }
    }

    /// A key as configured at start-up: released, with its transition stamp
    /// at the epoch.
    pub fn new(output_index: u16) -> (b: ButtonState)
        requires
            output_index < 12,
            output_index != 7,
        ensures
            b.wf(),
            !b.pressed,
            b.transition_time == 0,
            b.output_index == output_index,
    {
        ButtonState { output_index, pressed: false, transition_time: 0 }
    }

    /// Absorb one raw pin sample taken at time `now` (the clock is monotonic,
    /// so `now` is never before the last committed transition).
    pub fn debounce_step(&mut self, raw_pressed: bool, now: u64)
        requires
            old(self).transition_time <= now,
        ensures
            *final(self) == old(self).debounced(raw_pressed, now),
    {
        let debounce_time_elapsed = now - self.transition_time > DEBOUNCE_TIME_US;
        if raw_pressed != self.pressed && debounce_time_elapsed {
            self.pressed = raw_pressed;
            self.transition_time = now;
        }
    }
}

/// The state of one key after a run of raw samples, each a reading and the
/// instant it was taken.
pub open spec fn scan_run(b: ButtonState, samples: Seq<(bool, u64)>) -> ButtonState
    decreases samples.len(),
{
    if samples.len() == 0 {
        b
    } else {
        scan_run(b, samples.drop_last()).debounced(samples.last().0, samples.last().1)
    }
}

/// A key's state changes at most once per debounce window: over any run of
/// raw samples all taken within `DEBOUNCE_TIME_US` of the last committed
/// transition, the state and its stamp stay exactly as that commit left them,
/// whatever the pins read.
pub proof fn lemma_debounce_window(b: ButtonState, samples: Seq<(bool, u64)>)
    requires
        forall|i: int|
            0 <= i < samples.len() ==> (#[trigger] samples[i]).1 <= b.transition_time
                + DEBOUNCE_TIME_US,
    ensures
        scan_run(b, samples).pressed == b.pressed,
        scan_run(b, samples).transition_time == b.transition_time,
    decreases samples.len(),
{
    if samples.len() > 0 {
        lemma_debounce_window(b, samples.drop_last());
    }
}

/// One scan tick over the whole bank: each key absorbs its raw pin sample,
/// all taken at the same instant `now`.
pub fn poll_buttons(buttons: &mut Vec<ButtonState>, raw: &Vec<bool>, now: u64)
    requires
        old(buttons).len() == raw.len(),
        forall|i: int|
            0 <= i < old(buttons).len() ==> #[trigger] old(buttons)@[i].transition_time <= now,
    ensures
        final(buttons).len() == old(buttons).len(),
        forall|i: int|
            0 <= i < old(buttons).len() ==> #[trigger] final(buttons)@[i] == old(
                buttons,
            )@[i].debounced(raw@[i], now),
{
    let ghost orig = buttons@;
    let mut i: usize = 0;
    while i < buttons.len()
        invariant
            buttons@.len() == orig.len() == raw@.len(),
            0 <= i <= orig.len(),
            forall|j: int| i <= j < orig.len() ==> #[trigger] buttons@[j] == orig[j],
            forall|j: int| 0 <= j < orig.len() ==> #[trigger] orig[j].transition_time <= now,
            forall|j: int| 0 <= j < i ==> #[trigger] buttons@[j] == orig[j].debounced(raw@[j], now),
        decreases orig.len() - i,
    {
        let mut b = buttons[i];
        b.debounce_step(raw[i], now);
        buttons[i] = b;
        i = i + 1;
    }
}

/// The mask a bank of keys folds to: each pressed key contributes the bit at
/// its assigned position.
pub open spec fn mask_of(s: Seq<ButtonState>) -> u16
    decreases s.len(),
{
    if s.len() == 0 {
        0u16
    } else {
        mask_of(s.drop_last()) | (if s.last().pressed {
            1u16 << s.last().output_index
        } else {
            0u16
        })
    }
}

/// Fold the bank into the 16-bit mask published to the HID reporter.
pub fn buttons_to_bitstring(b: &Vec<ButtonState>) -> (mask: u16)
    requires
        forall|i: int| 0 <= i < b@.len() ==> #[trigger] b@[i].wf(),
    ensures
        mask == mask_of(b@),
{
    let mut output: u16 = 0;
    let mut i: usize = 0;
    while i < b.len()
        invariant
            0 <= i <= b@.len(),
            forall|j: int| 0 <= j < b@.len() ==> #[trigger] b@[j].wf(),
            output == mask_of(b@.take(i as int)),
        decreases b@.len() - i,
    {
        proof {
            assert(b@.take(i as int + 1).drop_last() =~= b@.take(i as int));
            assert(b@[i as int].wf());
            assert(output | 0u16 == output) by (bit_vector);
        }
        let button = b[i];
        if button.pressed {
            output = output | (1u16 << button.output_index);
        }
        i = i + 1;
    }
    proof {
        assert(b@.take(b@.len() as int) =~= b@);
    }
    output
}

/// No two keys share a mask position.
pub open spec fn distinct_indices(s: Seq<ButtonState>) -> bool {
    forall|i: int, j: int|
        0 <= i < j < s.len() ==> s[i].output_index != s[j].output_index
}

/// Every key in the bank sits at an assigned position.
pub open spec fn all_wf(s: Seq<ButtonState>) -> bool {
    forall|i: int| 0 <= i < s.len() ==> #[trigger] s[i].wf()
}

/// Whether bit `k` of a mask is set.
pub open spec fn mask_bit(mask: u16, k: u16) -> bool {
    (mask >> k) & 1 == 1
}

proof fn lemma_or_bit(x: u16, y: u16, k: u16)
    requires
        k < 16,
    ensures
        mask_bit(x | y, k) == (mask_bit(x, k) || mask_bit(y, k)),
{
    assert(k < 16 ==> ((((x | y) >> k) & 1 == 1) == (((x >> k) & 1 == 1) || ((y >> k) & 1 == 1))))
        by (bit_vector);
}

proof fn lemma_shl_bit(j: u16, k: u16)
    requires
        j < 16,
        k < 16,
    ensures
        mask_bit(1u16 << j, k) == (j == k),
{
    assert(j < 16 && k < 16 ==> ((((1u16 << j) >> k) & 1 == 1) == (j == k))) by (bit_vector);
}

proof fn lemma_zero_bit(k: u16)
    requires
        k < 16,
    ensures
        !mask_bit(0u16, k),
{
    assert(k < 16 ==> (0u16 >> k) & 1 == 0) by (bit_vector);
}

/// The mask round-trip: in a bank of distinct, assigned positions, bit
/// `output_index` of the folded mask reads back exactly the key's debounced
/// state, and every unassigned bit is zero.
pub proof fn lemma_mask_round_trip(s: Seq<ButtonState>)
    requires
        all_wf(s),
        distinct_indices(s),
    ensures
        forall|i: int|
            0 <= i < s.len() ==> mask_bit(mask_of(s), s[i].output_index) == s[i].pressed,
        forall|k: u16|
            k < 16 && (forall|i: int| 0 <= i < s.len() ==> s[i].output_index != k)
                ==> !mask_bit(mask_of(s), k),
    decreases s.len(),
{
    if s.len() == 0 {
        assert forall|k: u16| k < 16 implies !mask_bit(mask_of(s), k) by {
            lemma_zero_bit(k);
        }
    } else {
        let prefix = s.drop_last();
        let last = s.last();
        assert(s[s.len() - 1].wf());
        assert(forall|i: int| 0 <= i < prefix.len() ==> prefix[i] == s[i]);
        assert(all_wf(prefix)) by {
            assert forall|i: int| 0 <= i < prefix.len() implies #[trigger] prefix[i].wf() by {
                assert(s[i].wf());
            }
        }
        assert(distinct_indices(prefix)) by {
            assert forall|i: int, j: int|
                0 <= i < j < prefix.len() implies prefix[i].output_index
                != prefix[j].output_index by {
                assert(s[i].output_index != s[j].output_index);
            }
        }
        lemma_mask_round_trip(prefix);
        let m0 = mask_of(prefix);
        let bits = if last.pressed {
            1u16 << last.output_index
        } else {
            0u16
        };
        assert(mask_of(s) == m0 | bits);
        assert forall|i: int|
            0 <= i < s.len() implies mask_bit(mask_of(s), s[i].output_index)
            == s[i].pressed by {
            assert(s[i].wf());
            let k = s[i].output_index;
            lemma_or_bit(m0, bits, k);
            if last.pressed {
                lemma_shl_bit(last.output_index, k);
            } else {
                lemma_zero_bit(k);
            }
            if i < s.len() - 1 {
                assert(prefix[i] == s[i]);
                assert(mask_bit(m0, k) == s[i].pressed);
                assert(s[i].output_index != s[s.len() - 1].output_index);
            } else {
                assert forall|t: int|
                    0 <= t < prefix.len() implies prefix[t].output_index != k by {
                    assert(s[t].output_index != s[s.len() - 1].output_index);
                }
                assert(!mask_bit(m0, k));
            }
        }
        assert forall|k: u16|
            k < 16 && (forall|i: int| 0 <= i < s.len() ==> s[i].output_index != k)
            implies !mask_bit(mask_of(s), k) by {
            lemma_or_bit(m0, bits, k);
            assert forall|t: int| 0 <= t < prefix.len() implies prefix[t].output_index != k by {
                assert(s[t].output_index != k);
            }
            assert(!mask_bit(m0, k));
            if last.pressed {
                lemma_shl_bit(last.output_index, k);
                assert(s[s.len() - 1].output_index != k);
            } else {
                lemma_zero_bit(k);
            }
        }
    }
}

/// The reserved and unassigned mask bits — bit 7 and bits 12..16 — are zero
/// in the mask of any bank of assigned positions.
pub proof fn lemma_mask_high_bits_zero(s: Seq<ButtonState>)
    requires
        all_wf(s),
    ensures
        mask_of(s) & 0xF080 == 0,
    decreases s.len(),
{
    if s.len() > 0 {
        assert(all_wf(s.drop_last())) by {
            assert forall|i: int| 0 <= i < s.drop_last().len() implies #[trigger] s.drop_last()[i].wf() by {
                assert(s[i].wf());
            }
        }
        lemma_mask_high_bits_zero(s.drop_last());
        let m0 = mask_of(s.drop_last());
        let last = s.last();
        assert(s[s.len() - 1].wf());
        assert(mask_of(s) == m0 | (if last.pressed { 1u16 << last.output_index } else { 0u16 }));
        if last.pressed {
            let j = last.output_index;
            assert(j < 12 && j != 7 ==> ((1u16 << j) & 0xF080) == 0) by (bit_vector);
            assert(m0 & 0xF080 == 0 && ((1u16 << j) & 0xF080) == 0 ==> ((m0 | (1u16 << j))
                & 0xF080) == 0) by (bit_vector);
        } else {
            assert(m0 & 0xF080 == 0 ==> ((m0 | 0u16) & 0xF080) == 0) by (bit_vector);
        }
    } else {
        assert(0u16 & 0xF080 == 0) by (bit_vector);
    }
}

} // verus!
