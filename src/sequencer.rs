use vstd::prelude::*;
use crate::maths::{
    analog_scaled,
    clamp,
    clamp_spec,
    map_analog_value,
    map_range,
    ANALOG_IN_MAX,
};
use crate::patterns::{euclidean, euclidean_spec};

verus! {

/// The largest number of steps a pattern can have.
pub const MAX_STEPS: u16 = 16;

/// How many clock dividers the multiplier control chooses from.
pub const NUM_MULTIPLIERS: u16 = 4;

/// Pitch played on an onset.
pub const ON_PITCH: u8 = 30;

/// Pitch played on a step that is not an onset.
pub const OFF_PITCH: u8 = 42;

/// Share of the step length, in percent, that a note is meant to sound.
pub const GATE_PERCENT: u8 = 50;

/// Status byte of a MIDI note-on message on channel 0.
pub const NOTE_ON_STATUS: u8 = 0x90;

/// Status byte of a MIDI note-off message on channel 0.
pub const NOTE_OFF_STATUS: u8 = 0x80;

/// Milliseconds in a minute.
pub const MS_PER_MINUTE: u32 = 60000;

/// Highest velocity of either level.
pub const MAX_LEVEL: u32 = 127;

/// What one step plays.
#[derive(Clone, Copy, Debug, PartialEq, Eq, Structural)]
pub struct StepParams {
    pub pitch: u8,
    pub velocity: u8,
    pub gate_percent: u8,
}

impl StepParams {
    /// Pitch and velocity stay below 128; the sounding share lies between 1 and 100.
    pub open spec fn wf(&self) -> bool {
        &&& self.pitch < 128
        &&& self.velocity < 128
        &&& 0 < self.gate_percent <= 100
    }
}

/// The divider bucket that a multiplier reading falls in; the full-scale
/// reading joins the last bucket.
pub open spec fn multiplier_index(reading: int) -> int {
    let i = analog_scaled(reading, NUM_MULTIPLIERS as int);
    if i >= NUM_MULTIPLIERS {
        NUM_MULTIPLIERS - 1
    } else {
        i
    }
}

/// The clock dividers, as `(numerator, denominator)`: 1/1, 1/2, 1/3, 1/4.
pub open spec fn multiplier_table(i: int) -> (u16, u16) {
    if i == 0 {
        (1, 1)
    } else if i == 1 {
        (1, 2)
    } else if i == 2 {
        (1, 3)
    } else {
        (1, 4)
    }
}

/// Selects the clock divider from a multiplier reading.
pub fn get_multiplier(reading: u16) -> (r: (u16, u16))
    requires
        reading <= ANALOG_IN_MAX,
    ensures
        r == multiplier_table(multiplier_index(reading as int)),
{
    let scaled = map_analog_value(reading, NUM_MULTIPLIERS);
    let idx: u16 = if scaled >= NUM_MULTIPLIERS {
        NUM_MULTIPLIERS - 1
    } else {
        scaled
    };
    if idx == 0 {
        (1, 1)
    } else if idx == 1 {
        (1, 2)
    } else if idx == 2 {
        (1, 3)
    } else {
        (1, 4)
    }
}

/// A levels reading rescaled into `0 ..= 255`.
pub open spec fn level_scaled(reading: int) -> int {
    (reading * 255) / (ANALOG_IN_MAX as int)
}

/// The accent and ghost velocities `(on, off)` of a levels reading: left of
/// centre `on` stays at its maximum while `off` follows the knob; right of
/// centre `off` stays at its maximum while `on` falls.
pub open spec fn levels_spec(reading: int) -> (int, int) {
    let s = level_scaled(reading);
    (clamp_spec(255 - s, 0, MAX_LEVEL as int), clamp_spec(s, 0, MAX_LEVEL as int))
}

/// Splits one levels reading into the velocities of onsets and of the other
/// steps.
pub fn get_levels(reading: u16) -> (r: (u8, u8))
    requires
        reading <= ANALOG_IN_MAX,
    ensures
        r.0 as int == levels_spec(reading as int).0,
        r.1 as int == levels_spec(reading as int).1,
        r.0 <= MAX_LEVEL,
        r.1 <= MAX_LEVEL,
        reading <= ANALOG_IN_MAX / 2 ==> r.0 == MAX_LEVEL && r.1 as int == level_scaled(
            reading as int,
        ),
        reading >= ANALOG_IN_MAX / 2 ==> r.1 == MAX_LEVEL,
        reading == ANALOG_IN_MAX / 2 ==> r.0 == r.1,
{
    proof {
        if reading <= ANALOG_IN_MAX / 2 {
            vstd::arithmetic::div_mod::lemma_div_is_ordered(
                reading as int * 255,
                512int * 255,
                ANALOG_IN_MAX as int,
            );
        } else {
            vstd::arithmetic::div_mod::lemma_div_is_ordered(
                512int * 255,
                reading as int * 255,
                ANALOG_IN_MAX as int,
            );
        }
        assert(0 <= reading as int * 255 <= 255 * ANALOG_IN_MAX) by (nonlinear_arith)
            requires
                reading <= ANALOG_IN_MAX,
        ;
        vstd::arithmetic::div_mod::lemma_div_is_ordered(
            reading as int * 255,
            255 * ANALOG_IN_MAX,
            ANALOG_IN_MAX as int,
        );
    }
    let scaled = map_range(reading as u32, ANALOG_IN_MAX as u32, 255);
    let on = clamp(255 - scaled, 0, MAX_LEVEL);
    let off = clamp(scaled, 0, MAX_LEVEL);
    (on as u8, off as u8)
}

/// The number of steps that a steps reading selects, in `0 ..= MAX_STEPS`.
pub fn get_num_steps(reading: u16) -> (r: u16)
    requires
        reading <= ANALOG_IN_MAX,
    ensures
        r as int == analog_scaled(reading as int, MAX_STEPS as int),
        r <= MAX_STEPS,
{
    map_analog_value(reading, MAX_STEPS)
}

/// The number of onsets that an onsets reading selects, in `0 ..= MAX_STEPS`.
pub fn get_num_onsets(reading: u16) -> (r: u16)
    requires
        reading <= ANALOG_IN_MAX,
    ensures
        r as int == analog_scaled(reading as int, MAX_STEPS as int),
        r <= MAX_STEPS,
{
    map_analog_value(reading, MAX_STEPS)
}

/// What step `current_step` plays: the onset pitch at the accent velocity on
/// an onset, else the other pitch at the ghost velocity.
pub open spec fn step_spec(
    levels_reading: int,
    num_steps: int,
    num_onsets: int,
    rotation: int,
    current_step: int,
) -> StepParams {
    let levels = levels_spec(levels_reading);
    if euclidean_spec(num_steps, num_onsets, rotation, current_step) {
        StepParams { pitch: ON_PITCH, velocity: levels.0 as u8, gate_percent: GATE_PERCENT }
    } else {
        StepParams { pitch: OFF_PITCH, velocity: levels.1 as u8, gate_percent: GATE_PERCENT }
    }
}

/// Resolves pitch and velocity of a step from the rhythm and the levels
/// reading.
pub fn get_step(
    levels_reading: u16,
    num_steps: u16,
    num_onsets: u16,
    rotation: i64,
    current_step: u16,
) -> (r: StepParams)
    requires
        levels_reading <= ANALOG_IN_MAX,
    ensures
        r == step_spec(
            levels_reading as int,
            num_steps as int,
            num_onsets as int,
            rotation as int,
            current_step as int,
        ),
        r.wf(),
{
    let (on_level, off_level) = get_levels(levels_reading);
    let is_on = euclidean(num_steps as u64, num_onsets as u64, rotation, current_step as u64);
    if is_on {
        StepParams { pitch: ON_PITCH, velocity: on_level, gate_percent: GATE_PERCENT }
    } else {
        StepParams { pitch: OFF_PITCH, velocity: off_level, gate_percent: GATE_PERCENT }
    }
}

/// The three bytes of a MIDI note-on message.
pub open spec fn note_on_bytes(channel: u8, pitch: u8, velocity: u8) -> Seq<u8> {
    seq![(NOTE_ON_STATUS + channel) as u8, pitch, velocity]
}

/// The three bytes of a MIDI note-off message.
pub open spec fn note_off_bytes(channel: u8, pitch: u8) -> Seq<u8> {
    seq![(NOTE_OFF_STATUS + channel) as u8, pitch, 0u8]
}

/// Appends a note-on message to `out`.
pub fn note_on(out: &mut Vec<u8>, channel: u8, pitch: u8, velocity: u8)
    requires
        channel < 16,
        pitch < 128,
        velocity < 128,
    ensures
        final(out)@ == old(out)@ + note_on_bytes(channel, pitch, velocity),
{
    out.push(NOTE_ON_STATUS + channel);
    out.push(pitch);
    out.push(velocity);
}

/// Appends a note-off message to `out`.
pub fn note_off(out: &mut Vec<u8>, channel: u8, pitch: u8)
    requires
        channel < 16,
        pitch < 128,
    ensures
        final(out)@ == old(out)@ + note_off_bytes(channel, pitch),
{
    out.push(NOTE_OFF_STATUS + channel);
    out.push(pitch);
    out.push(0);
}

/// Milliseconds per step: a beat lasts `60000 / bpm` ms, scaled by the
/// divider `numerator / denominator`.
pub open spec fn step_length_spec(bpm: int, multiplier: (u16, u16)) -> int {
    (MS_PER_MINUTE as int / bpm) * (multiplier.0 as int) / (multiplier.1 as int)
}

/// Derives the step length in milliseconds from the tempo and the divider.
pub fn step_length_ms(bpm: u32, multiplier: (u16, u16)) -> (r: u32)
    requires
        bpm > 0,
        multiplier.1 > 0,
    ensures
        r as int == step_length_spec(bpm as int, multiplier),
{
    let beat_length_ms: u32 = MS_PER_MINUTE / bpm;
    proof {
        assert(beat_length_ms as int * multiplier.0 as int <= 60000 * 65535) by (nonlinear_arith)
            requires
                beat_length_ms <= MS_PER_MINUTE,
                multiplier.0 <= 65535,
        ;
    }
    beat_length_ms * multiplier.0 as u32 / multiplier.1 as u32
}

/// Milliseconds from `start` to `now` on a clock that wraps at `2^32`.
pub open spec fn elapsed_ms(now: u32, start: u32) -> int {
    (now as int - start as int) % 0x1_0000_0000
}

/// On a wrapping clock, the time `d` ms after `start` is `d` ms after it,
/// also where the clock has wrapped in between.
pub proof fn lemma_elapsed_across_wrap(start: u32, d: u32)
    ensures
        elapsed_ms(((start as int + d as int) % 0x1_0000_0000) as u32, start) == d,
{
    let m: int = 0x1_0000_0000;
    let t = start as int + d as int;
    if t < m {
        vstd::arithmetic::div_mod::lemma_fundamental_div_mod_converse(t, m, 0, t);
        vstd::arithmetic::div_mod::lemma_fundamental_div_mod_converse(d as int, m, 0, d as int);
    } else {
        vstd::arithmetic::div_mod::lemma_fundamental_div_mod_converse(t, m, 1, t - m);
        vstd::arithmetic::div_mod::lemma_fundamental_div_mod_converse(t - m - start, m, -1, d as int);
    }
}

/// The readings sampled when a step advances.
#[derive(Clone, Copy, Debug, PartialEq, Eq, Structural)]
pub struct StepReadings {
    pub steps: u16,
    pub onsets: u16,
    pub levels: u16,
}

impl StepReadings {
    /// Every reading lies within the analog full scale.
    pub open spec fn wf(&self) -> bool {
        &&& self.steps <= ANALOG_IN_MAX
        &&& self.onsets <= ANALOG_IN_MAX
        &&& self.levels <= ANALOG_IN_MAX
    }
}

/// The state of the running sequencer.
pub struct Sequencer {
    /// MIDI channel, a 4-bit value.
    pub channel: u8,
    pub bpm: u32,
    pub rotation: i64,
    pub step_index: u16,
    /// Clock value at which the current step began.
    pub step_start_ms: u32,
    /// What the current step plays; its note is released on the next advance.
    pub previous: StepParams,
}

/// What step `index` plays under the given readings.
pub open spec fn step_of_readings(readings: StepReadings, rotation: int, index: int) -> StepParams {
    step_spec(
        readings.levels as int,
        analog_scaled(readings.steps as int, MAX_STEPS as int),
        analog_scaled(readings.onsets as int, MAX_STEPS as int),
        rotation,
        index,
    )
}

impl Sequencer {
    /// The channel fits in four bits, the tempo is positive and the current
    /// step is valid.
    pub open spec fn wf(&self) -> bool {
        &&& self.channel < 16
        &&& self.bpm > 0
        &&& self.previous.wf()
    }

    /// Whether the current step is over at clock value `now`, with the step
    /// length taken from the current multiplier reading.
    pub open spec fn due_spec(&self, now: u32, multiplier_reading: int) -> bool {
        elapsed_ms(now, self.step_start_ms) >= step_length_spec(
            self.bpm as int,
            multiplier_table(multiplier_index(multiplier_reading)),
        )
    }

    /// Starts the sequencer at clock value `now` on step 0, appending its
    /// note-on to `out`.
    pub fn new(
        channel: u8,
        bpm: u32,
        rotation: i64,
        now: u32,
        readings: StepReadings,
        out: &mut Vec<u8>,
    ) -> (r: Sequencer)
        requires
            channel < 16,
            bpm > 0,
            readings.wf(),
        ensures
            r.wf(),
            r.channel == channel,
            r.bpm == bpm,
            r.rotation == rotation,
            r.step_index == 0,
            r.step_start_ms == now,
            r.previous == step_of_readings(readings, rotation as int, 0),
            final(out)@ == old(out)@ + note_on_bytes(channel, r.previous.pitch, r.previous.velocity),
    {
        let num_steps = get_num_steps(readings.steps);
        let num_onsets = get_num_onsets(readings.onsets);
        let step = get_step(readings.levels, num_steps, num_onsets, rotation, 0);
        note_on(out, channel, step.pitch, step.velocity);
        Sequencer { channel, bpm, rotation, step_index: 0, step_start_ms: now, previous: step }
    }

    /// Whether to advance at clock value `now`. The elapsed time is taken
    /// modulo the clock's width, so a clock that wrapped since the step began
    /// still advances on time.
    pub fn is_due(&self, now: u32, multiplier_reading: u16) -> (r: bool)
        requires
            self.wf(),
            multiplier_reading <= ANALOG_IN_MAX,
        ensures
            r == self.due_spec(now, multiplier_reading as int),
    {
        let multiplier = get_multiplier(multiplier_reading);
        let step_length = step_length_ms(self.bpm, multiplier);
        let elapsed = now.wrapping_sub(self.step_start_ms);
        proof {
            let m: int = 0x1_0000_0000;
            let x = now as int - self.step_start_ms as int;
            if x < 0 {
                vstd::arithmetic::div_mod::lemma_fundamental_div_mod_converse(x, m, -1, x + m);
            } else {
                vstd::arithmetic::div_mod::lemma_fundamental_div_mod_converse(x, m, 0, x);
            }
        }
        elapsed >= step_length
    }

    /// Moves on to the next step at clock value `now`: releases the note of
    /// the step that ends, and plays the next one as the fresh readings
    /// decide. With no steps the index stays at 0.
    pub fn advance(&mut self, now: u32, readings: StepReadings, out: &mut Vec<u8>)
        requires
            old(self).wf(),
            readings.wf(),
        ensures
            final(self).wf(),
            final(self).channel == old(self).channel,
            final(self).bpm == old(self).bpm,
            final(self).rotation == old(self).rotation,
            final(self).step_start_ms == now,
            ({
                let n = analog_scaled(readings.steps as int, MAX_STEPS as int);
                final(self).step_index == if n == 0 {
                    0
                } else {
                    (old(self).step_index as int + 1) % n
                }
            }),
            final(self).previous == step_of_readings(
                readings,
                old(self).rotation as int,
                final(self).step_index as int,
            ),
            final(out)@ == old(out)@ + note_off_bytes(old(self).channel, old(self).previous.pitch)
                + note_on_bytes(old(self).channel, final(self).previous.pitch, final(self).previous.velocity),
    {
        let num_steps = get_num_steps(readings.steps);
        let num_onsets = get_num_onsets(readings.onsets);
        self.step_start_ms = now;
        self.step_index = if num_steps > 0 {
            ((self.step_index as u32 + 1) % num_steps as u32) as u16
        } else {
            0
        };
        note_off(out, self.channel, self.previous.pitch);
        let step = get_step(readings.levels, num_steps, num_onsets, self.rotation, self.step_index);
        note_on(out, self.channel, step.pitch, step.velocity);
        self.previous = step;
    }
}

} // verus!
