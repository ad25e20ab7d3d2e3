use euclidean_sequencer::maths::{clamp, map_analog_value, map_range, ANALOG_IN_MAX};
use euclidean_sequencer::sequencer::{
    get_levels, get_multiplier, get_num_onsets, get_num_steps, get_step, note_off, note_on,
    step_length_ms, Sequencer, StepParams, StepReadings, OFF_PITCH, ON_PITCH,
};

#[test]
fn map_analog_value_is_monotonic_and_bounded() {
    for range in [0u16, 1, 4, 16, 255, 1000] {
        let mut last = 0u16;
        for raw in 0..=ANALOG_IN_MAX {
            let v = map_analog_value(raw, range);
            assert!(v >= last);
            assert!(v <= range);
            last = v;
        }
        assert!(map_analog_value(ANALOG_IN_MAX, range) <= range);
    }
    assert_eq!(map_analog_value(512, 16), 8);
    assert_eq!(map_analog_value(1023, 16), 15);
    assert_eq!(map_analog_value(1024, 16), 16);
    assert_eq!(map_analog_value(63, 16), 0);
    assert_eq!(map_analog_value(64, 16), 1);
}

#[test]
fn map_range_truncates() {
    assert_eq!(map_range(512, 1024, 255), 127);
    assert_eq!(map_range(1024, 1024, 255), 255);
    assert_eq!(map_range(3, 2, 5), 7);
}

#[test]
fn clamp_three_ways() {
    assert_eq!(clamp(5, 1, 10), 5);
    assert_eq!(clamp(1, 1, 10), 1);
    assert_eq!(clamp(10, 1, 10), 10);
    assert_eq!(clamp(0, 1, 10), 1);
    assert_eq!(clamp(11, 1, 10), 10);
    for v in 0..20 {
        assert_eq!(clamp(v, 7, 7), 7);
    }
}

#[test]
fn multiplier_buckets() {
    assert_eq!(get_multiplier(0), (1, 1));
    assert_eq!(get_multiplier(255), (1, 1));
    assert_eq!(get_multiplier(256), (1, 2));
    assert_eq!(get_multiplier(600), (1, 3));
    assert_eq!(get_multiplier(1023), (1, 4));
    assert_eq!(get_multiplier(1024), (1, 4));
}

#[test]
fn levels_crossfade() {
    assert_eq!(get_levels(0), (127, 0));
    assert_eq!(get_levels(512), (127, 127));
    assert_eq!(get_levels(1024), (0, 127));
    assert_eq!(get_levels(256), (127, 63));
    assert_eq!(get_levels(768), (64, 127));
}

#[test]
fn step_and_onset_counts() {
    assert_eq!(get_num_steps(256), 4);
    assert_eq!(get_num_onsets(128), 2);
    assert_eq!(get_num_steps(0), 0);
    assert_eq!(get_num_steps(1024), 16);
}

#[test]
fn step_length_from_tempo_and_divider() {
    assert_eq!(step_length_ms(120, (1, 1)), 500);
    assert_eq!(step_length_ms(120, (1, 2)), 250);
    assert_eq!(step_length_ms(120, (1, 3)), 166);
    assert_eq!(step_length_ms(120, (1, 4)), 125);
    assert_eq!(step_length_ms(90, (1, 1)), 666);
}

#[test]
fn note_messages() {
    let mut out = vec![1u8];
    note_on(&mut out, 3, 60, 100);
    note_off(&mut out, 3, 60);
    assert_eq!(out, vec![1, 0x93, 60, 100, 0x83, 60, 0]);
}

#[test]
fn step_params_follow_the_rhythm() {
    let on = get_step(0, 4, 2, 0, 0);
    assert_eq!(on, StepParams { pitch: ON_PITCH, velocity: 127, gate_percent: 50 });
    let off = get_step(0, 4, 2, 0, 1);
    assert_eq!(off, StepParams { pitch: OFF_PITCH, velocity: 0, gate_percent: 50 });
    let silent = get_step(1024, 0, 0, 0, 0);
    assert_eq!(silent, StepParams { pitch: OFF_PITCH, velocity: 127, gate_percent: 50 });
}

fn four_steps_two_onsets() -> StepReadings {
    StepReadings { steps: 256, onsets: 128, levels: 0 }
}

#[test]
fn end_to_end_four_steps() {
    let readings = four_steps_two_onsets();
    let mut out = Vec::new();
    let mut seq = Sequencer::new(0, 120, 0, 0, readings, &mut out);
    assert_eq!(out, vec![0x90, 30, 127]);
    assert_eq!(seq.step_index, 0);

    let expected = [
        (500u32, 1u16, vec![0x80, 30, 0, 0x90, 42, 0]),
        (1000, 2, vec![0x80, 42, 0, 0x90, 30, 127]),
        (1500, 3, vec![0x80, 30, 0, 0x90, 42, 0]),
        (2000, 0, vec![0x80, 42, 0, 0x90, 30, 127]),
    ];
    for (now, index, bytes) in expected {
        assert!(!seq.is_due(now - 1, 0));
        assert!(seq.is_due(now, 0));
        let mut out = Vec::new();
        seq.advance(now, readings, &mut out);
        assert_eq!(seq.step_index, index);
        assert_eq!(seq.step_start_ms, now);
        assert_eq!(out, bytes);
    }
}

#[test]
fn advance_across_clock_wrap() {
    let readings = four_steps_two_onsets();
    let mut out = Vec::new();
    let start = u32::MAX - 100;
    let mut seq = Sequencer::new(0, 120, 0, start, readings, &mut out);
    assert!(!seq.is_due(u32::MAX, 0));
    assert!(!seq.is_due(398, 0));
    assert!(seq.is_due(399, 0));
    assert!(seq.is_due(1000, 0));
    out.clear();
    seq.advance(399, readings, &mut out);
    assert_eq!(seq.step_index, 1);
    assert_eq!(seq.step_start_ms, 399);
    assert_eq!(out, vec![0x80, 30, 0, 0x90, 42, 0]);
}

#[test]
fn divider_shortens_the_step() {
    let mut out = Vec::new();
    let seq = Sequencer::new(0, 120, 0, 1000, four_steps_two_onsets(), &mut out);
    assert!(!seq.is_due(1124, 1024));
    assert!(seq.is_due(1125, 1024));
    assert!(!seq.is_due(1125, 0));
}

#[test]
fn no_steps_pins_the_index() {
    let readings = StepReadings { steps: 0, onsets: 512, levels: 1024 };
    let mut out = Vec::new();
    let mut seq = Sequencer::new(15, 120, 0, 0, readings, &mut out);
    assert_eq!(out, vec![0x9f, 42, 127]);
    out.clear();
    seq.advance(500, readings, &mut out);
    assert_eq!(seq.step_index, 0);
    assert_eq!(out, vec![0x8f, 42, 0, 0x9f, 42, 127]);
}

#[test]
fn fewer_steps_wrap_the_index() {
    let mut out = Vec::new();
    let mut seq = Sequencer::new(0, 120, 0, 0, StepReadings { steps: 1024, onsets: 0, levels: 0 }, &mut out);
    seq.step_index = 10;
    seq.advance(500, four_steps_two_onsets(), &mut out);
    assert_eq!(seq.step_index, 3);
}
