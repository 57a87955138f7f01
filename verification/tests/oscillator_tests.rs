use rs_synth::adsr::ADSRState;
use rs_synth::fixed::{fx_div_whole, ONE};
use rs_synth::math::{HALF, QUARTER};
use rs_synth::oscillator::{mtof, wrap_saw, wrap_unit, Oscillator, OscillatorType, LFO};

fn to_real(v: i64) -> f64 {
    v as f64 / ONE as f64
}

fn to_fixed(x: f64) -> i64 {
    (x * ONE as f64).round() as i64
}

/// An oscillator whose envelope opens in one sample and stays open.
fn open_oscillator(osc_type: OscillatorType) -> Oscillator {
    let mut o = Oscillator::default();
    o.set_sample_rate(44100 * ONE);
    o.set_params(osc_type, HALF, HALF, 0, 0, 0);
    o.envelope.set_params(0, 0, ONE, 0);
    o
}

#[test]
fn mtof_follows_equal_temperament() {
    assert_eq!(mtof(69), 440 * ONE);
    assert_eq!(mtof(81), 880 * ONE);
    assert_eq!(mtof(57), 220 * ONE);
    assert_eq!(mtof(45), 110 * ONE);
    for note in 0..=255u8 {
        let want = 440.0 * ((note as f64 - 69.0) / 12.0).exp2();
        assert!((to_real(mtof(note)) - want).abs() / want < 1e-7);
    }
    assert!((to_real(mtof(60)) - 261.6255653).abs() < 1e-4);
    assert!((to_real(mtof(0)) - 8.1757989).abs() < 1e-5);
}

#[test]
fn default_oscillator_rests_at_middle_c() {
    let o = Oscillator::default();
    assert_eq!(o.get_current_note(), 60);
    assert_eq!(o.frequency, to_fixed(261.63));
    assert_eq!(o.previous_frequency, to_fixed(261.63));
    assert_eq!(o.phase, 0);
    assert_eq!(o.velocity, 0);
    assert_eq!(o.pulsewidth, HALF);
    assert_eq!(o.octave_mod, ONE);
    assert_eq!(o.osc_type, OscillatorType::Saw);
    assert_eq!(o.envelope.get_state(), ADSRState::Idle);
}

#[test]
fn pulse_at_a4_starts_high_and_steps_by_the_period() {
    let mut o = open_oscillator(OscillatorType::Pulse);
    o.note_on(69, 127, false);
    assert_eq!(o.velocity, ONE);
    let step = to_fixed(440.0 / 44100.0);
    let first = o.process();
    assert_eq!(o.envelope.get_output(), ONE);
    assert_eq!(first, ONE);
    assert!((o.phase - step).abs() <= 1);
    let mut phase = o.phase;
    for n in 1..200 {
        let out = o.process();
        let advanced = o.phase - phase;
        assert!((advanced - step).abs() <= 1 || (advanced - step + ONE).abs() <= 1);
        phase = o.phase;
        let want = if o.phase < HALF { ONE } else { -ONE };
        assert_eq!(out, want, "sample {}", n);
    }
}

#[test]
fn pulse_scales_with_envelope_and_velocity() {
    let mut o = open_oscillator(OscillatorType::Pulse);
    o.envelope.set_params(to_fixed(0.01), 0, ONE, 0);
    o.note_on(69, 64, false);
    let out = o.process();
    let gain = to_real(o.envelope.get_output());
    assert!(gain > 0.0 && gain < 0.01);
    assert!((to_real(out) - gain * 64.0 / 127.0).abs() < 1e-9);
}

#[test]
fn pulse_width_sets_the_duty_cycle() {
    let mut o = open_oscillator(OscillatorType::Pulse);
    o.set_params(OscillatorType::Pulse, ONE / 4, HALF, 0, 0, 0);
    o.note_on(69, 127, false);
    let mut high = 0;
    let total = 44100;
    for _ in 0..total {
        if o.process() > 0 {
            high += 1;
        }
    }
    assert!((high as f64 / total as f64 - 0.25).abs() < 0.01);
}

#[test]
fn saw_puts_out_its_phase_and_steps_twice_as_fast() {
    let mut o = open_oscillator(OscillatorType::Saw);
    o.note_on(69, 127, false);
    let step = to_fixed(440.0 / 44100.0);
    let mut phase = 0;
    for _ in 0..500 {
        let out = o.process();
        assert_eq!(out, phase);
        assert_eq!(o.output, phase);
        let advanced = o.phase - phase;
        assert!((advanced - 2 * step).abs() <= 2 || (advanced - 2 * step + 2 * ONE).abs() <= 2);
        assert!(o.phase >= -ONE && o.phase < ONE);
        phase = o.phase;
    }
}

#[test]
fn sine_puts_out_the_sine_of_its_phase() {
    let mut o = open_oscillator(OscillatorType::Sin);
    o.note_on(69, 127, false);
    for _ in 0..500 {
        let phase = o.phase;
        let out = o.process();
        let want = (2.0 * std::f64::consts::PI * to_real(phase)).sin();
        assert!((to_real(out) - want).abs() < 1e-8);
        assert!(o.phase >= 0 && o.phase < ONE);
    }
}

#[test]
fn triangle_follows_its_two_slopes() {
    let mut o = open_oscillator(OscillatorType::Triangle);
    o.note_on(69, 127, false);
    for _ in 0..500 {
        let out = o.process();
        let p = to_real(o.phase);
        let want = if p <= 0.5 { 4.0 * (p - 0.25) } else { 4.0 * ((1.0 - p) - 0.25) };
        assert!((to_real(out) - want).abs() < 1e-8);
        assert!(out >= -ONE && out <= ONE);
    }
    // exact corner values
    let mut corner = open_oscillator(OscillatorType::Triangle);
    corner.note_on(69, 127, false);
    corner.frequency = 0;
    corner.phase = QUARTER;
    assert_eq!(corner.process(), 0);
    corner.phase = HALF;
    assert_eq!(corner.process(), ONE);
    corner.phase = 0;
    assert_eq!(corner.process(), -ONE);
}

#[test]
fn phase_stays_in_its_domain_for_every_waveform() {
    let types = [OscillatorType::Saw, OscillatorType::Pulse, OscillatorType::Sin, OscillatorType::Triangle];
    for &osc_type in types.iter() {
        for &note in [0u8, 60, 127, 255].iter() {
            for &rate in [1i64, 100, 44100, 192000].iter() {
                let mut o = open_oscillator(osc_type);
                o.set_sample_rate(rate * ONE);
                o.set_params(osc_type, HALF, ONE, 0, 24, 100 * ONE);
                o.note_on(note, 100, false);
                for n in 0..2000 {
                    let modulation = if n % 3 == 0 { ONE } else { -ONE };
                    let out = o.process_with_pitch_mod(modulation);
                    assert!(out >= -ONE && out <= ONE);
                    match osc_type {
                        OscillatorType::Saw => assert!(o.phase >= -ONE && o.phase < ONE),
                        _ => assert!(o.phase >= 0 && o.phase < ONE),
                    }
                }
            }
        }
    }
}

#[test]
fn switching_from_the_saw_brings_the_phase_into_the_new_domain() {
    let mut o = open_oscillator(OscillatorType::Saw);
    o.note_on(69, 127, false);
    while o.phase >= 0 {
        o.process();
    }
    assert!(o.phase < 0);
    o.set_params(OscillatorType::Pulse, HALF, HALF, 0, 0, 0);
    o.process();
    assert!(o.phase >= 0 && o.phase < ONE);
}

#[test]
fn wrapping_is_modular() {
    assert_eq!(wrap_unit(0, 0), 0);
    assert_eq!(wrap_unit(ONE - 1, 1), 0);
    assert_eq!(wrap_unit(ONE - 1, 6), 5);
    assert_eq!(wrap_unit(0, -1), ONE - 1);
    assert_eq!(wrap_unit(3, 7 * ONE), 3);
    assert_eq!(wrap_unit(i64::MAX, i64::MAX), ONE - 2);
    assert_eq!(wrap_saw(0, 0), 0);
    assert_eq!(wrap_saw(0, ONE / 2), -ONE);
    assert_eq!(wrap_saw(ONE - 3, 1), ONE - 1);
    assert_eq!(wrap_saw(-ONE, 0), -ONE);
    assert_eq!(wrap_saw(-ONE + 1, -1), ONE - 1);
    assert_eq!(wrap_saw(9, 3 * ONE / 2), -ONE + 9);
    assert_eq!(wrap_saw(i64::MIN, i64::MIN), 0);
}

#[test]
fn pitch_modulation_scales_the_frequency() {
    let mut plain = open_oscillator(OscillatorType::Pulse);
    let mut raised = open_oscillator(OscillatorType::Pulse);
    let mut lowered = open_oscillator(OscillatorType::Pulse);
    for o in [&mut plain, &mut raised, &mut lowered] {
        o.note_on(69, 127, false);
    }
    plain.process();
    raised.process_with_pitch_mod(ONE / 2);
    lowered.process_with_pitch_mod(-ONE / 4);
    let step = 440.0 / 44100.0;
    assert!((to_real(plain.phase) - step).abs() < 1e-9);
    assert!((to_real(raised.phase) - 1.5 * step).abs() < 1e-9);
    assert!((to_real(lowered.phase) - 0.75 * step).abs() < 1e-9);
}

#[test]
fn process_is_process_without_modulation() {
    let mut a = open_oscillator(OscillatorType::Sin);
    let mut b = open_oscillator(OscillatorType::Sin);
    a.note_on(64, 90, false);
    b.note_on(64, 90, false);
    for _ in 0..300 {
        assert_eq!(a.process(), b.process_with_pitch_mod(0));
        assert_eq!(a.phase, b.phase);
    }
}

#[test]
fn detune_composes_semitones_and_cents() {
    let step = 440.0 / 44100.0;
    let mut octave_up = open_oscillator(OscillatorType::Pulse);
    octave_up.set_params(OscillatorType::Pulse, HALF, HALF, 0, 12, 0);
    octave_up.note_on(69, 127, false);
    octave_up.process();
    assert!((to_real(octave_up.phase) - 2.0 * step).abs() < 1e-9);
    let mut fifth_down = open_oscillator(OscillatorType::Pulse);
    fifth_down.set_params(OscillatorType::Pulse, HALF, HALF, 0, -7, 0);
    fifth_down.note_on(69, 127, false);
    fifth_down.process();
    assert!((to_real(fifth_down.phase) - step * (-7.0f64 / 12.0).exp2()).abs() < 1e-9);
    let mut cents = open_oscillator(OscillatorType::Pulse);
    cents.set_params(OscillatorType::Pulse, HALF, HALF, 0, 3, to_fixed(-37.5));
    cents.note_on(69, 127, false);
    cents.process();
    assert!((to_real(cents.phase) - step * ((300.0f64 - 37.5) / 1200.0).exp2()).abs() < 1e-9);
    let mut semitone_of_cents = open_oscillator(OscillatorType::Pulse);
    semitone_of_cents.set_params(OscillatorType::Pulse, HALF, HALF, 0, 0, 100 * ONE);
    semitone_of_cents.note_on(69, 127, false);
    semitone_of_cents.process();
    let mut semitone = open_oscillator(OscillatorType::Pulse);
    semitone.set_params(OscillatorType::Pulse, HALF, HALF, 0, 1, 0);
    semitone.note_on(69, 127, false);
    semitone.process();
    assert_eq!(semitone_of_cents.phase, semitone.phase);
}

#[test]
fn octave_parameter_has_five_buckets() {
    let cases = [
        (0.0, 0.25),
        (0.19, 0.25),
        (0.2, 0.5),
        (0.39, 0.5),
        (0.4, 1.0),
        (0.59, 1.0),
        (0.6, 2.0),
        (0.79, 2.0),
        (0.8, 3.0),
        (1.0, 3.0),
    ];
    for &(value, factor) in cases.iter() {
        let mut o = open_oscillator(OscillatorType::Pulse);
        o.set_params(OscillatorType::Pulse, HALF, to_fixed(value), 0, 0, 0);
        assert_eq!(o.octave_mod, to_fixed(factor));
        o.note_on(69, 127, false);
        o.process();
        assert!((to_real(o.phase) - factor * 440.0 / 44100.0).abs() < 1e-9);
    }
}

#[test]
fn set_params_clamps_its_ranges() {
    let mut o = Oscillator::default();
    o.set_params(OscillatorType::Pulse, 0, HALF, 0, 100, 500 * ONE);
    assert_eq!(o.pulsewidth, 1);
    assert_eq!(o.semitone_mod, 24);
    assert_eq!(o.fine_mod, 100 * ONE);
    o.set_params(OscillatorType::Pulse, 2 * ONE, HALF, 0, -100, -500 * ONE);
    assert_eq!(o.pulsewidth, ONE - 1);
    assert_eq!(o.semitone_mod, -24);
    assert_eq!(o.fine_mod, -100 * ONE);
    o.set_params(OscillatorType::Triangle, ONE / 3, HALF, 7 * ONE, -5, 12 * ONE);
    assert_eq!(o.osc_type, OscillatorType::Triangle);
    assert_eq!(o.pulsewidth, ONE / 3);
    assert_eq!(o.port_time, 7 * ONE);
    assert_eq!(o.semitone_mod, -5);
    assert_eq!(o.fine_mod, 12 * ONE);
}

#[test]
fn velocity_is_normalised_and_capped() {
    let mut o = Oscillator::default();
    o.note_on(69, 127, false);
    assert_eq!(o.velocity, ONE);
    o.note_on(69, 0, false);
    assert_eq!(o.velocity, 0);
    o.note_on(69, 64, false);
    assert!((to_real(o.velocity) - 64.0 / 127.0).abs() < 1e-9);
    o.note_on(69, 255, false);
    assert_eq!(o.velocity, ONE);
}

#[test]
fn velocity_zero_gives_a_silent_but_started_voice() {
    let mut o = open_oscillator(OscillatorType::Pulse);
    o.note_on(69, 0, false);
    assert_eq!(o.envelope.get_state(), ADSRState::Attack);
    for _ in 0..100 {
        assert_eq!(o.process(), 0);
    }
    assert_eq!(o.envelope.get_state(), ADSRState::Sustain);
}

#[test]
fn polyphonic_note_on_jumps_to_the_pitch() {
    let mut o = open_oscillator(OscillatorType::Pulse);
    o.note_on(57, 100, false);
    o.note_on(69, 100, false);
    assert_eq!(o.get_current_note(), 69);
    assert_eq!(o.frequency, 440 * ONE);
    assert_eq!(o.previous_frequency, 440 * ONE);
    assert!(!o.monophonic);
}

#[test]
fn monophonic_note_on_glides_from_the_previous_pitch() {
    let mut o = open_oscillator(OscillatorType::Pulse);
    // a glide of a hundred samples
    o.set_params(OscillatorType::Pulse, HALF, HALF, fx_div_whole(100, 44100 * ONE), 0, 0);
    o.note_on(57, 100, true);
    for _ in 0..500 {
        o.process();
    }
    o.note_on(69, 100, true);
    assert!(o.monophonic);
    assert_eq!(o.previous_frequency, 220 * ONE);
    assert_eq!(o.frequency, 440 * ONE);
    assert_eq!(o.sample_counter, 0);
    let mut before = o.phase;
    for n in 0..100u32 {
        o.process();
        let mut advanced = o.phase - before;
        if advanced < 0 {
            advanced += ONE;
        }
        let want = (220.0 + 220.0 * n as f64 / 100.0) / 44100.0;
        assert!((to_real(advanced) - want).abs() < 1e-6, "sample {}", n);
        assert_eq!(o.sample_counter, n + 1);
        before = o.phase;
    }
    // the glide is over: the frequency snaps to the target and the counter rests
    for _ in 0..50 {
        o.process();
        let mut advanced = o.phase - before;
        if advanced < 0 {
            advanced += ONE;
        }
        assert!((to_real(advanced) - 440.0 / 44100.0).abs() < 1e-9);
        assert_eq!(o.sample_counter, 100);
        before = o.phase;
    }
}

#[test]
fn note_off_releases_the_envelope() {
    let mut o = open_oscillator(OscillatorType::Saw);
    o.note_off();
    assert_eq!(o.envelope.get_state(), ADSRState::Idle);
    o.note_on(69, 100, false);
    o.process();
    o.note_off();
    assert_eq!(o.envelope.get_state(), ADSRState::Release);
    assert_eq!(o.get_current_note(), 69);
}

#[test]
fn oscillator_sample_rate_reaches_the_envelope() {
    let mut o = Oscillator::default();
    o.set_sample_rate(96000 * ONE);
    assert_eq!(o.sample_rate, 96000 * ONE);
    assert_eq!(o.envelope.sample_rate, 96000 * ONE);
    o.set_sample_rate(0);
    assert_eq!(o.sample_rate, ONE);
    assert_eq!(o.envelope.sample_rate, ONE);
    let mut p = open_oscillator(OscillatorType::Pulse);
    p.set_sample_rate(22050 * ONE);
    p.note_on(69, 127, false);
    p.process();
    assert!((to_real(p.phase) - 440.0 / 22050.0).abs() < 1e-9);
}

#[test]
fn lfo_puts_out_the_scaled_sine_then_advances() {
    let mut lfo = LFO::default();
    assert_eq!(lfo.frequency, 5 * ONE);
    assert_eq!(lfo.depth, 0);
    assert_eq!(lfo.process(), 0);
    lfo.set_params(ONE / 2, 441 * ONE);
    let mut phase = lfo.phase;
    for _ in 0..1000 {
        let out = lfo.process();
        let want = 0.5 * (2.0 * std::f64::consts::PI * to_real(phase)).sin();
        assert!((to_real(out) - want).abs() < 1e-8);
        let mut advanced = lfo.phase - phase;
        if advanced < 0 {
            advanced += ONE;
        }
        assert!((to_real(advanced) - 0.01).abs() < 1e-9);
        assert!(lfo.phase >= 0 && lfo.phase < ONE);
        phase = lfo.phase;
    }
}

#[test]
fn lfo_depth_is_clamped() {
    let mut lfo = LFO::default();
    lfo.set_params(3 * ONE, ONE);
    assert_eq!(lfo.depth, ONE);
    lfo.set_params(-ONE, ONE);
    assert_eq!(lfo.depth, 0);
}

#[test]
fn monophonic_note_on_a_resting_oscillator_jumps_to_the_pitch() {
    let mut o = open_oscillator(OscillatorType::Pulse);
    o.set_params(OscillatorType::Pulse, HALF, HALF, ONE, 0, 0);
    o.note_on(69, 100, true);
    assert!(o.monophonic);
    assert_eq!(o.frequency, 440 * ONE);
    assert_eq!(o.previous_frequency, 440 * ONE);
    assert_eq!(o.sample_counter, 0);
    o.process();
    assert!((to_real(o.phase) - 440.0 / 44100.0).abs() < 1e-9);
    // once it sounds, the next note glides
    o.note_on(81, 100, true);
    assert_eq!(o.previous_frequency, 440 * ONE);
    assert_eq!(o.frequency, 880 * ONE);
}

#[test]
fn monophonic_note_on_a_releasing_oscillator_glides() {
    let mut o = open_oscillator(OscillatorType::Pulse);
    o.envelope.set_params(0, 0, ONE, ONE);
    o.note_on(57, 100, true);
    o.process();
    o.note_off();
    o.process();
    assert_eq!(o.envelope.get_state(), ADSRState::Release);
    o.note_on(69, 100, true);
    assert_eq!(o.previous_frequency, 220 * ONE);
    assert_eq!(o.frequency, 440 * ONE);
}

#[test]
fn oscillator_reset_returns_to_the_start_of_the_cycle() {
    let mut o = open_oscillator(OscillatorType::Sin);
    o.note_on(69, 100, true);
    for _ in 0..100 {
        o.process();
    }
    o.reset();
    assert_eq!(o.phase, 0);
    assert_eq!(o.output, 0);
    assert_eq!(o.sample_counter, 0);
    assert_eq!(o.envelope.get_state(), ADSRState::Idle);
    assert_eq!(o.envelope.get_output(), 0);
    assert_eq!(o.get_current_note(), 69);
    assert_eq!(o.frequency, 440 * ONE);
    assert_eq!(o.process(), 0);
}

#[test]
fn lfo_reset_returns_to_the_start_of_the_cycle() {
    let mut lfo = LFO::default();
    lfo.set_params(ONE, 100 * ONE);
    for _ in 0..77 {
        lfo.process();
    }
    assert!(lfo.phase > 0);
    lfo.reset();
    assert_eq!(lfo.phase, 0);
    assert_eq!(lfo.output, 0);
    assert_eq!(lfo.depth, ONE);
    assert_eq!(lfo.frequency, 100 * ONE);
}

#[test]
fn octave_factor_is_exposed() {
    assert_eq!(rs_synth::oscillator::octave(0), ONE / 4);
    assert_eq!(rs_synth::oscillator::octave(HALF), ONE);
    assert_eq!(rs_synth::oscillator::octave(ONE), 3 * ONE);
}

#[test]
fn lfo_follows_the_sample_rate() {
    let mut lfo = LFO::default();
    lfo.set_params(ONE, 480 * ONE);
    lfo.set_sample_rate(48000 * ONE);
    assert_eq!(lfo.sample_rate, 48000 * ONE);
    lfo.process();
    assert!((to_real(lfo.phase) - 0.01).abs() < 1e-9);
    lfo.set_sample_rate(-5);
    assert_eq!(lfo.sample_rate, ONE);
}

#[test]
fn octaves_of_a4_are_exact() {
    assert_eq!(mtof(45), 110 * ONE);
    assert_eq!(mtof(57), 220 * ONE);
    assert_eq!(mtof(69), 440 * ONE);
    assert_eq!(mtof(81), 880 * ONE);
    assert_eq!(mtof(93), 1760 * ONE);
    for note in 0..=255u8 {
        assert!(mtof(note) > 4 * ONE);
    }
}
