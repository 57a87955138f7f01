use rs_synth::adsr::ADSRState;
use rs_synth::fixed::{fx_add, fx_mul, ONE};
use rs_synth::oscillator::{mtof, OscillatorType};
use rs_synth::params::{
    SynthParameters, ATTACK, FILTER_CUTOFF, NUM_VOICES, OSC_ONE_TYPE, OSC_ONE_VOLUME,
    OSC_TWO_VOLUME, PITCH_LFO_DEPTH, PORTAMENTO, RELEASE,
};
use rs_synth::synth::{holds, position, Synth, VOICES};

fn to_fixed(x: f64) -> i64 {
    (x * ONE as f64).round() as i64
}

fn render(s: &mut Synth, p: &SynthParameters, frames: usize) -> Vec<i64> {
    let mut out = vec![i64::MIN; frames];
    s.process(p, &mut out);
    out
}

fn patch(voices: usize) -> SynthParameters {
    let mut p = SynthParameters::default();
    p.set_parameter(NUM_VOICES as i32, to_fixed((voices as f64 - 1.0) / 7.0));
    p
}

#[test]
fn new_engine_has_eight_idle_voices() {
    let s = Synth::new();
    assert_eq!(VOICES, 8);
    assert_eq!(s.oscillators_one.len(), 8);
    assert_eq!(s.oscillators_two.len(), 8);
    assert_eq!(s.filters.len(), 8);
    assert_eq!(s.last_played_osc_index, 0);
    assert_eq!(s.current_num_voices, 8);
    assert!(!s.monophonic);
    assert!(s.active_notes.is_empty());
    assert_eq!(s.sample_rate, 44100 * ONE);
    for i in 0..8 {
        assert_eq!(s.oscillators_one[i].envelope.get_state(), ADSRState::Idle);
        assert_eq!(s.filters[i].envelope.get_state(), ADSRState::Idle);
    }
}

#[test]
fn notes_take_the_voices_in_index_order() {
    let mut s = Synth::new();
    for n in 0..8u8 {
        assert_eq!(s.last_played_osc_index, n as usize);
        s.note_on(40 + n, 100);
    }
    for i in 0..8 {
        assert_eq!(s.oscillators_one[i].get_current_note(), 40 + i as u8);
        assert_eq!(s.oscillators_two[i].get_current_note(), 40 + i as u8);
        assert_eq!(s.oscillators_one[i].envelope.get_state(), ADSRState::Attack);
        assert_eq!(s.oscillators_two[i].envelope.get_state(), ADSRState::Attack);
        assert_eq!(s.filters[i].envelope.get_state(), ADSRState::Attack);
    }
    assert_eq!(s.last_played_osc_index, 0);
}

#[test]
fn ninth_note_steals_the_first_voice() {
    let mut s = Synth::new();
    for n in 0..9u8 {
        s.note_on(40 + n, 100);
    }
    assert_eq!(s.oscillators_one[0].get_current_note(), 48);
    assert_eq!(s.oscillators_one[0].frequency, mtof(48));
    for i in 1..8 {
        assert_eq!(s.oscillators_one[i].get_current_note(), 40 + i as u8);
    }
    assert_eq!(s.last_played_osc_index, 1);
}

#[test]
fn fewer_voices_wrap_sooner() {
    let mut s = Synth::new();
    render(&mut s, &patch(3), 1);
    assert_eq!(s.current_num_voices, 3);
    for n in 0..4u8 {
        s.note_on(50 + n, 100);
    }
    assert_eq!(s.oscillators_one[0].get_current_note(), 53);
    assert_eq!(s.oscillators_one[1].get_current_note(), 51);
    assert_eq!(s.oscillators_one[2].get_current_note(), 52);
    assert_eq!(s.oscillators_one[3].get_current_note(), 60);
    assert_eq!(s.last_played_osc_index, 1);
}

#[test]
fn held_notes_are_stacked_once() {
    let mut s = Synth::new();
    s.note_on(60, 10);
    s.note_on(64, 20);
    s.note_on(60, 30);
    assert_eq!(s.active_notes, vec![60, 64]);
    assert_eq!(s.active_velocities, vec![10, 20]);
    s.note_off(60);
    assert_eq!(s.active_notes, vec![64]);
    assert_eq!(s.active_velocities, vec![20]);
    s.note_off(61);
    assert_eq!(s.active_notes, vec![64]);
    s.note_off(64);
    assert!(s.active_notes.is_empty());
    assert!(s.active_velocities.is_empty());
}

#[test]
fn note_off_releases_the_voices_that_hold_the_note() {
    let mut s = Synth::new();
    render(&mut s, &patch(8), 1);
    s.note_on(60, 100);
    s.note_on(64, 100);
    s.note_on(60, 100);
    render(&mut s, &patch(8), 4);
    s.note_off(60);
    for i in [0, 2] {
        assert_eq!(s.oscillators_one[i].envelope.get_state(), ADSRState::Release);
        assert_eq!(s.oscillators_two[i].envelope.get_state(), ADSRState::Release);
        assert_eq!(s.filters[i].envelope.get_state(), ADSRState::Release);
    }
    assert_eq!(s.oscillators_one[1].envelope.get_state(), ADSRState::Sustain);
    assert_eq!(s.filters[1].envelope.get_state(), ADSRState::Sustain);
    // the resting voices remember note 60 too, but stay idle
    for i in 3..8 {
        assert_eq!(s.oscillators_one[i].get_current_note(), 60);
        assert_eq!(s.oscillators_one[i].envelope.get_state(), ADSRState::Idle);
        assert_eq!(s.filters[i].envelope.get_state(), ADSRState::Idle);
    }
}

#[test]
fn monophonic_engine_returns_to_the_note_held_before() {
    let mut s = Synth::new();
    let mut p = patch(1);
    p.set_parameter(PORTAMENTO as i32, ONE / 2);
    render(&mut s, &p, 1);
    assert!(s.monophonic);
    assert_eq!(s.current_num_voices, 1);
    s.note_on(57, 90);
    render(&mut s, &p, 10);
    s.note_on(69, 110);
    render(&mut s, &p, 10);
    assert_eq!(s.oscillators_one[0].get_current_note(), 69);
    assert_eq!(s.active_notes, vec![57, 69]);
    s.note_off(69);
    assert_eq!(s.active_notes, vec![57]);
    assert_eq!(s.last_played_osc_index, 0);
    for osc in [&s.oscillators_one[0], &s.oscillators_two[0]] {
        assert_eq!(osc.get_current_note(), 57);
        assert!(osc.monophonic);
        assert_eq!(osc.previous_frequency, 440 * ONE);
        assert_eq!(osc.frequency, 220 * ONE);
        assert_eq!(osc.sample_counter, 0);
        assert_eq!(osc.envelope.get_state(), ADSRState::Attack);
        assert!((osc.velocity - to_fixed(90.0 / 127.0)).abs() <= 1);
    }
    assert_eq!(s.filters[0].envelope.get_state(), ADSRState::Attack);
    // the glide is engaged: the pitch moves from 440 Hz towards 220 Hz
    let before = s.oscillators_one[0].phase;
    render(&mut s, &p, 1);
    assert_eq!(s.oscillators_one[0].sample_counter, 1);
    let mut advanced = s.oscillators_one[0].phase - before;
    if advanced < 0 {
        advanced += 2 * ONE;
    }
    let step = advanced as f64 / ONE as f64 / 2.0;
    assert!((step - 440.0 / 44100.0).abs() < 1e-6);
    s.note_off(57);
    assert!(s.active_notes.is_empty());
    assert_eq!(s.oscillators_one[0].envelope.get_state(), ADSRState::Release);
}

#[test]
fn monophonic_engine_follows_the_last_of_many_held_notes() {
    let mut s = Synth::new();
    render(&mut s, &patch(1), 1);
    s.note_on(50, 1);
    s.note_on(55, 2);
    s.note_on(59, 3);
    s.note_off(55);
    assert_eq!(s.active_notes, vec![50, 59]);
    assert_eq!(s.oscillators_one[0].get_current_note(), 59);
    s.note_off(59);
    assert_eq!(s.active_notes, vec![50]);
    assert_eq!(s.oscillators_one[0].get_current_note(), 50);
    assert_eq!(s.oscillators_one[0].envelope.get_state(), ADSRState::Attack);
}

#[test]
fn polyphonic_engine_does_not_restart_held_notes() {
    let mut s = Synth::new();
    s.note_on(60, 100);
    s.note_on(64, 100);
    s.note_off(64);
    assert_eq!(s.oscillators_one[1].envelope.get_state(), ADSRState::Release);
    assert_eq!(s.oscillators_one[0].envelope.get_state(), ADSRState::Attack);
    assert_eq!(s.last_played_osc_index, 2);
    assert!(!s.oscillators_one[0].monophonic);
}

#[test]
fn lowering_the_voice_count_releases_the_voices_above_it() {
    let mut s = Synth::new();
    for n in 0..8u8 {
        s.note_on(40 + n, 100);
    }
    render(&mut s, &patch(8), 4);
    s.set_voice_count(3);
    assert_eq!(s.current_num_voices, 3);
    assert!(!s.monophonic);
    for i in 0..3 {
        assert_eq!(s.oscillators_one[i].envelope.get_state(), ADSRState::Sustain);
    }
    for i in 3..8 {
        assert_eq!(s.oscillators_one[i].envelope.get_state(), ADSRState::Release);
        assert_eq!(s.oscillators_two[i].envelope.get_state(), ADSRState::Release);
        assert_eq!(s.filters[i].envelope.get_state(), ADSRState::Release);
    }
    s.set_voice_count(6);
    assert_eq!(s.current_num_voices, 6);
    for i in 0..3 {
        assert_eq!(s.oscillators_one[i].envelope.get_state(), ADSRState::Sustain);
    }
}

#[test]
fn voice_count_is_clamped() {
    let mut s = Synth::new();
    s.set_voice_count(0);
    assert_eq!(s.current_num_voices, 1);
    assert!(s.monophonic);
    s.set_voice_count(100);
    assert_eq!(s.current_num_voices, 8);
    assert!(!s.monophonic);
}

#[test]
fn a_single_voice_brings_the_cursor_home() {
    let mut s = Synth::new();
    for n in 0..5u8 {
        s.note_on(40 + n, 100);
    }
    assert_eq!(s.last_played_osc_index, 5);
    s.set_voice_count(4);
    assert_eq!(s.last_played_osc_index, 5);
    s.set_voice_count(1);
    assert_eq!(s.last_played_osc_index, 0);
    assert!(s.monophonic);
    s.note_on(70, 100);
    assert_eq!(s.oscillators_one[0].get_current_note(), 70);
    assert_eq!(s.last_played_osc_index, 0);
}

#[test]
fn midi_messages_start_and_end_notes() {
    let mut s = Synth::new();
    s.process_midi_event([144, 60, 100]);
    assert_eq!(s.oscillators_one[0].get_current_note(), 60);
    assert_eq!(s.oscillators_one[0].envelope.get_state(), ADSRState::Attack);
    assert_eq!(s.active_notes, vec![60]);
    s.process_midi_event([176, 60, 100]);
    s.process_midi_event([0, 0, 0]);
    assert_eq!(s.active_notes, vec![60]);
    assert_eq!(s.last_played_osc_index, 1);
    s.process_midi_event([128, 60, 0]);
    assert_eq!(s.oscillators_one[0].envelope.get_state(), ADSRState::Release);
    assert!(s.active_notes.is_empty());
}

#[test]
fn note_on_with_velocity_zero_is_a_silent_note() {
    let mut s = Synth::new();
    s.process_midi_event([144, 60, 0]);
    assert_eq!(s.oscillators_one[0].envelope.get_state(), ADSRState::Attack);
    assert_eq!(s.active_notes, vec![60]);
    let out = render(&mut s, &patch(8), 64);
    assert!(out.iter().all(|&x| x == 0));
}

#[test]
fn sample_rate_reaches_every_voice() {
    let mut s = Synth::new();
    s.set_sample_rate(48000 * ONE);
    assert_eq!(s.sample_rate, 48000 * ONE);
    assert_eq!(s.pitch_lfo.sample_rate, 48000 * ONE);
    for i in 0..8 {
        assert_eq!(s.oscillators_one[i].sample_rate, 48000 * ONE);
        assert_eq!(s.oscillators_one[i].envelope.sample_rate, 48000 * ONE);
        assert_eq!(s.oscillators_two[i].sample_rate, 48000 * ONE);
        assert_eq!(s.filters[i].sample_rate, 48000 * ONE);
        assert_eq!(s.filters[i].filter_state.sample_rate, 48000 * ONE);
        assert_eq!(s.filters[i].envelope.sample_rate, 48000 * ONE);
    }
    s.set_sample_rate(0);
    assert_eq!(s.sample_rate, ONE);
    assert_eq!(s.filters[7].sample_rate, ONE);
}

#[test]
fn process_renders_the_frames_it_is_asked_for() {
    let mut s = Synth::new();
    let p = patch(8);
    assert_eq!(render(&mut s, &p, 0).len(), 0);
    assert_eq!(render(&mut s, &p, 1).len(), 1);
    assert_eq!(render(&mut s, &p, 512).len(), 512);
}

#[test]
fn engine_without_notes_is_silent() {
    let mut s = Synth::new();
    let out = render(&mut s, &patch(8), 256);
    assert!(out.iter().all(|&x| x == 0));
}

#[test]
fn a_note_sounds_and_dies_away_after_its_release() {
    let mut s = Synth::new();
    let mut p = patch(8);
    p.set_parameter(OSC_ONE_TYPE as i32, ONE / 4);
    p.set_parameter(RELEASE as i32, to_fixed(0.03));
    render(&mut s, &p, 1);
    s.note_on(69, 127);
    let out = render(&mut s, &p, 512);
    let peak = out.iter().map(|x| x.abs()).max().unwrap();
    assert!(peak > ONE / 100);
    assert!(peak <= ONE);
    s.note_off(69);
    render(&mut s, &p, 2048);
    let tail = render(&mut s, &p, 512);
    assert_eq!(s.oscillators_one[0].envelope.get_state(), ADSRState::Idle);
    assert!(tail.iter().map(|x| x.abs()).max().unwrap() < ONE / 1000);
}

#[test]
fn render_is_deterministic() {
    let mut a = Synth::new();
    let mut b = Synth::new();
    let mut p = patch(4);
    p.set_parameter(PITCH_LFO_DEPTH as i32, ONE / 3);
    p.set_parameter(ATTACK as i32, ONE / 10);
    for s in [&mut a, &mut b] {
        render(s, &p, 1);
        s.note_on(60, 100);
        s.note_on(67, 80);
    }
    let whole = render(&mut a, &p, 300);
    let mut parts = render(&mut b, &p, 100);
    parts.extend(render(&mut b, &p, 200));
    assert_eq!(whole.len(), parts.len());
    // the filter is retuned between blocks, so only the first block must agree
    assert_eq!(whole[..100], parts[..100]);
}

#[test]
fn a_frame_is_the_sum_of_the_filtered_voices() {
    let mut s = Synth::new();
    let mut p = patch(8);
    p.set_parameter(OSC_ONE_VOLUME as i32, ONE / 2);
    p.set_parameter(OSC_TWO_VOLUME as i32, ONE / 4);
    p.set_parameter(PITCH_LFO_DEPTH as i32, ONE / 2);
    p.set_parameter(FILTER_CUTOFF as i32, ONE / 2);
    render(&mut s, &p, 1);
    s.note_on(60, 100);
    s.note_on(64, 90);
    s.note_on(67, 80);
    render(&mut s, &p, 32);
    let mut one = s.oscillators_one.clone();
    let mut two = s.oscillators_two.clone();
    let mut filters = s.filters.clone();
    let mut lfo = s.pitch_lfo;
    for _ in 0..64 {
        let got = s.render_frame(ONE / 2, ONE / 4);
        let amt = lfo.process();
        let mut want = 0;
        for i in 0..VOICES {
            let a = one[i].process_with_pitch_mod(amt);
            let b = two[i].process_with_pitch_mod(amt);
            let voice = filters[i].process(fx_add(fx_mul(a, ONE / 2), fx_mul(b, ONE / 4)));
            want = fx_add(want, voice);
        }
        assert_eq!(got, want);
    }
}

#[test]
fn parameters_reach_every_voice() {
    let mut s = Synth::new();
    let mut p = patch(8);
    p.set_parameter(OSC_ONE_TYPE as i32, ONE);
    p.set_parameter(6, ONE / 2);
    p.set_parameter(3, ONE);
    p.set_parameter(4, 0);
    p.set_parameter(16, ONE);
    p.set_parameter(PORTAMENTO as i32, ONE);
    p.set_parameter(14, ONE / 4);
    p.set_parameter(21, ONE / 8);
    p.set_parameter(23, ONE / 2);
    p.set_parameter(24, ONE);
    s.apply_parameters(&p);
    for i in 0..VOICES {
        assert_eq!(s.oscillators_one[i].osc_type, OscillatorType::Sin);
        assert_eq!(s.oscillators_two[i].osc_type, OscillatorType::Triangle);
        assert_eq!(s.oscillators_one[i].semitone_mod, 24);
        assert_eq!(s.oscillators_two[i].semitone_mod, 0);
        assert_eq!(s.oscillators_one[i].fine_mod, -100 * ONE);
        assert!((s.oscillators_one[i].port_time - 10 * ONE).abs() <= 2);
        assert_eq!(s.oscillators_one[i].envelope.sustain, ONE / 4);
        assert_eq!(s.oscillators_two[i].envelope.sustain, ONE / 4);
        assert_eq!(s.filters[i].envelope.sustain, ONE / 8);
        assert_eq!(s.filters[i].filter_type, rs_synth::filter::FilterType::Highpass);
    }
    assert_eq!(s.pitch_lfo.depth, ONE / 4);
    assert!((s.pitch_lfo.frequency - 20 * ONE).abs() <= 2);
}

#[test]
fn searching_the_stack_of_held_notes() {
    let notes = vec![60u8, 64, 67];
    assert!(holds(&notes, 64));
    assert!(!holds(&notes, 65));
    assert_eq!(position(&notes, 60), Some(0));
    assert_eq!(position(&notes, 67), Some(2));
    assert_eq!(position(&notes, 1), None);
    assert_eq!(position(&Vec::new(), 1), None);
}

#[test]
fn reset_silences_the_whole_engine() {
    let mut s = Synth::new();
    let mut p = patch(5);
    p.set_parameter(PITCH_LFO_DEPTH as i32, ONE / 2);
    render(&mut s, &p, 1);
    for n in 0..7u8 {
        s.note_on(50 + n, 100);
    }
    render(&mut s, &p, 256);
    s.reset();
    assert_eq!(s.last_played_osc_index, 0);
    assert!(s.active_notes.is_empty());
    assert!(s.active_velocities.is_empty());
    assert_eq!(s.current_num_voices, 5);
    assert_eq!(s.pitch_lfo.phase, 0);
    for i in 0..VOICES {
        assert_eq!(s.oscillators_one[i].phase, 0);
        assert_eq!(s.oscillators_two[i].phase, 0);
        assert_eq!(s.oscillators_one[i].envelope.get_state(), ADSRState::Idle);
        assert_eq!(s.oscillators_two[i].envelope.get_output(), 0);
        assert_eq!(s.filters[i].envelope.get_state(), ADSRState::Idle);
        assert_eq!((s.filters[i].s1, s.filters[i].s2), (0, 0));
    }
    let out = render(&mut s, &p, 128);
    assert!(out.iter().all(|&x| x == 0));
}

#[test]
fn first_monophonic_note_does_not_glide() {
    let mut s = Synth::new();
    let mut p = patch(1);
    p.set_parameter(PORTAMENTO as i32, ONE);
    render(&mut s, &p, 1);
    s.note_on(69, 100);
    assert!(s.oscillators_one[0].monophonic);
    assert_eq!(s.oscillators_one[0].previous_frequency, 440 * ONE);
    assert_eq!(s.oscillators_one[0].frequency, 440 * ONE);
}

#[test]
fn extreme_values_are_taken_in_stride() {
    let extremes = [i64::MIN, i64::MIN + 1, -ONE, -1, 0, 1, ONE, i64::MAX - 1, i64::MAX];
    for &a in extremes.iter() {
        rs_synth::math::sine(a);
        rs_synth::math::exp2(a);
        rs_synth::math::exp_neg(a);
        rs_synth::math::tan_pi(a);
        rs_synth::params::truncate(a);
        rs_synth::params::semitones(a);
        rs_synth::params::voice_count(a);
        rs_synth::params::portamento(a);
        for &b in extremes.iter() {
            fx_mul(a, b);
            fx_add(a, b);
            rs_synth::fixed::fx_sub(a, b);
            rs_synth::oscillator::wrap_unit(a, b);
            rs_synth::oscillator::wrap_saw(a, b);
            if b > 0 {
                rs_synth::fixed::fx_div(a, b);
            }
            rs_synth::adsr::calculate_coefficient(a, b);
            let mut s = Synth::new();
            s.set_sample_rate(a);
            s.note_on(255, 255);
            s.note_on(0, 0);
            for i in 0..VOICES {
                s.oscillators_one[i].set_params(OscillatorType::Saw, a, b, a, 127, b);
                s.oscillators_two[i].set_params(OscillatorType::Sin, b, a, b, -128, a);
                s.oscillators_one[i].envelope.set_params(a, b, a, b);
                s.filters[i].set_params(a, b, a, b, a, b, a);
                s.filters[i].filter_state.set_params(b, a);
            }
            s.pitch_lfo.set_params(a, b);
            for _ in 0..4 {
                let out = s.render_frame(a, b);
                assert!(out >= -i64::MAX);
            }
            s.note_off(255);
            s.reset();
        }
    }
}

#[test]
fn filters_of_a_fresh_engine_are_open_from_the_first_block() {
    let mut s = Synth::new();
    let mut p = patch(8);
    p.set_parameter(OSC_ONE_TYPE as i32, ONE / 4);
    s.note_on(69, 127);
    let out = render(&mut s, &p, 256);
    for i in 0..VOICES {
        assert_eq!(s.filters[i].filter_state.cutoff, 20000 * ONE);
    }
    // a pulse of 440 Hz at volume 0.05 passes a filter that is open at 20 kHz
    let peak = out.iter().map(|x| x.abs()).max().unwrap();
    assert!(peak > ONE / 50);
}
