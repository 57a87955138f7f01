use rs_synth::adsr::{
    calculate_coefficient, ADSRState, ADSR, ATTACK_LOG_RATIO, ATTACK_TARGET_RATIO, DR_LOG_RATIO,
    DR_TARGET_RATIO,
};
use rs_synth::fixed::ONE;

fn to_real(v: i64) -> f64 {
    v as f64 / ONE as f64
}

fn to_fixed(x: f64) -> i64 {
    (x * ONE as f64).round() as i64
}

fn envelope(attack: f64, decay: f64, sustain: f64, release: f64) -> ADSR {
    let mut e = ADSR::default();
    e.set_sample_rate(44100 * ONE);
    e.set_params(to_fixed(attack), to_fixed(decay), to_fixed(sustain), to_fixed(release));
    e
}

#[test]
fn default_envelope_is_idle_and_silent() {
    let e = ADSR::default();
    assert_eq!(e.get_state(), ADSRState::Idle);
    assert_eq!(e.get_output(), 0);
    assert_eq!(e.sustain, to_fixed(0.8));
    assert_eq!(e.sample_rate, 44100 * ONE);
    assert_eq!(e.attack, to_fixed(0.2));
    assert_eq!(e.decay, to_fixed(0.1));
    assert_eq!(e.release, to_fixed(0.5));
    let attack = (-(1.3f64 / 0.3).ln() / 8820.0).exp();
    assert!((to_real(e.attack_coeff) - attack).abs() < 2e-9);
    let decay = (-(1.0001f64 / 0.0001).ln() / 4410.0).exp();
    assert!((to_real(e.decay_coeff) - decay).abs() < 2e-9);
    assert!((to_real(e.decay_base) - (0.8 - 0.0001) * (1.0 - decay)).abs() < 1e-8);
}

#[test]
fn coefficient_follows_the_exponential_model() {
    for samples in [1.0f64, 10.0, 441.0, 4410.0, 44100.0, 441000.0] {
        let attack = calculate_coefficient(to_fixed(samples), ATTACK_LOG_RATIO);
        let want_attack = (-(1.3f64 / 0.3).ln() / samples).exp();
        assert!((to_real(attack) - want_attack).abs() < 2e-9);
        let release = calculate_coefficient(to_fixed(samples), DR_LOG_RATIO);
        let want_release = (-(1.0001f64 / 0.0001).ln() / samples).exp();
        assert!((to_real(release) - want_release).abs() < 2e-9);
    }
}

#[test]
fn coefficient_of_an_empty_segment_is_zero() {
    assert_eq!(calculate_coefficient(0, ATTACK_LOG_RATIO), 0);
    assert_eq!(calculate_coefficient(-5 * ONE, DR_LOG_RATIO), 0);
}

#[test]
fn bases_follow_their_formulas() {
    let e = envelope(0.05, 0.2, 0.6, 0.3);
    let ca = to_real(e.attack_coeff);
    let cd = to_real(e.decay_coeff);
    let cr = to_real(e.release_coeff);
    assert!((to_real(e.attack_base) - 1.3 * (1.0 - ca)).abs() < 1e-8);
    assert!((to_real(e.decay_base) - (0.6 - 0.0001) * (1.0 - cd)).abs() < 1e-8);
    assert!((to_real(e.release_base) + 0.0001 * (1.0 - cr)).abs() < 1e-8);
    assert_eq!(ATTACK_TARGET_RATIO, to_fixed(0.3));
    assert_eq!(DR_TARGET_RATIO, to_fixed(0.0001));
}

#[test]
fn set_params_keeps_the_times_and_derives_the_coefficients() {
    let e = envelope(0.5, 0.25, 0.5, 2.0);
    assert_eq!(e.attack, ONE / 2);
    assert_eq!(e.decay, ONE / 4);
    assert_eq!(e.release, 2 * ONE);
    assert_eq!(e.sustain, ONE / 2);
    assert_eq!(e.attack_coeff, calculate_coefficient(22050 * ONE, ATTACK_LOG_RATIO));
    assert_eq!(e.decay_coeff, calculate_coefficient(11025 * ONE, DR_LOG_RATIO));
    assert_eq!(e.release_coeff, calculate_coefficient(88200 * ONE, DR_LOG_RATIO));
}

#[test]
fn set_sample_rate_derives_the_coefficients_anew() {
    let mut e = envelope(0.5, 0.25, 0.5, 2.0);
    e.start_note();
    for _ in 0..100 {
        e.process();
    }
    let output = e.get_output();
    e.set_sample_rate(96000 * ONE);
    assert_eq!(e.sample_rate, 96000 * ONE);
    assert_eq!(e.attack, ONE / 2);
    assert_eq!(e.attack_coeff, calculate_coefficient(48000 * ONE, ATTACK_LOG_RATIO));
    assert_eq!(e.decay_coeff, calculate_coefficient(24000 * ONE, DR_LOG_RATIO));
    assert_eq!(e.release_coeff, calculate_coefficient(192000 * ONE, DR_LOG_RATIO));
    assert!((to_real(e.attack_base) - 1.3 * (1.0 - to_real(e.attack_coeff))).abs() < 1e-8);
    assert_eq!(e.get_output(), output);
    assert_eq!(e.get_state(), ADSRState::Attack);
}

#[test]
fn set_params_clamps_the_sustain_level() {
    let high = envelope(0.1, 0.1, 1.5, 0.1);
    assert_eq!(high.sustain, ONE);
    let low = envelope(0.1, 0.1, -0.5, 0.1);
    assert_eq!(low.sustain, 0);
}

#[test]
fn set_params_leaves_state_and_output() {
    let mut e = envelope(0.01, 0.1, 0.5, 0.1);
    e.start_note();
    for _ in 0..100 {
        e.process();
    }
    let output = e.get_output();
    let state = e.get_state();
    e.set_params(to_fixed(1.0), to_fixed(2.0), to_fixed(0.1), to_fixed(3.0));
    assert_eq!(e.get_output(), output);
    assert_eq!(e.get_state(), state);
}

#[test]
fn set_sample_rate_raises_low_rates_to_one_hertz() {
    let mut e = ADSR::default();
    e.set_sample_rate(0);
    assert_eq!(e.sample_rate, ONE);
    e.set_sample_rate(-44100 * ONE);
    assert_eq!(e.sample_rate, ONE);
    e.set_sample_rate(48000 * ONE);
    assert_eq!(e.sample_rate, 48000 * ONE);
}

#[test]
fn idle_envelope_ignores_end_note_and_samples() {
    let mut e = envelope(0.01, 0.01, 0.5, 0.01);
    e.end_note();
    assert_eq!(e.get_state(), ADSRState::Idle);
    e.process();
    assert_eq!(e.get_state(), ADSRState::Idle);
    assert_eq!(e.get_output(), 0);
}

#[test]
fn start_note_enters_attack_from_every_state() {
    let mut e = envelope(0.01, 0.01, 0.5, 0.01);
    e.start_note();
    assert_eq!(e.get_state(), ADSRState::Attack);
    e.start_note();
    assert_eq!(e.get_state(), ADSRState::Attack);
    e.end_note();
    assert_eq!(e.get_state(), ADSRState::Release);
    e.start_note();
    assert_eq!(e.get_state(), ADSRState::Attack);
}

#[test]
fn restart_resumes_from_the_current_level() {
    let mut e = envelope(0.01, 0.5, 0.5, 0.5);
    e.start_note();
    while e.get_state() == ADSRState::Attack {
        e.process();
    }
    for _ in 0..1000 {
        e.process();
    }
    let level = e.get_output();
    assert!(level > ONE / 2 && level < ONE);
    e.start_note();
    assert_eq!(e.get_output(), level);
    e.process();
    assert!(e.get_output() > level);
}

#[test]
fn reset_silences_at_once() {
    let mut e = envelope(0.01, 0.01, 0.5, 0.01);
    e.start_note();
    for _ in 0..50 {
        e.process();
    }
    assert!(e.get_output() > 0);
    e.reset();
    assert_eq!(e.get_state(), ADSRState::Idle);
    assert_eq!(e.get_output(), 0);
}

#[test]
fn note_cycle_reaches_every_target_exactly() {
    let mut e = envelope(0.01, 0.02, 0.4, 0.03);
    e.start_note();
    let mut attack_samples = 0;
    while e.get_state() == ADSRState::Attack {
        let before = e.get_output();
        e.process();
        assert!(e.get_output() > before);
        attack_samples += 1;
        assert!(attack_samples < 10000);
    }
    assert_eq!(e.get_state(), ADSRState::Decay);
    assert_eq!(e.get_output(), ONE);
    // the attack takes its nominal time, to within a sample
    assert!((attack_samples as i64 - 441).abs() <= 1);
    let mut decay_samples = 0;
    while e.get_state() == ADSRState::Decay {
        let before = e.get_output();
        e.process();
        assert!(e.get_output() < before);
        decay_samples += 1;
        assert!(decay_samples < 10000);
    }
    assert_eq!(e.get_state(), ADSRState::Sustain);
    assert_eq!(e.get_output(), to_fixed(0.4));
    // the decay aims at `sustain - ratio`, so it meets the sustain level
    // after ln((1 - s + r) / r) / ln((1 + r) / r) of its nominal time
    let decay_share = (0.6001f64 / 0.0001).ln() / (1.0001f64 / 0.0001).ln();
    assert!((decay_samples as f64 - 882.0 * decay_share).abs() <= 1.0);
    for _ in 0..100 {
        e.process();
        assert_eq!(e.get_state(), ADSRState::Sustain);
        assert_eq!(e.get_output(), to_fixed(0.4));
    }
    e.end_note();
    assert_eq!(e.get_state(), ADSRState::Release);
    let mut release_samples = 0;
    while e.get_state() == ADSRState::Release {
        let before = e.get_output();
        e.process();
        assert!(e.get_output() < before);
        release_samples += 1;
        assert!(release_samples < 10000);
    }
    assert_eq!(e.get_state(), ADSRState::Idle);
    assert_eq!(e.get_output(), 0);
    let release_share = (0.4001f64 / 0.0001).ln() / (1.0001f64 / 0.0001).ln();
    assert!((release_samples as f64 - 1323.0 * release_share).abs() <= 1.0);
}

#[test]
fn first_attack_sample_follows_the_recurrence() {
    let mut e = envelope(0.01, 0.02, 0.4, 0.03);
    e.start_note();
    e.process();
    let c = (-(1.3f64 / 0.3).ln() / 441.0).exp();
    assert!((to_real(e.get_output()) - 1.3 * (1.0 - c)).abs() < 1e-8);
    e.process();
    let second = 1.3 * (1.0 - c) + 1.3 * (1.0 - c) * c;
    assert!((to_real(e.get_output()) - second).abs() < 1e-8);
}

#[test]
fn zero_times_jump_to_the_targets() {
    let mut e = envelope(0.0, 0.0, 1.0, 0.0);
    e.start_note();
    e.process();
    assert_eq!(e.get_state(), ADSRState::Decay);
    assert_eq!(e.get_output(), ONE);
    e.process();
    assert_eq!(e.get_state(), ADSRState::Sustain);
    assert_eq!(e.get_output(), ONE);
    e.end_note();
    e.process();
    assert_eq!(e.get_state(), ADSRState::Idle);
    assert_eq!(e.get_output(), 0);
}

#[test]
fn output_stays_in_the_unit_interval() {
    let times = [0.0, 0.0001, 0.003, 0.05, 1.0, 10.0];
    let levels = [0.0, 0.00005, 0.3, 1.0];
    for &a in times.iter() {
        for &d in times.iter() {
            for &s in levels.iter() {
                let mut e = envelope(a, d, s, d);
                e.start_note();
                for i in 0..600 {
                    e.process();
                    assert!(e.get_output() >= 0 && e.get_output() <= ONE);
                    if i == 450 {
                        e.end_note();
                    }
                }
            }
        }
    }
}

#[test]
fn one_sample_moves_the_output_by_no_more_than_the_bound() {
    let mut e = envelope(0.002, 0.004, 0.25, 0.003);
    e.start_note();
    for i in 0..2000 {
        let before = e.get_output();
        let coeff = match e.get_state() {
            ADSRState::Attack => e.attack_coeff,
            ADSRState::Decay => e.decay_coeff,
            ADSRState::Release => e.release_coeff,
            _ => ONE,
        };
        let ratio = if e.get_state() == ADSRState::Attack { 0.3 } else { 0.0001 };
        e.process();
        let moved = (to_real(e.get_output()) - to_real(before)).abs();
        assert!(moved <= (1.0 + ratio) * (1.0 - to_real(coeff)) + 1e-9);
        if i == 1000 {
            e.end_note();
        }
        if i == 300 {
            // lowering the sustain level in mid-flight causes no jump
            let level = e.get_output();
            e.set_params(to_fixed(0.002), to_fixed(0.003), to_fixed(0.2), to_fixed(0.003));
            assert_eq!(e.get_output(), level);
        }
    }
}

#[test]
fn longest_release_still_falls() {
    let mut e = envelope(0.0, 0.0, 1.0, 0.0);
    e.start_note();
    e.process();
    e.process();
    // the product of time and sample rate saturates
    e.set_params(0, 0, ONE, 1 << 62);
    assert_eq!(e.release, 1 << 62);
    assert_eq!(e.release_coeff, ONE - 17);
    e.end_note();
    let mut before = e.get_output();
    for _ in 0..100 {
        e.process();
        assert!(e.get_output() < before);
        before = e.get_output();
    }
    assert_eq!(e.get_state(), ADSRState::Release);
    assert!(e.get_output() > ONE - 2000);
}

/// The envelope in double precision, for comparison.
struct Reference {
    state: ADSRState,
    output: f64,
    sustain: f64,
    attack: (f64, f64),
    decay: (f64, f64),
    release: (f64, f64),
}

impl Reference {
    fn new(attack: f64, decay: f64, sustain: f64, release: f64, rate: f64) -> Reference {
        let coefficient = |samples: f64, ratio: f64| {
            if samples <= 0.0 {
                0.0
            } else {
                (-((1.0 + ratio) / ratio).ln() / samples).exp()
            }
        };
        let ca = coefficient(attack * rate, 0.3);
        let cd = coefficient(decay * rate, 0.0001);
        let cr = coefficient(release * rate, 0.0001);
        Reference {
            state: ADSRState::Idle,
            output: 0.0,
            sustain,
            attack: (ca, 1.3 * (1.0 - ca)),
            decay: (cd, (sustain - 0.0001) * (1.0 - cd)),
            release: (cr, -0.0001 * (1.0 - cr)),
        }
    }

    fn process(&mut self) {
        match self.state {
            ADSRState::Attack => {
                self.output = self.attack.1 + self.output * self.attack.0;
                if self.output >= 1.0 {
                    self.output = 1.0;
                    self.state = ADSRState::Decay;
                }
            }
            ADSRState::Decay => {
                self.output = self.decay.1 + self.output * self.decay.0;
                if self.output <= self.sustain {
                    self.output = self.sustain;
                    self.state = ADSRState::Sustain;
                }
            }
            ADSRState::Release => {
                self.output = self.release.1 + self.output * self.release.0;
                if self.output <= 0.0 {
                    self.output = 0.0;
                    self.state = ADSRState::Idle;
                }
            }
            _ => {}
        }
    }
}

#[test]
fn envelope_tracks_the_model_in_double_precision() {
    // attack times of a whole number of samples and a half, so that the
    // handover to the decay does not hang on the last digit
    let settings = [(442.5 / 44100.0, 0.02, 0.4, 0.03), (8820.5 / 44100.0, 0.1, 0.8, 0.5), (44.5 / 44100.0, 0.3, 0.05, 0.01)];
    for &(a, d, s, r) in settings.iter() {
        let mut e = envelope(a, d, s, r);
        let mut model = Reference::new(a, d, s, r, 44100.0);
        e.start_note();
        model.state = ADSRState::Attack;
        for n in 0..60000 {
            if n == 30000 {
                e.end_note();
                model.state = ADSRState::Release;
            }
            e.process();
            model.process();
            assert!((to_real(e.get_output()) - model.output).abs() < 2e-5, "sample {}", n);
        }
        assert_eq!(e.get_state(), ADSRState::Idle);
    }
}

#[test]
fn coefficients_are_below_one_for_every_length() {
    for &samples in [1, ONE, 1 << 60, i64::MAX].iter() {
        assert!(calculate_coefficient(samples, ATTACK_LOG_RATIO) < ONE);
        assert!(calculate_coefficient(samples, DR_LOG_RATIO) < ONE);
    }
    assert_eq!(calculate_coefficient(i64::MAX, ATTACK_LOG_RATIO), ONE - 1);
}

#[test]
fn segments_end_within_their_time_bounds() {
    for &samples in [64i64, 100, 441, 4410, 44100].iter() {
        let seconds = to_fixed(samples as f64 / 44100.0) + 1;
        let mut e = envelope(0.0, 0.0, 0.0, 0.0);
        e.set_params(seconds, seconds, to_fixed(0.3), seconds);
        let whole = samples as usize;
        e.start_note();
        let mut taken = 0;
        while e.get_state() == ADSRState::Attack {
            e.process();
            taken += 1;
        }
        assert_eq!(e.get_output(), ONE);
        assert!(taken <= 3 * (whole + 2));
        taken = 0;
        while e.get_state() == ADSRState::Decay {
            e.process();
            taken += 1;
        }
        assert_eq!(e.get_output(), to_fixed(0.3));
        assert!(taken <= 14 * (whole / 8 + 2));
        e.end_note();
        taken = 0;
        while e.get_state() == ADSRState::Release {
            e.process();
            taken += 1;
        }
        assert_eq!(e.get_output(), 0);
        assert!(taken <= 14 * (whole / 8 + 2));
    }
}
