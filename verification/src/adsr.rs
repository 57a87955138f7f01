//! The envelope generator: a five-state machine that shapes a gain in
//! `[0, 1]` with one exponential segment each for attack, decay and release.

use vstd::prelude::*;
use crate::fixed::{ONE, spec_mul, spec_div, spec_add, spec_clamp, fx_mul, fx_div, fx_add, clamp, lemma_mul_unit, lemma_mul_floor};
use crate::math::{spec_exp_neg, spec_scaled, exp_neg, lemma_exp_neg_unit, lemma_exp_neg_gap, lemma_exp_neg_bounds};

verus! {

/// How far past its target the attack segment aims: `0.3`.
pub const ATTACK_TARGET_RATIO: i64 = 1288490189;

/// How far past their targets the decay and release segments aim: `0.0001`.
pub const DR_TARGET_RATIO: i64 = 429497;

/// `ln((1 + 0.3) / 0.3)`.
pub const ATTACK_LOG_RATIO: i64 = 6297869755;

/// `ln((1 + 0.0001) / 0.0001)`.
pub const DR_LOG_RATIO: i64 = 39558540158;

/// The longest attack, in samples, whose every sample is certain to raise
/// the output: `2^28` samples, about 100 minutes at 44100 Hz.
pub const MAX_ATTACK: i64 = 0x1000_0000_0000_0000;

/// The segment the envelope is in.
#[derive(Clone, Copy, PartialEq, Eq, Debug)]
pub enum ADSRState {
    Idle,
    Attack,
    Decay,
    Sustain,
    Release,
}

/// An attack-decay-sustain-release envelope.
///
/// `attack`, `decay` and `release` are times in seconds, `sustain` is a
/// level, `sample_rate` is in hertz; the coefficients and offsets are
/// derived from them.
#[derive(Clone, Copy, Debug)]
pub struct ADSR {
    pub attack: i64,
    pub decay: i64,
    pub sustain: i64,
    pub release: i64,
    pub attack_coeff: i64,
    pub decay_coeff: i64,
    pub release_coeff: i64,
    pub attack_base: i64,
    pub decay_base: i64,
    pub release_base: i64,
    pub state: ADSRState,
    pub sample_rate: i64,
    pub output: i64,
}

/// The per-sample coefficient of a segment that lasts `rate` samples and
/// whose curve has the logarithmic target ratio `log_ratio`:
/// `exp(-log_ratio / rate)`. A segment of no length has coefficient zero.
pub open spec fn spec_coefficient(rate: int, log_ratio: int) -> int {
    if rate <= 0 {
        0
    } else {
        spec_exp_neg(spec_div(log_ratio, rate))
    }
}

/// The offset of the attack recurrence: `(1 + ratio) (1 - coeff)`.
pub open spec fn spec_attack_base(coeff: int) -> int {
    spec_mul(ONE + ATTACK_TARGET_RATIO, ONE - coeff)
}

/// The offset of the decay recurrence: `(sustain - ratio) (1 - coeff)`.
pub open spec fn spec_decay_base(sustain: int, coeff: int) -> int {
    spec_mul(sustain - DR_TARGET_RATIO, ONE - coeff)
}

/// The offset of the release recurrence: `-ratio (1 - coeff)`.
pub open spec fn spec_release_base(coeff: int) -> int {
    spec_mul(-DR_TARGET_RATIO, ONE - coeff)
}

/// One step of a segment's recurrence: `base + output * coeff`.
pub open spec fn spec_recurrence(base: int, output: int, coeff: int) -> int {
    spec_add(base, spec_mul(output, coeff))
}

/// The most that the output moves in one sample of a segment with the
/// given target ratio and coefficient: `(1 + ratio) (1 - coeff)`, and two
/// units of rounding.
pub open spec fn spec_step_bound(ratio: int, coeff: int) -> int {
    spec_mul(ONE + ratio, ONE - coeff) + 2
}

impl ADSR {
    /// The length of the attack in samples: `attack * sample_rate`.
    pub open spec fn spec_attack_samples(self) -> int {
        spec_mul(self.attack as int, self.sample_rate as int)
    }

    /// The length of the decay in samples: `decay * sample_rate`.
    pub open spec fn spec_decay_samples(self) -> int {
        spec_mul(self.decay as int, self.sample_rate as int)
    }

    /// The length of the release in samples: `release * sample_rate`.
    pub open spec fn spec_release_samples(self) -> int {
        spec_mul(self.release as int, self.sample_rate as int)
    }

    /// The invariant of an envelope: levels lie in `[0, 1]`, the sample rate
    /// is at least one hertz, every coefficient and offset is the one that
    /// the times and the sample rate prescribe, and an idle envelope is
    /// silent.
    pub open spec fn wf(self) -> bool {
        &&& 0 <= self.output <= ONE
        &&& 0 <= self.sustain <= ONE
        &&& self.sample_rate >= ONE
        &&& self.attack_coeff == spec_coefficient(self.spec_attack_samples(), ATTACK_LOG_RATIO as int)
        &&& self.decay_coeff == spec_coefficient(self.spec_decay_samples(), DR_LOG_RATIO as int)
        &&& self.release_coeff == spec_coefficient(self.spec_release_samples(), DR_LOG_RATIO as int)
        &&& self.attack_base == spec_attack_base(self.attack_coeff as int)
        &&& self.decay_base == spec_decay_base(self.sustain as int, self.decay_coeff as int)
        &&& self.release_base == spec_release_base(self.release_coeff as int)
        &&& (self.state is Idle ==> self.output == 0)
    }

    /// The envelope with the given times in seconds and sustain level at
    /// the given sample rate, idle and silent.
    pub open spec fn spec_with(attack: int, decay: int, sustain: int, release: int, sample_rate: int) -> ADSR {
        let attack_coeff = spec_coefficient(spec_mul(attack, sample_rate), ATTACK_LOG_RATIO as int);
        let decay_coeff = spec_coefficient(spec_mul(decay, sample_rate), DR_LOG_RATIO as int);
        let release_coeff = spec_coefficient(spec_mul(release, sample_rate), DR_LOG_RATIO as int);
        ADSR {
            attack: attack as i64,
            decay: decay as i64,
            sustain: sustain as i64,
            release: release as i64,
            attack_coeff: attack_coeff as i64,
            decay_coeff: decay_coeff as i64,
            release_coeff: release_coeff as i64,
            attack_base: spec_attack_base(attack_coeff) as i64,
            decay_base: spec_decay_base(sustain, decay_coeff) as i64,
            release_base: spec_release_base(release_coeff) as i64,
            state: ADSRState::Idle,
            sample_rate: sample_rate as i64,
            output: 0,
        }
    }

    /// The initial envelope: 0.2 s of attack, 0.1 s of decay, a sustain
    /// level of 0.8, 0.5 s of release, at 44100 Hz.
    pub open spec fn spec_default() -> ADSR {
        Self::spec_with(858993459, 429496730, 3435973837, 2147483648, 189408057753600)
    }

    /// The envelope after `start_note`.
    pub open spec fn spec_start_note(self) -> ADSR {
        ADSR { state: ADSRState::Attack, ..self }
    }

    /// The envelope after `end_note`.
    pub open spec fn spec_end_note(self) -> ADSR {
        if self.state is Idle {
            self
        } else {
            ADSR { state: ADSRState::Release, ..self }
        }
    }

    /// The envelope after `reset`.
    pub open spec fn spec_reset(self) -> ADSR {
        ADSR { state: ADSRState::Idle, output: 0, ..self }
    }

    /// The envelope after `set_params`: the times are taken over, the
    /// sustain level is clamped into `[0, 1]`, the coefficients and offsets
    /// follow, and the state and the output stay as they are.
    pub open spec fn spec_set_params(self, attack: int, decay: int, sustain: int, release: int) -> ADSR {
        let shaped = Self::spec_with(
            attack,
            decay,
            spec_clamp(sustain, 0, ONE as int),
            release,
            self.sample_rate as int,
        );
        ADSR { state: self.state, output: self.output, ..shaped }
    }

    /// The envelope after `set_sample_rate`: rates below one hertz are
    /// raised to one hertz, the coefficients and offsets follow, and the
    /// state and the output stay as they are.
    pub open spec fn spec_set_sample_rate(self, sr: int) -> ADSR {
        let shaped = Self::spec_with(
            self.attack as int,
            self.decay as int,
            self.sustain as int,
            self.release as int,
            if sr < ONE { ONE as int } else { sr },
        );
        ADSR { state: self.state, output: self.output, ..shaped }
    }

    /// The envelope one sample later.
    ///
    /// Attack rises until the output reaches `1`, then hands over to decay
    /// at exactly `1`; decay falls until the output reaches the sustain
    /// level, then holds exactly that level; release falls until the output
    /// reaches `0`, then idles at exactly `0`.
    pub open spec fn spec_process(self) -> ADSR {
        match self.state {
            ADSRState::Idle => self,
            ADSRState::Attack => {
                let next = spec_recurrence(self.attack_base as int, self.output as int, self.attack_coeff as int);
                if next >= ONE {
                    ADSR { output: ONE, state: ADSRState::Decay, ..self }
                } else {
                    ADSR { output: next as i64, ..self }
                }
            },
            ADSRState::Decay => {
                let next = spec_recurrence(self.decay_base as int, self.output as int, self.decay_coeff as int);
                if next <= self.sustain {
                    ADSR { output: self.sustain, state: ADSRState::Sustain, ..self }
                } else {
                    ADSR { output: next as i64, ..self }
                }
            },
            ADSRState::Sustain => self,
            ADSRState::Release => {
                let next = spec_recurrence(self.release_base as int, self.output as int, self.release_coeff as int);
                if next <= 0 {
                    ADSR { output: 0, state: ADSRState::Idle, ..self }
                } else {
                    ADSR { output: next as i64, ..self }
                }
            },
        }
    }

    /// The most that the output moves in the next sample.
    pub open spec fn spec_max_step(self) -> int {
        match self.state {
            ADSRState::Attack => spec_step_bound(ATTACK_TARGET_RATIO as int, self.attack_coeff as int),
            ADSRState::Decay => spec_step_bound(DR_TARGET_RATIO as int, self.decay_coeff as int),
            ADSRState::Release => spec_step_bound(DR_TARGET_RATIO as int, self.release_coeff as int),
            _ => 0,
        }
    }

    /// The envelope `n` samples later.
    pub open spec fn spec_after(self, n: nat) -> ADSR
        decreases n,
    {
        if n == 0 {
            self
        } else {
            self.spec_process().spec_after((n - 1) as nat)
        }
    }

    /// Builds the envelope with the given times in seconds.
    fn with(attack: i64, decay: i64, sustain: i64, release: i64, sample_rate: i64) -> (e: ADSR)
        requires
            0 <= sustain <= ONE,
            sample_rate >= ONE,
        ensures
            e == Self::spec_with(attack as int, decay as int, sustain as int, release as int, sample_rate as int),
            e.wf(),
    {
        let attack_coeff = calculate_coefficient(fx_mul(attack, sample_rate), ATTACK_LOG_RATIO);
        let decay_coeff = calculate_coefficient(fx_mul(decay, sample_rate), DR_LOG_RATIO);
        let release_coeff = calculate_coefficient(fx_mul(release, sample_rate), DR_LOG_RATIO);
        ADSR {
            attack,
            decay,
            sustain,
            release,
            attack_coeff,
            decay_coeff,
            release_coeff,
            attack_base: fx_mul(ONE + ATTACK_TARGET_RATIO, ONE - attack_coeff),
            decay_base: fx_mul(sustain - DR_TARGET_RATIO, ONE - decay_coeff),
            release_base: fx_mul(-DR_TARGET_RATIO, ONE - release_coeff),
            state: ADSRState::Idle,
            sample_rate,
            output: 0,
        }
    }

    /// Starts the attack segment from the current output level.
    pub fn start_note(&mut self)
        requires
            old(self).wf(),
        ensures
            *final(self) == old(self).spec_start_note(),
            final(self).wf(),
    {
        self.state = ADSRState::Attack;
    }

    /// Starts the release segment, unless the envelope is idle.
    pub fn end_note(&mut self)
        requires
            old(self).wf(),
        ensures
            *final(self) == old(self).spec_end_note(),
            final(self).wf(),
    {
        match self.state {
            ADSRState::Idle => {},
            _ => {
                self.state = ADSRState::Release;
            },
        }
    }

    /// Silences the envelope at once.
    pub fn reset(&mut self)
        requires
            old(self).wf(),
        ensures
            *final(self) == old(self).spec_reset(),
            final(self).wf(),
    {
        self.state = ADSRState::Idle;
        self.output = 0;
    }

    /// The current gain.
    pub fn get_output(&self) -> (output: i64)
        ensures
            output == self.output,
    {
        self.output
    }

    /// The current segment.
    pub fn get_state(&self) -> (state: ADSRState)
        ensures
            state == self.state,
    {
        self.state
    }

    /// Sets the attack, decay and release times in seconds and the sustain
    /// level.
    pub fn set_params(&mut self, attack: i64, decay: i64, sustain: i64, release: i64)
        requires
            old(self).wf(),
        ensures
            *final(self) == old(self).spec_set_params(attack as int, decay as int, sustain as int, release as int),
            final(self).wf(),
    {
        let shaped = Self::with(attack, decay, clamp(sustain, 0, ONE), release, self.sample_rate);
        *self = ADSR { state: self.state, output: self.output, ..shaped };
    }

    /// Sets the sample rate in hertz.
    pub fn set_sample_rate(&mut self, sr: i64)
        requires
            old(self).wf(),
        ensures
            *final(self) == old(self).spec_set_sample_rate(sr as int),
            final(self).wf(),
    {
        let shaped = Self::with(
            self.attack,
            self.decay,
            self.sustain,
            self.release,
            if sr < ONE { ONE } else { sr },
        );
        *self = ADSR { state: self.state, output: self.output, ..shaped };
    }

    /// Advances the envelope by one sample.
    pub fn process(&mut self)
        requires
            old(self).wf(),
        ensures
            *final(self) == old(self).spec_process(),
            final(self).wf(),
    {
        proof {
            lemma_process_keeps_wf(*self);
        }
        match self.state {
            ADSRState::Idle => {},
            ADSRState::Attack => {
                let next = fx_add(self.attack_base, fx_mul(self.output, self.attack_coeff));
                if next >= ONE {
                    self.output = ONE;
                    self.state = ADSRState::Decay;
                } else {
                    self.output = next;
                }
            },
            ADSRState::Decay => {
                let next = fx_add(self.decay_base, fx_mul(self.output, self.decay_coeff));
                if next <= self.sustain {
                    self.output = self.sustain;
                    self.state = ADSRState::Sustain;
                } else {
                    self.output = next;
                }
            },
            ADSRState::Sustain => {},
            ADSRState::Release => {
                let next = fx_add(self.release_base, fx_mul(self.output, self.release_coeff));
                if next <= 0 {
                    self.output = 0;
                    self.state = ADSRState::Idle;
                } else {
                    self.output = next;
                }
            },
        }
    }
}

impl Default for ADSR {
    fn default() -> (e: ADSR)
        ensures
            e == ADSR::spec_default(),
            e.wf(),
    {
        ADSR::with(858993459, 429496730, 3435973837, 2147483648, 189408057753600)
    }
}

/// Computes the per-sample coefficient of a segment of `rate` samples.
pub fn calculate_coefficient(rate: i64, log_ratio: i64) -> (coeff: i64)
    ensures
        coeff == spec_coefficient(rate as int, log_ratio as int),
        0 <= coeff <= ONE,
{
    if rate <= 0 {
        0
    } else {
        exp_neg(fx_div(log_ratio, rate))
    }
}

/// A coefficient lies in `[0, 1]`.
pub proof fn lemma_coefficient_unit(rate: int, log_ratio: int)
    ensures
        0 <= spec_coefficient(rate, log_ratio) <= ONE,
{
    if rate > 0 {
        lemma_exp_neg_unit(spec_div(log_ratio, rate));
    }
}

/// With a coefficient in `[0, 1]`, the attack recurrence is not negative,
/// the decay recurrence does not exceed `1`, and the release recurrence
/// never rises.
pub proof fn lemma_recurrence_bounds(sustain: int, output: int, coeff: int)
    requires
        0 <= sustain <= ONE,
        0 <= output <= ONE,
        0 <= coeff <= ONE,
    ensures
        0 <= spec_recurrence(spec_attack_base(coeff), output, coeff),
        spec_recurrence(spec_decay_base(sustain, coeff), output, coeff) <= ONE,
        spec_recurrence(spec_release_base(coeff), output, coeff) <= output,
{
    let one = ONE as int;
    let gap = one - coeff;
    lemma_mul_unit(output, coeff);
    // attack: the offset is not negative
    assert(0 <= (one + ATTACK_TARGET_RATIO) * gap <= (2 * one) * one) by (nonlinear_arith)
        requires
            0 <= gap <= one,
            0 <= ATTACK_TARGET_RATIO <= one,
    ;
    vstd::arithmetic::div_mod::lemma_div_is_ordered(0, (one + ATTACK_TARGET_RATIO) * gap, one);
    vstd::arithmetic::div_mod::lemma_div_is_ordered((one + ATTACK_TARGET_RATIO) * gap, (2 * one) * one, one);
    vstd::arithmetic::div_mod::lemma_div_by_multiple(2 * one, one);
    // decay: the offset is at most 1 - coeff
    assert((sustain - DR_TARGET_RATIO) * gap <= gap * one) by (nonlinear_arith)
        requires
            0 <= gap <= one,
            -one <= sustain - DR_TARGET_RATIO <= one,
    ;
    vstd::arithmetic::div_mod::lemma_div_is_ordered((sustain - DR_TARGET_RATIO) * gap, gap * one, one);
    vstd::arithmetic::div_mod::lemma_div_by_multiple(gap, one);
    // release: the offset is not positive
    assert((-DR_TARGET_RATIO) * gap <= 0) by (nonlinear_arith)
        requires
            0 <= gap <= one,
            0 <= DR_TARGET_RATIO <= one,
    ;
    vstd::arithmetic::div_mod::lemma_div_is_ordered((-DR_TARGET_RATIO) * gap, 0, one);
}

/// One sample keeps the invariant; in particular the output stays in
/// `[0, 1]`.
pub proof fn lemma_process_keeps_wf(e: ADSR)
    requires
        e.wf(),
    ensures
        e.spec_process().wf(),
        0 <= e.spec_process().output <= ONE,
{
    lemma_coefficient_unit(e.spec_attack_samples(), ATTACK_LOG_RATIO as int);
    lemma_coefficient_unit(e.spec_decay_samples(), DR_LOG_RATIO as int);
    lemma_coefficient_unit(e.spec_release_samples(), DR_LOG_RATIO as int);
    lemma_recurrence_bounds(e.sustain as int, e.output as int, e.attack_coeff as int);
    lemma_recurrence_bounds(e.sustain as int, e.output as int, e.decay_coeff as int);
    lemma_recurrence_bounds(e.sustain as int, e.output as int, e.release_coeff as int);
}

/// How far one step of a recurrence with the offset `factor * (1 - coeff)`
/// moves the output: to within two units of rounding,
/// `(factor - output) * (1 - coeff)`.
pub proof fn lemma_recurrence_delta(factor: int, output: int, coeff: int)
    requires
        -2 * ONE <= factor <= 2 * ONE,
        0 <= output <= ONE,
        0 <= coeff <= ONE,
    ensures
        spec_recurrence(spec_mul(factor, ONE - coeff), output, coeff) == spec_mul(factor, ONE - coeff)
            + spec_mul(output, coeff),
        (spec_recurrence(spec_mul(factor, ONE - coeff), output, coeff) - output) * ONE <= (factor
            - output) * (ONE - coeff),
        (spec_recurrence(spec_mul(factor, ONE - coeff), output, coeff) - output) * ONE > (factor
            - output) * (ONE - coeff) - 2 * ONE,
{
    let one = ONE as int;
    let gap = one - coeff;
    let base = spec_mul(factor, gap);
    let kept = spec_mul(output, coeff);
    lemma_mul_floor(factor, gap);
    lemma_mul_floor(output, coeff);
    lemma_mul_unit(output, coeff);
    assert(-2 * one <= base <= 2 * one) by (nonlinear_arith)
        requires
            base * one <= factor * gap < base * one + one,
            -2 * one <= factor <= 2 * one,
            0 <= gap <= one,
            one > 0,
    ;
    let next = base + kept;
    assert(spec_recurrence(base, output, coeff) == next);
    assert((next - output) * one == base * one + kept * one - output * one) by (nonlinear_arith)
        requires
            next == base + kept,
    ;
    assert((factor - output) * gap == factor * gap - output * one + output * coeff) by (nonlinear_arith)
        requires
            gap == one - coeff,
    ;
}

/// An envelope built from times and a sample rate is well formed.
pub proof fn lemma_with_is_wf(attack: int, decay: int, sustain: int, release: int, sample_rate: int)
    requires
        0 <= sustain <= ONE,
        ONE <= sample_rate <= 0x7fff_ffff_ffff_ffff,
        -0x8000_0000_0000_0000 <= attack <= 0x7fff_ffff_ffff_ffff,
        -0x8000_0000_0000_0000 <= decay <= 0x7fff_ffff_ffff_ffff,
        -0x8000_0000_0000_0000 <= release <= 0x7fff_ffff_ffff_ffff,
    ensures
        ADSR::spec_with(attack, decay, sustain, release, sample_rate).wf(),
{
    lemma_coefficient_unit(spec_mul(attack, sample_rate), ATTACK_LOG_RATIO as int);
    lemma_coefficient_unit(spec_mul(decay, sample_rate), DR_LOG_RATIO as int);
    lemma_coefficient_unit(spec_mul(release, sample_rate), DR_LOG_RATIO as int);
    let ca = spec_coefficient(spec_mul(attack, sample_rate), ATTACK_LOG_RATIO as int);
    let cd = spec_coefficient(spec_mul(decay, sample_rate), DR_LOG_RATIO as int);
    let cr = spec_coefficient(spec_mul(release, sample_rate), DR_LOG_RATIO as int);
    lemma_base_fits(ONE + ATTACK_TARGET_RATIO, ONE - ca);
    lemma_base_fits(sustain - DR_TARGET_RATIO, ONE - cd);
    lemma_base_fits(-DR_TARGET_RATIO, ONE - cr);
}

/// Setting the parameters keeps the invariant, the state and the output.
pub proof fn lemma_set_params_keeps_wf(e: ADSR, attack: int, decay: int, sustain: int, release: int)
    requires
        e.wf(),
        -0x8000_0000_0000_0000 <= attack <= 0x7fff_ffff_ffff_ffff,
        -0x8000_0000_0000_0000 <= decay <= 0x7fff_ffff_ffff_ffff,
        -0x8000_0000_0000_0000 <= release <= 0x7fff_ffff_ffff_ffff,
    ensures
        e.spec_set_params(attack, decay, sustain, release).wf(),
        e.spec_set_params(attack, decay, sustain, release).output == e.output,
        e.spec_set_params(attack, decay, sustain, release).state == e.state,
{
    lemma_with_is_wf(attack, decay, spec_clamp(sustain, 0, ONE as int), release, e.sample_rate as int);
}

/// An offset `factor * (1 - coeff)` lies in `[-2, 2]`.
pub proof fn lemma_base_fits(factor: int, gap: int)
    requires
        -2 * ONE <= factor <= 2 * ONE,
        0 <= gap <= ONE,
    ensures
        -2 * ONE <= spec_mul(factor, gap) <= 2 * ONE,
{
    let one = ONE as int;
    lemma_mul_floor(factor, gap);
    let base = spec_mul(factor, gap);
    assert(-2 * one <= base <= 2 * one) by (nonlinear_arith)
        requires
            base * one <= factor * gap < base * one + one,
            -2 * one <= factor <= 2 * one,
            0 <= gap <= one,
            one > 0,
    ;
}

/// In every sample the output moves by no more than the bound of its
/// segment, unless the sustain level was raised above the output in the
/// middle of a decay.
pub proof fn lemma_step_is_bounded(e: ADSR)
    requires
        e.wf(),
        e.state is Decay ==> e.output >= e.sustain,
    ensures
        -e.spec_max_step() <= e.spec_process().output - e.output <= e.spec_max_step(),
{
    let one = ONE as int;
    let o = e.output as int;
    lemma_coefficient_unit(e.spec_attack_samples(), ATTACK_LOG_RATIO as int);
    lemma_coefficient_unit(e.spec_decay_samples(), DR_LOG_RATIO as int);
    lemma_coefficient_unit(e.spec_release_samples(), DR_LOG_RATIO as int);
    match e.state {
        ADSRState::Attack => {
            let c = e.attack_coeff as int;
            let f = one + ATTACK_TARGET_RATIO;
            lemma_recurrence_delta(f, o, c);
            lemma_mul_floor(f, one - c);
            let next = spec_recurrence(e.attack_base as int, o, c);
            let bound = spec_mul(f, one - c);
            assert(-1 <= next - o <= bound) by (nonlinear_arith)
                requires
                    (next - o) * one <= (f - o) * (one - c),
                    (next - o) * one > (f - o) * (one - c) - 2 * one,
                    bound * one <= f * (one - c) < bound * one + one,
                    0 <= o <= one,
                    f >= one,
                    0 <= c <= one,
                    one > 0,
            ;
        },
        ADSRState::Decay => {
            let c = e.decay_coeff as int;
            let f = e.sustain - DR_TARGET_RATIO;
            lemma_recurrence_delta(f, o, c);
            lemma_mul_floor(one + DR_TARGET_RATIO, one - c);
            let next = spec_recurrence(e.decay_base as int, o, c);
            let bound = spec_mul(one + DR_TARGET_RATIO, one - c);
            assert(-bound - 2 <= next - o <= 0) by (nonlinear_arith)
                requires
                    (next - o) * one <= (f - o) * (one - c),
                    (next - o) * one > (f - o) * (one - c) - 2 * one,
                    bound * one <= (one + DR_TARGET_RATIO) * (one - c) < bound * one + one,
                    0 <= o <= one,
                    f <= o,
                    f >= -DR_TARGET_RATIO,
                    0 <= c <= one,
                    one > 0,
            ;
        },
        ADSRState::Release => {
            let c = e.release_coeff as int;
            let f = -(DR_TARGET_RATIO as int);
            lemma_recurrence_delta(f, o, c);
            lemma_mul_floor(one + DR_TARGET_RATIO, one - c);
            let next = spec_recurrence(e.release_base as int, o, c);
            let bound = spec_mul(one + DR_TARGET_RATIO, one - c);
            assert(-bound - 2 <= next - o <= 0) by (nonlinear_arith)
                requires
                    (next - o) * one <= (f - o) * (one - c),
                    (next - o) * one > (f - o) * (one - c) - 2 * one,
                    bound * one <= (one + DR_TARGET_RATIO) * (one - c) < bound * one + one,
                    0 <= o <= one,
                    f == -DR_TARGET_RATIO,
                    DR_TARGET_RATIO > 0,
                    0 <= c <= one,
                    one > 0,
            ;
        },
        _ => {},
    }
}

/// Changing the times, or lowering the sustain level, never makes the
/// output jump: the change itself leaves the output where it is, and the
/// next sample moves it by no more than the bound of its segment.
pub proof fn lemma_lowering_is_continuous(e: ADSR, attack: int, decay: int, sustain: int, release: int)
    requires
        e.wf(),
        e.state is Decay ==> e.output >= e.sustain,
        sustain <= e.sustain,
        -0x8000_0000_0000_0000 <= attack <= 0x7fff_ffff_ffff_ffff,
        -0x8000_0000_0000_0000 <= decay <= 0x7fff_ffff_ffff_ffff,
        -0x8000_0000_0000_0000 <= release <= 0x7fff_ffff_ffff_ffff,
    ensures
        ({
            let changed = e.spec_set_params(attack, decay, sustain, release);
            &&& changed.output == e.output
            &&& changed.state == e.state
            &&& -changed.spec_max_step() <= changed.spec_process().output - e.output
                <= changed.spec_max_step()
        }),
{
    lemma_set_params_keeps_wf(e, attack, decay, sustain, release);
    lemma_step_is_bounded(e.spec_set_params(attack, decay, sustain, release));
}

/// Each segment ends at exactly its target: the attack hands over to the
/// decay at `1`, the decay to the sustain at the sustain level, the release
/// to idle at `0`; and no segment is left in any other way by a sample.
pub proof fn lemma_segments_end_on_target(e: ADSR)
    requires
        e.wf(),
    ensures
        ({
            let next = e.spec_process();
            &&& e.state is Idle ==> next == e
            &&& e.state is Sustain ==> next == e
            &&& e.state is Attack ==> (next.state is Attack && next.output < ONE) || (next.state is Decay
                && next.output == ONE)
            &&& e.state is Decay ==> (next.state is Decay && next.output > e.sustain) || (next.state is Sustain
                && next.output == e.sustain)
            &&& e.state is Release ==> (next.state is Release && next.output > 0) || (next.state is Idle
                && next.output == 0)
        }),
{
    lemma_process_keeps_wf(e);
    lemma_coefficient_unit(e.spec_attack_samples(), ATTACK_LOG_RATIO as int);
    lemma_coefficient_unit(e.spec_decay_samples(), DR_LOG_RATIO as int);
    lemma_coefficient_unit(e.spec_release_samples(), DR_LOG_RATIO as int);
    lemma_recurrence_delta(ONE + ATTACK_TARGET_RATIO, e.output as int, e.attack_coeff as int);
    lemma_recurrence_delta(e.sustain - DR_TARGET_RATIO, e.output as int, e.decay_coeff as int);
    lemma_recurrence_delta(-(DR_TARGET_RATIO as int), e.output as int, e.release_coeff as int);
}

/// An attack of at most `MAX_ATTACK` samples reaches `1` and hands over to
/// the decay: returns the number of samples it takes.
pub proof fn lemma_attack_completes(e: ADSR) -> (n: nat)
    requires
        e.wf(),
        e.state is Attack,
        e.spec_attack_samples() <= MAX_ATTACK,
    ensures
        1 <= n <= ONE - e.output + 1,
        e.spec_after(n).state is Decay,
        e.spec_after(n).output == ONE,
        e.spec_after(n).wf(),
        forall|k: nat| k < n ==> (#[trigger] e.spec_after(k)).state is Attack,
    decreases ONE - e.output,
{
    let one = ONE as int;
    let o = e.output as int;
    let c = e.attack_coeff as int;
    let f = one + ATTACK_TARGET_RATIO;
    lemma_coefficient_unit(e.spec_attack_samples(), ATTACK_LOG_RATIO as int);
    lemma_coefficient_gap(e.spec_attack_samples(), ATTACK_LOG_RATIO as int);
    lemma_process_keeps_wf(e);
    lemma_recurrence_delta(f, o, c);
    let next = e.spec_process();
    let raw = spec_recurrence(e.attack_base as int, o, c);
    assert(raw - o >= 1) by (nonlinear_arith)
        requires
            (raw - o) * one > (f - o) * (one - c) - 2 * one,
            f - o >= ATTACK_TARGET_RATIO,
            ATTACK_TARGET_RATIO == 1288490189,
            one - c >= 7,
            one == 0x1_0000_0000,
    ;
    assert(e.spec_after(0) == e);
    if raw >= one {
        assert(e.spec_after(1) == next.spec_after(0));
        assert forall|k: nat| k < 1 implies (#[trigger] e.spec_after(k)).state is Attack by {
            assert(k == 0);
        }
        1
    } else {
        let m = lemma_attack_completes(next);
        assert(e.spec_after(m + 1) == next.spec_after(m));
        assert forall|k: nat| k < m + 1 implies (#[trigger] e.spec_after(k)).state is Attack by {
            if k > 0 {
                assert(e.spec_after(k) == next.spec_after((k - 1) as nat));
            }
        }
        m + 1
    }
}

/// Every decay reaches the sustain level and holds it: returns the number
/// of samples it takes.
pub proof fn lemma_decay_completes(e: ADSR) -> (n: nat)
    requires
        e.wf(),
        e.state is Decay,
    ensures
        1 <= n <= e.output + 1,
        e.spec_after(n).state is Sustain,
        e.spec_after(n).output == e.sustain,
        e.spec_after(n).wf(),
        forall|k: nat| k < n ==> (#[trigger] e.spec_after(k)).state is Decay,
    decreases e.output,
{
    let one = ONE as int;
    let o = e.output as int;
    let c = e.decay_coeff as int;
    let f = e.sustain - DR_TARGET_RATIO;
    lemma_coefficient_unit(e.spec_decay_samples(), DR_LOG_RATIO as int);
    lemma_coefficient_gap(e.spec_decay_samples(), DR_LOG_RATIO as int);
    lemma_process_keeps_wf(e);
    lemma_recurrence_delta(f, o, c);
    let next = e.spec_process();
    let raw = spec_recurrence(e.decay_base as int, o, c);
    assert(raw <= e.sustain || raw <= o - 1) by (nonlinear_arith)
        requires
            (raw - o) * one <= (f - o) * (one - c),
            f == e.sustain - DR_TARGET_RATIO,
            DR_TARGET_RATIO == 429497,
            0 <= e.sustain <= one,
            0 <= o <= one,
            1 <= one - c <= one,
            one == 0x1_0000_0000,
    ;
    assert(e.spec_after(0) == e);
    if raw <= e.sustain {
        assert(e.spec_after(1) == next.spec_after(0));
        assert forall|k: nat| k < 1 implies (#[trigger] e.spec_after(k)).state is Decay by {
            assert(k == 0);
        }
        1
    } else {
        let m = lemma_decay_completes(next);
        assert(e.spec_after(m + 1) == next.spec_after(m));
        assert forall|k: nat| k < m + 1 implies (#[trigger] e.spec_after(k)).state is Decay by {
            if k > 0 {
                assert(e.spec_after(k) == next.spec_after((k - 1) as nat));
            }
        }
        m + 1
    }
}

/// Every release reaches `0` and idles: returns the number of samples it
/// takes.
pub proof fn lemma_release_completes(e: ADSR) -> (n: nat)
    requires
        e.wf(),
        e.state is Release,
    ensures
        1 <= n <= e.output + 1,
        e.spec_after(n).state is Idle,
        e.spec_after(n).output == 0,
        e.spec_after(n).wf(),
        forall|k: nat| k < n ==> (#[trigger] e.spec_after(k)).state is Release,
    decreases e.output,
{
    let one = ONE as int;
    let o = e.output as int;
    let c = e.release_coeff as int;
    let f = -(DR_TARGET_RATIO as int);
    lemma_coefficient_unit(e.spec_release_samples(), DR_LOG_RATIO as int);
    lemma_coefficient_gap(e.spec_release_samples(), DR_LOG_RATIO as int);
    lemma_process_keeps_wf(e);
    lemma_recurrence_delta(f, o, c);
    let next = e.spec_process();
    let raw = spec_recurrence(e.release_base as int, o, c);
    assert(raw <= o - 1) by (nonlinear_arith)
        requires
            (raw - o) * one <= (f - o) * (one - c),
            f == -429497,
            0 <= o <= one,
            1 <= one - c <= one,
            one == 0x1_0000_0000,
    ;
    assert(e.spec_after(0) == e);
    if raw <= 0 {
        assert(e.spec_after(1) == next.spec_after(0));
        assert forall|k: nat| k < 1 implies (#[trigger] e.spec_after(k)).state is Release by {
            assert(k == 0);
        }
        1
    } else {
        let m = lemma_release_completes(next);
        assert(e.spec_after(m + 1) == next.spec_after(m));
        assert forall|k: nat| k < m + 1 implies (#[trigger] e.spec_after(k)).state is Release by {
            if k > 0 {
                assert(e.spec_after(k) == next.spec_after((k - 1) as nat));
            }
        }
        m + 1
    }
}

/// The whole cycle of a note whose attack lasts at most `MAX_ATTACK`
/// samples: started from idle, the envelope reaches `1` after `n.0` samples
/// and goes on to decay, reaches the sustain level after `n.1` more and
/// holds it, and, once the note ends, reaches `0` after `n.2` more and
/// idles.
pub proof fn lemma_note_cycle(e: ADSR) -> (n: (nat, nat, nat))
    requires
        e.wf(),
        e.state is Idle,
        e.spec_attack_samples() <= MAX_ATTACK,
    ensures
        ({
            let peak = e.spec_start_note().spec_after(n.0);
            let held = peak.spec_after(n.1);
            let done = held.spec_end_note().spec_after(n.2);
            &&& peak.state is Decay && peak.output == ONE
            &&& held.state is Sustain && held.output == e.sustain
            &&& done.state is Idle && done.output == 0
        }),
{
    let started = e.spec_start_note();
    let n0 = lemma_attack_completes(started);
    let peak = started.spec_after(n0);
    lemma_after_keeps_shape(started, n0);
    let n1 = lemma_decay_completes(peak);
    let held = peak.spec_after(n1);
    lemma_after_keeps_shape(peak, n1);
    let n2 = lemma_release_completes(held.spec_end_note());
    (n0, n1, n2)
}

/// Samples change nothing but the state and the output.
pub proof fn lemma_after_keeps_shape(e: ADSR, n: nat)
    ensures
        e.spec_after(n) == (ADSR { state: e.spec_after(n).state, output: e.spec_after(n).output, ..e }),
    decreases n,
{
    if n > 0 {
        lemma_after_keeps_shape(e.spec_process(), (n - 1) as nat);
    }
}

/// The coefficient of every segment, whatever its length, is below `1`; that
/// of a decay or release of any length, and that of an attack of at most
/// `MAX_ATTACK` samples, falls short of `1` by at least eight units.
pub proof fn lemma_coefficient_gap(rate: int, log_ratio: int)
    requires
        rate <= 0x7fff_ffff_ffff_ffff,
        log_ratio == DR_LOG_RATIO || log_ratio == ATTACK_LOG_RATIO,
    ensures
        0 <= spec_coefficient(rate, log_ratio) <= ONE - 1,
        log_ratio == DR_LOG_RATIO || rate <= MAX_ATTACK ==> spec_coefficient(rate, log_ratio) <= ONE - 8,
{
    lemma_coefficient_unit(rate, log_ratio);
    if rate > 0 {
        let scaled = log_ratio * ONE;
        vstd::arithmetic::div_mod::lemma_div_is_ordered_by_denominator(scaled, rate, 0x7fff_ffff_ffff_ffff);
        assert(scaled / 0x7fff_ffff_ffff_ffff >= 2) by (nonlinear_arith)
            requires
                scaled == log_ratio * ONE,
                ONE == 0x1_0000_0000,
                log_ratio == 39558540158 || log_ratio == 6297869755,
        ;
        if log_ratio == DR_LOG_RATIO || rate <= MAX_ATTACK {
            let most: int = if log_ratio == DR_LOG_RATIO { 0x7fff_ffff_ffff_ffff } else { MAX_ATTACK as int };
            vstd::arithmetic::div_mod::lemma_div_is_ordered_by_denominator(scaled, rate, most);
            assert(scaled / most >= 16) by (nonlinear_arith)
                requires
                    scaled == log_ratio * ONE,
                    ONE == 0x1_0000_0000,
                    (log_ratio == 39558540158 && most == 0x7fff_ffff_ffff_ffff) || (log_ratio == 6297869755
                        && most == 0x1000_0000_0000_0000),
            ;
        }
        lemma_exp_neg_gap(spec_div(log_ratio, rate));
    }
}

/// In a well-formed envelope every coefficient lies in `[0, 1)`.
pub proof fn lemma_coefficients_below_one(e: ADSR)
    requires
        e.wf(),
    ensures
        0 <= e.attack_coeff < ONE,
        0 <= e.decay_coeff < ONE,
        0 <= e.release_coeff < ONE,
{
    lemma_coefficient_gap(e.spec_attack_samples(), ATTACK_LOG_RATIO as int);
    lemma_coefficient_gap(e.spec_decay_samples(), DR_LOG_RATIO as int);
    lemma_coefficient_gap(e.spec_release_samples(), DR_LOG_RATIO as int);
}

/// At every sample the envelope is well formed; in particular its output
/// lies in `[0, 1]`.
pub proof fn lemma_output_stays_in_unit(e: ADSR, n: nat)
    requires
        e.wf(),
    ensures
        e.spec_after(n).wf(),
        0 <= e.spec_after(n).output <= ONE,
    decreases n,
{
    if n > 0 {
        lemma_process_keeps_wf(e);
        lemma_output_stays_in_unit(e.spec_process(), (n - 1) as nat);
    }
}

/// An idle envelope stays idle.
pub proof fn lemma_idle_stays(e: ADSR, n: nat)
    requires
        e.state is Idle,
    ensures
        e.spec_after(n) == e,
    decreases n,
{
    if n > 0 {
        lemma_idle_stays(e, (n - 1) as nat);
    }
}

/// An envelope that holds its sustain level goes on holding it.
pub proof fn lemma_sustain_stays(e: ADSR, n: nat)
    requires
        e.state is Sustain,
    ensures
        e.spec_after(n) == e,
    decreases n,
{
    if n > 0 {
        lemma_sustain_stays(e, (n - 1) as nat);
    }
}

/// Samples add up: `a + b` samples are `a` samples and then `b` more.
pub proof fn lemma_after_adds(e: ADSR, a: nat, b: nat)
    ensures
        e.spec_after(a + b) == e.spec_after(a).spec_after(b),
    decreases a,
{
    if a > 0 {
        lemma_after_adds(e.spec_process(), (a - 1) as nat, b);
    }
}

/// The arithmetic of a falling segment. If the distance `x0` to the
/// asymptote shrinks to `x1 <= x0 * c` in one sample and from there to `a`
/// with `a * (1 + (k - 1) gap) <= x1` in `k - 1` more, then
/// `a * (1 + k gap) <= x0`, where `c = 1 - gap`.
pub proof fn lemma_contraction_step(a: int, x1: int, x0: int, k: int, gap: int)
    requires
        0 <= a,
        1 <= k,
        1 <= gap < ONE,
        a * (ONE + (k - 1) * gap) <= x1 * ONE,
        x1 * ONE <= x0 * (ONE - gap),
    ensures
        a * (ONE + k * gap) <= x0 * ONE,
{
    let one = ONE as int;
    let c = one - gap;
    assert((one + k * gap) * c <= (one + (k - 1) * gap) * one) by (nonlinear_arith)
        requires
            c == one - gap,
            1 <= k,
            1 <= gap < one,
    ;
    let lhs = a * (one + k * gap);
    assert(lhs * c <= a * ((one + (k - 1) * gap) * one)) by (nonlinear_arith)
        requires
            lhs == a * (one + k * gap),
            0 <= a,
            (one + k * gap) * c <= (one + (k - 1) * gap) * one,
    ;
    assert(a * ((one + (k - 1) * gap) * one) == (a * (one + (k - 1) * gap)) * one) by (nonlinear_arith);
    assert((a * (one + (k - 1) * gap)) * one <= (x1 * one) * one) by (nonlinear_arith)
        requires
            a * (one + (k - 1) * gap) <= x1 * one,
            one > 0,
    ;
    assert((x1 * one) * one <= (x0 * c) * one) by (nonlinear_arith)
        requires
            x1 * one <= x0 * c,
            one > 0,
    ;
    assert(lhs * c <= (x0 * one) * c) by (nonlinear_arith)
        requires
            lhs * c <= (x0 * c) * one,
    ;
    assert(lhs <= x0 * one) by (nonlinear_arith)
        requires
            lhs * c <= (x0 * one) * c,
            c >= 1,
    ;
}

/// A release contracts towards its asymptote `-ratio`: after `k` samples
/// the envelope is idle, or it is still in release with
/// `(output + ratio) (1 + k (1 - coeff)) <= output_0 + ratio`.
pub proof fn lemma_release_contracts(e: ADSR, k: nat)
    requires
        e.wf(),
        e.state is Release,
    ensures
        e.spec_after(k).wf(),
        e.spec_after(k).release_coeff == e.release_coeff,
        e.spec_after(k).state is Idle || (e.spec_after(k).state is Release && (e.spec_after(k).output
            + DR_TARGET_RATIO) * (ONE + k * (ONE - e.release_coeff)) <= (e.output + DR_TARGET_RATIO) * ONE),
    decreases k,
{
    let one = ONE as int;
    let c = e.release_coeff as int;
    let gap = one - c;
    if k > 0 {
        lemma_coefficient_gap(e.spec_release_samples(), DR_LOG_RATIO as int);
        lemma_process_keeps_wf(e);
        lemma_recurrence_delta(-(DR_TARGET_RATIO as int), e.output as int, c);
        let next = e.spec_process();
        let raw = spec_recurrence(e.release_base as int, e.output as int, c);
        let x0 = e.output + DR_TARGET_RATIO;
        let x1 = raw + DR_TARGET_RATIO;
        assert(x1 * one <= x0 * (one - gap)) by (nonlinear_arith)
            requires
                (raw - e.output) * one <= (-(DR_TARGET_RATIO as int) - e.output) * (one - c),
                x0 == e.output + DR_TARGET_RATIO,
                x1 == raw + DR_TARGET_RATIO,
                gap == one - c,
        ;
        if raw <= 0 {
            lemma_idle_stays(next, (k - 1) as nat);
        } else {
            lemma_release_contracts(next, (k - 1) as nat);
            let last = e.spec_after(k);
            assert(last == next.spec_after((k - 1) as nat));
            if last.state is Release {
                assert(gap < one) by (nonlinear_arith)
                    requires
                        x1 * one <= x0 * (one - gap),
                        x1 > 0,
                        x0 >= 0,
                        one > 0,
                        gap <= one,
                ;
                lemma_contraction_step(last.output + DR_TARGET_RATIO, x1, x0, k as int, gap);
            }
        }
    } else {
        assert((e.output + DR_TARGET_RATIO) * (one + 0 * gap) == (e.output + DR_TARGET_RATIO) * one) by (nonlinear_arith);
    }
}

/// A release halves its distance to the asymptote in every round of `m`
/// samples, where `m (1 - coeff) >= 1`: after `j` rounds the envelope is
/// idle, or `(output + ratio) 2^j <= output_0 + ratio`.
pub proof fn lemma_release_rounds(e: ADSR, m: nat, j: nat)
    requires
        e.wf(),
        e.state is Release,
        m * (ONE - e.release_coeff) >= ONE,
    ensures
        e.spec_after(j * m).wf(),
        e.spec_after(j * m).release_coeff == e.release_coeff,
        e.spec_after(j * m).state is Idle || (e.spec_after(j * m).state is Release && spec_scaled(
            e.spec_after(j * m).output + DR_TARGET_RATIO,
            j as int,
        ) <= e.output + DR_TARGET_RATIO),
    decreases j,
{
    let one = ONE as int;
    let gap = one - e.release_coeff;
    if j == 0 {
        assert(0 * m == 0) by (nonlinear_arith);
    } else {
        lemma_release_rounds(e, m, (j - 1) as nat);
        let before = e.spec_after(((j - 1) * m) as nat);
        assert(j * m == (j - 1) * m + m) by (nonlinear_arith);
        assert((j - 1) * m >= 0) by (nonlinear_arith)
            requires
                j >= 1,
                m >= 0,
        ;
        lemma_after_adds(e, ((j - 1) * m) as nat, m);
        let last = e.spec_after(j * m);
        assert(last == before.spec_after(m));
        if before.state is Idle {
            lemma_idle_stays(before, m);
        } else {
            lemma_release_contracts(before, m);
            if last.state is Release {
                let a = last.output + DR_TARGET_RATIO;
                let b = before.output + DR_TARGET_RATIO;
                assert(2 * a <= b) by (nonlinear_arith)
                    requires
                        a * (one + m * gap) <= b * one,
                        m * gap >= one,
                        0 <= a,
                        one > 0,
                ;
                lemma_scaled_halves(a, b, (j - 1) as int);
            }
        }
    }
}

/// Every release ends within fourteen rounds of `m` samples, where
/// `m (1 - coeff) >= 1`: after `14 m` samples the envelope idles at `0`.
pub proof fn lemma_release_time(e: ADSR, m: nat)
    requires
        e.wf(),
        e.state is Release,
        m * (ONE - e.release_coeff) >= ONE,
    ensures
        e.spec_after(14 * m).state is Idle,
        e.spec_after(14 * m).output == 0,
{
    lemma_release_rounds(e, m, 14);
    let last = e.spec_after(14 * m);
    if last.state is Release {
        assert(spec_scaled(last.output + DR_TARGET_RATIO, 14) == 16384 * (last.output + DR_TARGET_RATIO)) by {
            reveal_with_fuel(spec_scaled, 15);
        }
    }
}

/// Doubling keeps a gap of a factor two: if `2 a <= b`, then `a` doubled
/// once more often than `b` is still no larger.
pub proof fn lemma_scaled_halves(a: int, b: int, k: int)
    requires
        2 * a <= b,
        0 <= k,
    ensures
        spec_scaled(a, k + 1) <= spec_scaled(b, k),
    decreases k,
{
    reveal_with_fuel(spec_scaled, 2);
    if k > 0 {
        lemma_scaled_halves(a, b, k - 1);
    }
}

/// How far the coefficient of a segment falls short of `1`, by the length
/// of the segment: with `x = log_ratio / rate` below `ln 2`,
/// `1 - coeff >= x - x^2/2`, to within one unit.
pub proof fn lemma_gap_of_length(rate: int, log_ratio: int)
    requires
        rate > 0,
        0 <= spec_div(log_ratio, rate) < 2977044472,
    ensures
        ONE - spec_coefficient(rate, log_ratio) >= spec_div(log_ratio, rate) - spec_mul(
            spec_div(log_ratio, rate),
            spec_div(log_ratio, rate) / 2,
        ) - 1,
{
    lemma_exp_neg_bounds(spec_div(log_ratio, rate));
}

/// A round of `rate / 8 + 1` samples is long enough to halve the distance
/// of a decay or release of `rate` samples, for 64 to `2^30` samples:
/// `(rate / 8 + 1) (1 - coeff) >= 1`.
pub proof fn lemma_round_of_length(rate: int)
    requires
        64 * ONE <= rate <= 0x4000_0000_0000_0000,
    ensures
        (rate / (8 * ONE) + 1) * (ONE - spec_coefficient(rate, DR_LOG_RATIO as int)) >= ONE,
{
    let one = ONE as int;
    let log = DR_LOG_RATIO as int;
    let x = spec_div(log, rate);
    let scaled = log * one;
    assert(scaled == 169902636256112672768) by (nonlinear_arith)
        requires
            scaled == log * one,
            log == 39558540158,
            one == 0x1_0000_0000,
    ;
    vstd::arithmetic::div_mod::lemma_fundamental_div_mod(scaled, rate);
    assert(64 * one == 274877906944 && 8 * one == 34359738368);
    vstd::arithmetic::div_mod::lemma_div_is_ordered_by_denominator(scaled, 274877906944, rate);
    vstd::arithmetic::div_mod::lemma_div_is_ordered_by_denominator(scaled, rate, 0x4000_0000_0000_0000);
    assert(169902636256112672768int / 274877906944 == 618102189);
    assert(169902636256112672768int / 0x4000_0000_0000_0000 == 36);
    assert(x == scaled / rate);
    assert(36 <= x <= 618102189);
    lemma_gap_of_length(rate, log);
    let half = spec_mul(x, x / 2);
    lemma_mul_floor(x, x / 2);
    let gap = one - spec_coefficient(rate, log);
    assert(gap >= x - half - 1);
    assert(1000 * half <= 72 * x) by (nonlinear_arith)
        requires
            half * one <= x * (x / 2),
            0 <= x <= 618102189,
            one == 0x1_0000_0000,
    ;
    let m = rate / (8 * one) + 1;
    assert(m == rate / 34359738368 + 1);
    assert(m * 34359738368 > rate && 1 <= m <= 134217729);
    assert(m * (8 * one) == m * 34359738368);
    assert(rate * x > scaled - rate) by (nonlinear_arith)
        requires
            scaled == rate * (scaled / rate) + scaled % rate,
            x == scaled / rate,
            0 <= scaled % rate < rate,
    ;
    assert(8 * one * (m * x) >= scaled - 8 * one * m) by (nonlinear_arith)
        requires
            m * (8 * one) > rate,
            rate * x > scaled - rate,
            x >= 0,
            m >= 1,
            one > 0,
    ;
    let mx = m * x;
    assert(mx >= 4944817519 - m) by (nonlinear_arith)
        requires
            8 * one * mx >= scaled - 8 * one * m,
            scaled == 169902636256112672768,
            one == 0x1_0000_0000,
    ;
    assert(1000 * (m * (x - half - 1)) >= 928 * mx - 1000 * m) by (nonlinear_arith)
        requires
            1000 * half <= 72 * x,
            mx == m * x,
            m >= 1,
    ;
    assert(m * gap >= m * (x - half - 1)) by (nonlinear_arith)
        requires
            gap >= x - half - 1,
            m >= 1,
    ;
}

/// Every release of 64 to `2^30` samples ends within fourteen rounds of an
/// eighth of its length: after `14 (n / 8 + 1)` samples, where `n` is the
/// whole number of samples of the release, the envelope idles at `0`.
pub proof fn lemma_release_ends_in_time(e: ADSR)
    requires
        e.wf(),
        e.state is Release,
        64 * ONE <= e.spec_release_samples() <= 0x4000_0000_0000_0000,
    ensures
        ({
            let round = (e.spec_release_samples() / (8 * ONE) + 1) as nat;
            &&& e.spec_after(14 * round).state is Idle
            &&& e.spec_after(14 * round).output == 0
        }),
{
    lemma_round_of_length(e.spec_release_samples());
    lemma_release_time(e, (e.spec_release_samples() / (8 * ONE) + 1) as nat);
}

/// A decay contracts towards its asymptote `sustain - ratio`: after `k`
/// samples the envelope holds its sustain level, or it is still in decay,
/// above the sustain level if a sample has passed, with
/// `(output - asymptote) (1 + k (1 - coeff)) <= output_0 - asymptote`.
pub proof fn lemma_decay_contracts(e: ADSR, k: nat)
    requires
        e.wf(),
        e.state is Decay,
    ensures
        e.spec_after(k).wf(),
        e.spec_after(k).decay_coeff == e.decay_coeff,
        e.spec_after(k).sustain == e.sustain,
        e.spec_after(k).state is Sustain || (e.spec_after(k).state is Decay && (k >= 1 ==> e.spec_after(
            k,
        ).output > e.sustain) && (e.spec_after(k).output - (e.sustain - DR_TARGET_RATIO)) * (ONE + k * (ONE
            - e.decay_coeff)) <= (e.output - (e.sustain - DR_TARGET_RATIO)) * ONE),
        e.spec_after(k).state is Sustain ==> e.spec_after(k).output == e.sustain,
    decreases k,
{
    let one = ONE as int;
    let c = e.decay_coeff as int;
    let gap = one - c;
    let f = e.sustain - DR_TARGET_RATIO;
    if k > 0 {
        lemma_coefficient_gap(e.spec_decay_samples(), DR_LOG_RATIO as int);
        lemma_process_keeps_wf(e);
        lemma_recurrence_delta(f, e.output as int, c);
        let next = e.spec_process();
        let raw = spec_recurrence(e.decay_base as int, e.output as int, c);
        let x0 = e.output - f;
        let x1 = raw - f;
        assert(x1 * one <= x0 * (one - gap)) by (nonlinear_arith)
            requires
                (raw - e.output) * one <= (f - e.output) * (one - c),
                x0 == e.output - f,
                x1 == raw - f,
                gap == one - c,
        ;
        if raw <= e.sustain {
            lemma_sustain_stays(next, (k - 1) as nat);
        } else {
            lemma_decay_contracts(next, (k - 1) as nat);
            let last = e.spec_after(k);
            assert(last == next.spec_after((k - 1) as nat));
            if last.state is Decay {
                assert(gap < one) by (nonlinear_arith)
                    requires
                        x1 * one <= x0 * (one - gap),
                        x1 > 0,
                        one > 0,
                        gap <= one,
                ;
                lemma_contraction_step(last.output - f, x1, x0, k as int, gap);
            }
        }
    } else {
        assert((e.output - f) * (one + 0 * gap) == (e.output - f) * one) by (nonlinear_arith);
    }
}

/// A decay halves its distance to the asymptote in every round of `m`
/// samples, where `m (1 - coeff) >= 1`: after `j` rounds the envelope
/// holds its sustain level, or `(output - asymptote) 2^j <= output_0 -
/// asymptote`.
pub proof fn lemma_decay_rounds(e: ADSR, m: nat, j: nat)
    requires
        e.wf(),
        e.state is Decay,
        m * (ONE - e.decay_coeff) >= ONE,
    ensures
        e.spec_after(j * m).wf(),
        e.spec_after(j * m).decay_coeff == e.decay_coeff,
        e.spec_after(j * m).sustain == e.sustain,
        e.spec_after(j * m).state is Sustain || (e.spec_after(j * m).state is Decay && (j >= 1 ==> e.spec_after(
            j * m,
        ).output > e.sustain) && spec_scaled(
            e.spec_after(j * m).output - (e.sustain - DR_TARGET_RATIO),
            j as int,
        ) <= e.output - (e.sustain - DR_TARGET_RATIO)),
        e.spec_after(j * m).state is Sustain ==> e.spec_after(j * m).output == e.sustain,
    decreases j,
{
    let one = ONE as int;
    let gap = one - e.decay_coeff;
    let f = e.sustain - DR_TARGET_RATIO;
    lemma_coefficients_below_one(e);
    assert(m >= 1) by (nonlinear_arith)
        requires
            m * gap >= one,
            one > 0,
            gap <= one,
            m >= 0,
    ;
    if j == 0 {
        assert(0 * m == 0) by (nonlinear_arith);
    } else {
        lemma_decay_rounds(e, m, (j - 1) as nat);
        let before = e.spec_after(((j - 1) * m) as nat);
        assert(j * m == (j - 1) * m + m) by (nonlinear_arith);
        assert((j - 1) * m >= 0) by (nonlinear_arith)
            requires
                j >= 1,
                m >= 0,
        ;
        lemma_after_adds(e, ((j - 1) * m) as nat, m);
        let last = e.spec_after(j * m);
        assert(last == before.spec_after(m));
        if before.state is Sustain {
            lemma_sustain_stays(before, m);
        } else {
            lemma_decay_contracts(before, m);
            if last.state is Decay {
                let a = last.output - f;
                let b = before.output - f;
                assert(2 * a <= b) by (nonlinear_arith)
                    requires
                        a * (one + m * gap) <= b * one,
                        m * gap >= one,
                        0 <= a,
                        one > 0,
                ;
                lemma_scaled_halves(a, b, (j - 1) as int);
            }
        }
    }
}

/// Every decay ends within fourteen rounds of `m` samples, where
/// `m (1 - coeff) >= 1`: after `14 m` samples the envelope holds exactly
/// its sustain level.
pub proof fn lemma_decay_time(e: ADSR, m: nat)
    requires
        e.wf(),
        e.state is Decay,
        m * (ONE - e.decay_coeff) >= ONE,
    ensures
        e.spec_after(14 * m).state is Sustain,
        e.spec_after(14 * m).output == e.sustain,
{
    lemma_decay_rounds(e, m, 14);
    let last = e.spec_after(14 * m);
    if last.state is Decay {
        assert(spec_scaled(last.output - (e.sustain - DR_TARGET_RATIO), 14) == 16384 * (last.output - (
            e.sustain - DR_TARGET_RATIO))) by {
            reveal_with_fuel(spec_scaled, 15);
        }
    }
}

/// Every decay of 64 to `2^30` samples ends within fourteen rounds of an
/// eighth of its length: after `14 (n / 8 + 1)` samples, where `n` is the
/// whole number of samples of the decay, the envelope holds exactly its
/// sustain level.
pub proof fn lemma_decay_ends_in_time(e: ADSR)
    requires
        e.wf(),
        e.state is Decay,
        64 * ONE <= e.spec_decay_samples() <= 0x4000_0000_0000_0000,
    ensures
        ({
            let round = (e.spec_decay_samples() / (8 * ONE) + 1) as nat;
            &&& e.spec_after(14 * round).state is Sustain
            &&& e.spec_after(14 * round).output == e.sustain
        }),
{
    lemma_round_of_length(e.spec_decay_samples());
    lemma_decay_time(e, (e.spec_decay_samples() / (8 * ONE) + 1) as nat);
}

/// An attack contracts towards a point `q` short of its asymptote
/// `1 + ratio`, where `q (1 - coeff) >= 2` makes up for the rounding: after
/// `k` samples the attack is over, or the envelope is still in attack,
/// below `1` if a sample has passed, with
/// `(distance - q) (1 + k (1 - coeff)) <= distance_0 - q`.
pub proof fn lemma_attack_contracts(e: ADSR, k: nat, q: int)
    requires
        e.wf(),
        e.state is Attack,
        0 <= q <= ATTACK_TARGET_RATIO,
        q * (ONE - e.attack_coeff) >= 2 * ONE,
    ensures
        e.spec_after(k).wf(),
        e.spec_after(k).attack_coeff == e.attack_coeff,
        !(e.spec_after(k).state is Attack) || ((k >= 1 ==> e.spec_after(k).output < ONE) && (ONE
            + ATTACK_TARGET_RATIO - e.spec_after(k).output - q) * (ONE + k * (ONE - e.attack_coeff)) <= (ONE
            + ATTACK_TARGET_RATIO - e.output - q) * ONE),
    decreases k,
{
    let one = ONE as int;
    let c = e.attack_coeff as int;
    let gap = one - c;
    let f = one + ATTACK_TARGET_RATIO;
    if k > 0 {
        lemma_coefficient_gap(e.spec_attack_samples(), ATTACK_LOG_RATIO as int);
        lemma_process_keeps_wf(e);
        lemma_recurrence_delta(f, e.output as int, c);
        let next = e.spec_process();
        let raw = spec_recurrence(e.attack_base as int, e.output as int, c);
        let x0 = f - e.output - q;
        let x1 = f - raw - q;
        assert(x1 * one <= x0 * (one - gap)) by (nonlinear_arith)
            requires
                (raw - e.output) * one > (f - e.output) * (one - c) - 2 * one,
                q * (one - c) >= 2 * one,
                x0 == f - e.output - q,
                x1 == f - raw - q,
                gap == one - c,
        ;
        if raw >= one {
            lemma_attack_does_not_return(next, (k - 1) as nat);
        } else {
            lemma_attack_contracts(next, (k - 1) as nat, q);
            let last = e.spec_after(k);
            assert(last == next.spec_after((k - 1) as nat));
            if last.state is Attack {
                assert(gap < one) by (nonlinear_arith)
                    requires
                        x1 * one <= x0 * (one - gap),
                        x1 > 0,
                        one > 0,
                        gap <= one,
                ;
                lemma_contraction_step(f - last.output - q, x1, x0, k as int, gap);
            }
        }
    } else {
        assert((f - e.output - q) * (one + 0 * gap) == (f - e.output - q) * one) by (nonlinear_arith);
    }
}

/// Without a new note an envelope that is not in attack never enters it.
pub proof fn lemma_attack_does_not_return(e: ADSR, n: nat)
    requires
        e.wf(),
        !(e.state is Attack),
    ensures
        e.spec_after(n).wf(),
        !(e.spec_after(n).state is Attack),
        e.spec_after(n).attack_coeff == e.attack_coeff,
    decreases n,
{
    if n > 0 {
        lemma_process_keeps_wf(e);
        lemma_attack_does_not_return(e.spec_process(), (n - 1) as nat);
    }
}

/// An attack halves its distance to the point `q` short of its asymptote
/// in every round of `m` samples, where `m (1 - coeff) >= 1`: after `j`
/// rounds the attack is over, or `(distance - q) 2^j <= distance_0 - q`.
pub proof fn lemma_attack_rounds(e: ADSR, m: nat, j: nat, q: int)
    requires
        e.wf(),
        e.state is Attack,
        0 <= q <= ATTACK_TARGET_RATIO,
        q * (ONE - e.attack_coeff) >= 2 * ONE,
        m * (ONE - e.attack_coeff) >= ONE,
    ensures
        e.spec_after(j * m).wf(),
        e.spec_after(j * m).attack_coeff == e.attack_coeff,
        !(e.spec_after(j * m).state is Attack) || ((j >= 1 ==> e.spec_after(j * m).output < ONE)
            && spec_scaled(ONE + ATTACK_TARGET_RATIO - e.spec_after(j * m).output - q, j as int) <= ONE
            + ATTACK_TARGET_RATIO - e.output - q),
    decreases j,
{
    let one = ONE as int;
    let gap = one - e.attack_coeff;
    let f = one + ATTACK_TARGET_RATIO;
    lemma_coefficients_below_one(e);
    assert(m >= 1) by (nonlinear_arith)
        requires
            m * gap >= one,
            one > 0,
            gap <= one,
            m >= 0,
    ;
    if j == 0 {
        assert(0 * m == 0) by (nonlinear_arith);
    } else {
        lemma_attack_rounds(e, m, (j - 1) as nat, q);
        let before = e.spec_after(((j - 1) * m) as nat);
        assert(j * m == (j - 1) * m + m) by (nonlinear_arith);
        assert((j - 1) * m >= 0) by (nonlinear_arith)
            requires
                j >= 1,
                m >= 0,
        ;
        lemma_after_adds(e, ((j - 1) * m) as nat, m);
        let last = e.spec_after(j * m);
        assert(last == before.spec_after(m));
        if !(before.state is Attack) {
            lemma_attack_does_not_return(before, m);
        } else {
            lemma_attack_contracts(before, m, q);
            if last.state is Attack {
                let a = f - last.output - q;
                let b = f - before.output - q;
                assert(2 * a <= b) by (nonlinear_arith)
                    requires
                        a * (one + m * gap) <= b * one,
                        m * gap >= one,
                        0 <= a,
                        one > 0,
                ;
                lemma_scaled_halves(a, b, (j - 1) as int);
            }
        }
    }
}

/// Every attack ends within three rounds of `m` samples, where
/// `m (1 - coeff) >= 1` and `q (1 - coeff) >= 2` for a `q` of at most
/// `0.157`: returns the sample, no later than `3 m`, at which the envelope
/// reaches `1` and hands over to the decay.
pub proof fn lemma_attack_time(e: ADSR, m: nat, q: int) -> (n: nat)
    requires
        e.wf(),
        e.state is Attack,
        e.spec_attack_samples() <= MAX_ATTACK,
        0 <= q <= 674923433,
        q * (ONE - e.attack_coeff) >= 2 * ONE,
        m * (ONE - e.attack_coeff) >= ONE,
    ensures
        1 <= n <= 3 * m,
        e.spec_after(n).state is Decay,
        e.spec_after(n).output == ONE,
        forall|k: nat| k < n ==> (#[trigger] e.spec_after(k)).state is Attack,
{
    lemma_attack_rounds(e, m, 3, q);
    let last = e.spec_after(3 * m);
    if last.state is Attack {
        assert(spec_scaled(ONE + ATTACK_TARGET_RATIO - last.output - q, 3) == 8 * (ONE + ATTACK_TARGET_RATIO
            - last.output - q)) by {
            reveal_with_fuel(spec_scaled, 4);
        }
        assert(false);
    }
    let n = lemma_attack_completes(e);
    if n > 3 * m {
        assert(e.spec_after(3 * m).state is Attack);
    }
    n
}

/// A round of `rate + 1` samples is long enough to halve the distance of
/// an attack of `rate` samples, for 64 to `2^26` samples, and `q = 2^27`
/// units make up for its rounding: `(rate + 1) (1 - coeff) >= 1` and
/// `2^27 (1 - coeff) >= 2`.
pub proof fn lemma_round_of_attack(rate: int)
    requires
        64 * ONE <= rate <= 0x400_0000_0000_0000,
    ensures
        (rate / (ONE as int) + 1) * (ONE - spec_coefficient(rate, ATTACK_LOG_RATIO as int)) >= ONE,
        134217728 * (ONE - spec_coefficient(rate, ATTACK_LOG_RATIO as int)) >= 2 * ONE,
{
    let one = ONE as int;
    let log = ATTACK_LOG_RATIO as int;
    let x = spec_div(log, rate);
    let scaled = log * one;
    assert(scaled == 27049144632192532480) by (nonlinear_arith)
        requires
            scaled == log * one,
            log == 6297869755,
            one == 0x1_0000_0000,
    ;
    vstd::arithmetic::div_mod::lemma_fundamental_div_mod(scaled, rate);
    assert(64 * one == 274877906944);
    vstd::arithmetic::div_mod::lemma_div_is_ordered_by_denominator(scaled, 274877906944, rate);
    vstd::arithmetic::div_mod::lemma_div_is_ordered_by_denominator(scaled, rate, 0x400_0000_0000_0000);
    assert(27049144632192532480int / 274877906944 == 98404214);
    assert(27049144632192532480int / 0x400_0000_0000_0000 == 93);
    assert(x == scaled / rate);
    assert(93 <= x <= 98404214);
    lemma_gap_of_length(rate, log);
    let half = spec_mul(x, x / 2);
    lemma_mul_floor(x, x / 2);
    let gap = one - spec_coefficient(rate, log);
    assert(gap >= x - half - 1);
    assert(1000 * half <= 12 * x) by (nonlinear_arith)
        requires
            half * one <= x * (x / 2),
            0 <= x <= 98404214,
            one == 0x1_0000_0000,
    ;
    assert(gap >= 64);
    let m = rate / one + 1;
    assert(m == rate / 4294967296 + 1);
    assert(m * 4294967296 > rate && 1 <= m <= 67108865);
    assert(m * one == m * 4294967296);
    assert(rate * x > scaled - rate) by (nonlinear_arith)
        requires
            scaled == rate * (scaled / rate) + scaled % rate,
            x == scaled / rate,
            0 <= scaled % rate < rate,
    ;
    assert(one * (m * x) >= scaled - one * m) by (nonlinear_arith)
        requires
            m * one > rate,
            rate * x > scaled - rate,
            x >= 0,
            m >= 1,
            one > 0,
    ;
    let mx = m * x;
    assert(mx >= 6297869755 - m) by (nonlinear_arith)
        requires
            one * mx >= scaled - one * m,
            scaled == 27049144632192532480,
            one == 0x1_0000_0000,
    ;
    assert(1000 * (m * (x - half - 1)) >= 988 * mx - 1000 * m) by (nonlinear_arith)
        requires
            1000 * half <= 12 * x,
            mx == m * x,
            m >= 1,
    ;
    assert(m * gap >= m * (x - half - 1)) by (nonlinear_arith)
        requires
            gap >= x - half - 1,
            m >= 1,
    ;
    assert(134217728 * gap >= 2 * one);
}

/// Every attack of 64 to `2^26` samples ends within three times its
/// length: returns the sample, no later than `3 (n + 1)` where `n` is the
/// whole number of samples of the attack, at which the envelope reaches
/// `1` and hands over to the decay.
pub proof fn lemma_attack_ends_in_time(e: ADSR) -> (n: nat)
    requires
        e.wf(),
        e.state is Attack,
        64 * ONE <= e.spec_attack_samples() <= 0x400_0000_0000_0000,
    ensures
        1 <= n <= 3 * (e.spec_attack_samples() / (ONE as int) + 1),
        e.spec_after(n).state is Decay,
        e.spec_after(n).output == ONE,
        forall|k: nat| k < n ==> (#[trigger] e.spec_after(k)).state is Attack,
{
    lemma_round_of_attack(e.spec_attack_samples());
    lemma_attack_time(e, (e.spec_attack_samples() / (ONE as int) + 1) as nat, 134217728)
}

/// The whole cycle of a note in time. With an attack of 64 to `2^26`
/// samples and a decay and a release of 64 to `2^30` samples, an envelope
/// started from idle reaches `1` after `n <= 3 (attack + 1)` samples,
/// holds exactly its sustain level `14 (decay / 8 + 1)` samples later, and,
/// once the note ends, idles at `0` after `14 (release / 8 + 1)` samples
/// more: returns `n`.
pub proof fn lemma_note_cycle_in_time(e: ADSR) -> (n: nat)
    requires
        e.wf(),
        e.state is Idle,
        64 * ONE <= e.spec_attack_samples() <= 0x400_0000_0000_0000,
        64 * ONE <= e.spec_decay_samples() <= 0x4000_0000_0000_0000,
        64 * ONE <= e.spec_release_samples() <= 0x4000_0000_0000_0000,
    ensures
        ({
            let peak = e.spec_start_note().spec_after(n);
            let held = peak.spec_after((14 * (e.spec_decay_samples() / (8 * ONE) + 1)) as nat);
            let done = held.spec_end_note().spec_after((14 * (e.spec_release_samples() / (8 * ONE) + 1)) as nat);
            &&& 1 <= n <= 3 * (e.spec_attack_samples() / (ONE as int) + 1)
            &&& peak.state is Decay && peak.output == ONE
            &&& held.state is Sustain && held.output == e.sustain
            &&& done.state is Idle && done.output == 0
        }),
{
    let started = e.spec_start_note();
    let n = lemma_attack_ends_in_time(started);
    let peak = started.spec_after(n);
    lemma_after_keeps_shape(started, n);
    lemma_output_stays_in_unit(started, n);
    lemma_decay_ends_in_time(peak);
    let rounds = (14 * (e.spec_decay_samples() / (8 * ONE) + 1)) as nat;
    let held = peak.spec_after(rounds);
    lemma_after_keeps_shape(peak, rounds);
    lemma_output_stays_in_unit(peak, rounds);
    lemma_release_ends_in_time(held.spec_end_note());
    n
}

} // verus!
