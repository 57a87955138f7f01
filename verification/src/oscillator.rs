//! The oscillator of a voice and the pitch LFO: phase accumulators with
//! saw, pulse, sine and triangle waveforms, detune and portamento glide.

use vstd::prelude::*;
use crate::adsr::{ADSR, ADSRState};
use crate::fixed::{
    ONE, spec_mul, spec_div, spec_add, spec_sub, spec_clamp, fx_mul, fx_div, fx_div_whole, fx_add,
    fx_sub, clamp, floor_div, floor_mod, lemma_mul_signed_unit, lemma_product_bounds,
    lemma_mul_is_not_negative, lemma_mul_share_of_step,
};
use crate::math::{HALF, QUARTER, spec_exp2, exp2, spec_sine, sine};

verus! {

/// The note that sounds at `A4_FREQ`.
pub const A4_PITCH: u8 = 69;

/// The frequency of the note `A4_PITCH` in hertz: 440.
pub const A4_FREQ: i64 = 1889785610240;

/// The frequency of an oscillator that has not played yet: 261.63 Hz.
pub const INITIAL_FREQ: i64 = 1123692293652;

/// The highest velocity of a note.
pub const MAX_VELOCITY: u8 = 127;

/// The waveform of an oscillator.
#[derive(Clone, Copy, PartialEq, Eq, Debug)]
pub enum OscillatorType {
    Saw,
    Pulse,
    Sin,
    Triangle,
}

/// One oscillator of a voice, with its amplitude envelope.
#[derive(Clone, Copy, Debug)]
pub struct Oscillator {
    pub frequency: i64,
    pub previous_frequency: i64,
    pub port_time: i64,
    pub monophonic: bool,
    pub sample_counter: u32,
    pub velocity: i64,
    pub note: u8,
    pub phase: i64,
    pub output: i64,
    pub pulsewidth: i64,
    pub sample_rate: i64,
    pub octave_mod: i64,
    pub semitone_mod: i8,
    pub fine_mod: i64,
    pub osc_type: OscillatorType,
    pub envelope: ADSR,
}

/// The free-running sine oscillator that modulates the pitch of all voices.
#[derive(Clone, Copy, Debug)]
pub struct LFO {
    pub frequency: i64,
    pub phase: i64,
    pub output: i64,
    pub depth: i64,
    pub sample_rate: i64,
}

/// The frequency of a note in hertz: `440 * 2^((note - 69) / 12)`.
pub open spec fn spec_mtof(note: int) -> int {
    spec_mul(A4_FREQ as int, spec_exp2(((note - A4_PITCH) * ONE) / 12))
}

/// The gain of a velocity: `vel / 127`, at most `1`.
pub open spec fn spec_velocity(vel: int) -> int {
    spec_div(spec_clamp(vel, 0, MAX_VELOCITY as int) * ONE, MAX_VELOCITY * ONE)
}

/// The frequency factor of an octave parameter: five buckets of width 0.2
/// that give 0.25, 0.5, 1, 2 and 3.
pub open spec fn spec_octave(octave: int) -> int {
    if octave < 858993459 {
        ONE / 4
    } else if octave < 1717986918 {
        ONE / 2
    } else if octave < 2576980378 {
        ONE as int
    } else if octave < 3435973837 {
        2 * ONE
    } else {
        3 * ONE
    }
}

/// Whether `factor` is one of the five octave factors.
pub open spec fn spec_is_octave(factor: int) -> bool {
    factor == ONE / 4 || factor == ONE / 2 || factor == ONE || factor == 2 * ONE || factor == 3 * ONE
}

/// The frequency factor of a detune of `semitone` semitones and `fine`
/// cents: `2^((semitone * 100 + fine) / 1200)`.
pub open spec fn spec_detune(semitone: int, fine: int) -> int {
    spec_exp2(spec_add(semitone * 100 * ONE, fine) / 1200)
}

/// A phase wrapped into `[0, 1)`.
pub open spec fn spec_wrap_unit(phase: int) -> int {
    phase % (ONE as int)
}

/// A phase wrapped into `[-1, 1)`.
pub open spec fn spec_wrap_saw(phase: int) -> int {
    (phase + ONE) % (2 * ONE) - ONE
}

/// The triangle over one cycle: `4 * (phase - 0.25)` up to one half,
/// `4 * ((1 - phase) - 0.25)` after it.
pub open spec fn spec_triangle(phase: int) -> int {
    if phase <= HALF {
        (phase - QUARTER) * 4
    } else {
        ((ONE - phase) - QUARTER) * 4
    }
}

/// The pulse over one cycle: `1` below the pulse width, `-1` from it on.
pub open spec fn spec_pulse(phase: int, pulsewidth: int) -> int {
    if phase < pulsewidth {
        ONE as int
    } else {
        -(ONE as int)
    }
}

/// Whether `phase` lies in the wrap domain of `osc_type`: `[-1, 1)` for the
/// saw, `[0, 1)` for the others.
pub open spec fn spec_in_domain(osc_type: OscillatorType, phase: int) -> bool {
    match osc_type {
        OscillatorType::Saw => -ONE <= phase < ONE,
        _ => 0 <= phase < ONE,
    }
}

impl Oscillator {
    /// The invariant of an oscillator: the sample rate is at least one
    /// hertz, the velocity lies in `[0, 1]`, the pulse width in `(0, 1)`,
    /// the detune in its range, the octave factor is one of the five, the
    /// phase lies in `[-1, 1)`, the frequencies are positive, and the envelope
    /// is well formed and runs at the oscillator's sample rate.
    pub open spec fn wf(self) -> bool {
        &&& self.sample_rate >= ONE
        &&& 0 <= self.velocity <= ONE
        &&& 0 < self.pulsewidth < ONE
        &&& -24 <= self.semitone_mod <= 24
        &&& -100 * ONE <= self.fine_mod <= 100 * ONE
        &&& -ONE <= self.phase < ONE
        &&& 0 < self.frequency
        &&& 0 < self.previous_frequency
        &&& spec_is_octave(self.octave_mod as int)
        &&& self.envelope.wf()
        &&& self.envelope.sample_rate == self.sample_rate
    }

    /// The oscillator before its first note.
    pub open spec fn spec_default() -> Oscillator {
        Oscillator {
            frequency: INITIAL_FREQ,
            previous_frequency: INITIAL_FREQ,
            port_time: 0,
            monophonic: false,
            sample_counter: 0,
            velocity: 0,
            note: 60,
            phase: 0,
            output: 0,
            pulsewidth: HALF,
            sample_rate: (44100 * ONE) as i64,
            octave_mod: ONE,
            semitone_mod: 0,
            fine_mod: 0,
            osc_type: OscillatorType::Saw,
            envelope: ADSR::spec_default(),
        }
    }

    /// Whether the oscillator sounds: its envelope is not idle.
    pub open spec fn spec_sounding(self) -> bool {
        !(self.envelope.state is Idle)
    }

    /// The oscillator after `note_on`: it aims at the note's frequency, and
    /// its envelope starts. In monophonic mode an oscillator that sounds
    /// glides there from the frequency it aimed at before; otherwise it
    /// jumps there.
    pub open spec fn spec_note_on(self, note: u8, vel: u8, mono: bool) -> Oscillator {
        let glides = mono && self.spec_sounding();
        Oscillator {
            velocity: spec_velocity(vel as int) as i64,
            monophonic: mono,
            previous_frequency: if glides { self.frequency } else { spec_mtof(note as int) as i64 },
            frequency: spec_mtof(note as int) as i64,
            sample_counter: if mono { 0 } else { self.sample_counter },
            note: note,
            envelope: self.envelope.spec_start_note(),
            ..self
        }
    }

    /// The oscillator after `reset`: silent, at the start of its cycle.
    pub open spec fn spec_reset(self) -> Oscillator {
        Oscillator { phase: 0, output: 0, sample_counter: 0, envelope: self.envelope.spec_reset(), ..self }
    }

    /// The oscillator after `note_off`: its envelope releases.
    pub open spec fn spec_note_off(self) -> Oscillator {
        Oscillator { envelope: self.envelope.spec_end_note(), ..self }
    }

    /// The oscillator after `set_params`: the pulse width is clamped into
    /// `(0, 1)`, the semitones into `[-24, 24]`, the cents into
    /// `[-100, 100]`.
    pub open spec fn spec_set_params(
        self,
        osc_type: OscillatorType,
        pw: int,
        octave: int,
        port_time: int,
        semitone: int,
        fine: int,
    ) -> Oscillator {
        Oscillator {
            osc_type: osc_type,
            pulsewidth: spec_clamp(pw, 1, ONE - 1) as i64,
            port_time: port_time as i64,
            semitone_mod: spec_clamp(semitone, -24, 24) as i8,
            fine_mod: spec_clamp(fine, -100 * ONE, 100 * ONE) as i64,
            octave_mod: spec_octave(octave) as i64,
            ..self
        }
    }

    /// The oscillator after `set_sample_rate`.
    pub open spec fn spec_set_sample_rate(self, sr: int) -> Oscillator {
        Oscillator {
            sample_rate: (if sr < ONE { ONE as int } else { sr }) as i64,
            envelope: self.envelope.spec_set_sample_rate(sr),
            ..self
        }
    }

    /// The seconds that the current glide has lasted.
    pub open spec fn spec_elapsed(self) -> int {
        spec_div(self.sample_counter * ONE, self.sample_rate as int)
    }

    /// Whether a glide is under way.
    pub open spec fn spec_gliding(self) -> bool {
        self.monophonic && self.spec_elapsed() < self.port_time
    }

    /// The frequency the oscillator is at: the target, or during a glide
    /// the point between the previous frequency and the target that the
    /// elapsed share of the glide time gives.
    pub open spec fn spec_glide_frequency(self) -> int {
        if self.spec_gliding() {
            spec_add(
                self.previous_frequency as int,
                spec_mul(
                    spec_sub(self.frequency as int, self.previous_frequency as int),
                    spec_div(self.spec_elapsed(), self.port_time as int),
                ),
            )
        } else {
            self.frequency as int
        }
    }

    /// The frequency that drives the phase:
    /// `glide * (1 + pitch_mod) * detune * octave`.
    pub open spec fn spec_effective_frequency(self, pitch_mod: int) -> int {
        let glide = self.spec_glide_frequency();
        let modulated = spec_add(glide, spec_mul(glide, pitch_mod));
        let detuned = spec_mul(modulated, spec_detune(self.semitone_mod as int, self.fine_mod as int));
        spec_mul(detuned, self.octave_mod as int)
    }

    /// The phase advance per sample in cycles:
    /// `effective_frequency / sample_rate`.
    pub open spec fn spec_step(self, pitch_mod: int) -> int {
        spec_div(self.spec_effective_frequency(pitch_mod), self.sample_rate as int)
    }

    /// The phase one sample later: advanced by one step (two for the saw,
    /// whose cycle spans `[-1, 1)`) and wrapped into the waveform's domain.
    pub open spec fn spec_next_phase(self, pitch_mod: int) -> int {
        match self.osc_type {
            OscillatorType::Saw => spec_wrap_saw(self.phase + 2 * self.spec_step(pitch_mod)),
            _ => spec_wrap_unit(self.phase + self.spec_step(pitch_mod)),
        }
    }

    /// The raw waveform of this sample, in `[-1, 1]`: the saw and the sine
    /// read the phase before it advances, the pulse and the triangle after.
    pub open spec fn spec_raw(self, pitch_mod: int) -> int {
        match self.osc_type {
            OscillatorType::Saw => self.phase as int,
            OscillatorType::Pulse => spec_pulse(self.spec_next_phase(pitch_mod), self.pulsewidth as int),
            OscillatorType::Sin => spec_sine(self.phase as int),
            OscillatorType::Triangle => spec_triangle(self.spec_next_phase(pitch_mod)),
        }
    }

    /// The oscillator one sample later.
    pub open spec fn spec_process(self, pitch_mod: int) -> Oscillator {
        Oscillator {
            envelope: self.envelope.spec_process(),
            sample_counter: if self.spec_gliding() && self.sample_counter < u32::MAX {
                (self.sample_counter + 1) as u32
            } else {
                self.sample_counter
            },
            phase: self.spec_next_phase(pitch_mod) as i64,
            output: if self.osc_type is Pulse { self.output } else { self.spec_raw(pitch_mod) as i64 },
            ..self
        }
    }

    /// The sample that `process_with_pitch_mod` returns:
    /// `raw * envelope * velocity`.
    pub open spec fn spec_sample(self, pitch_mod: int) -> int {
        spec_mul(
            spec_mul(self.spec_raw(pitch_mod), self.envelope.spec_process().output as int),
            self.velocity as int,
        )
    }

    /// The oscillator after one sample for each modulation of `mods`, in
    /// turn.
    pub open spec fn spec_run(self, mods: Seq<int>) -> Oscillator
        decreases mods.len(),
    {
        if mods.len() == 0 {
            self
        } else {
            self.spec_run(mods.drop_last()).spec_process(mods.last())
        }
    }

    /// Starts a note.
    pub fn note_on(&mut self, note: u8, vel: u8, mono: bool)
        requires
            old(self).wf(),
        ensures
            *final(self) == old(self).spec_note_on(note, vel, mono),
            final(self).wf(),
    {
        proof {
            lemma_velocity_unit(vel as int);
            lemma_mtof_is_positive(note as int);
        }
        let capped: u8 = if vel > MAX_VELOCITY { MAX_VELOCITY } else { vel };
        self.velocity = fx_div((capped as i64) * ONE, (MAX_VELOCITY as i64) * ONE);
        self.monophonic = mono;
        let sounding = match self.envelope.get_state() {
            ADSRState::Idle => false,
            _ => true,
        };
        if mono && sounding {
            self.previous_frequency = self.frequency;
            self.frequency = mtof(note);
        } else {
            self.frequency = mtof(note);
            self.previous_frequency = self.frequency;
        }
        if mono {
            self.sample_counter = 0;
        }
        self.note = note;
        self.envelope.start_note();
    }

    /// Silences the oscillator at once and returns it to the start of its
    /// cycle.
    pub fn reset(&mut self)
        requires
            old(self).wf(),
        ensures
            *final(self) == old(self).spec_reset(),
            final(self).wf(),
    {
        self.phase = 0;
        self.output = 0;
        self.sample_counter = 0;
        self.envelope.reset();
    }

    /// Releases the note.
    pub fn note_off(&mut self)
        requires
            old(self).wf(),
        ensures
            *final(self) == old(self).spec_note_off(),
            final(self).wf(),
    {
        self.envelope.end_note();
    }

    /// The note that was started last.
    pub fn get_current_note(&self) -> (note: u8)
        ensures
            note == self.note,
    {
        self.note
    }

    /// Sets the waveform, the pulse width, the octave (a normalised
    /// parameter), the glide time in seconds, and the detune in semitones
    /// and cents.
    pub fn set_params(
        &mut self,
        osc_type: OscillatorType,
        pw: i64,
        octave: i64,
        port_time: i64,
        semitone: i8,
        fine: i64,
    )
        requires
            old(self).wf(),
        ensures
            *final(self) == old(self).spec_set_params(
                osc_type,
                pw as int,
                octave as int,
                port_time as int,
                semitone as int,
                fine as int,
            ),
            final(self).wf(),
    {
        self.osc_type = osc_type;
        self.pulsewidth = clamp(pw, 1, ONE - 1);
        self.port_time = port_time;
        self.semitone_mod = if semitone < -24 {
            -24
        } else if semitone > 24 {
            24
        } else {
            semitone
        };
        self.fine_mod = clamp(fine, -100 * ONE, 100 * ONE);
        self.octave_mod = self::octave(octave);
    }

    /// Sets the sample rate in hertz, raised to one hertz.
    pub fn set_sample_rate(&mut self, sr: i64)
        requires
            old(self).wf(),
        ensures
            *final(self) == old(self).spec_set_sample_rate(sr as int),
            final(self).wf(),
    {
        self.sample_rate = if sr < ONE { ONE } else { sr };
        self.envelope.set_sample_rate(sr);
    }

    /// Renders one sample without pitch modulation.
    pub fn process(&mut self) -> (sample: i64)
        requires
            old(self).wf(),
        ensures
            *final(self) == old(self).spec_process(0),
            sample == old(self).spec_sample(0),
            -ONE <= sample <= ONE,
            spec_in_domain(final(self).osc_type, final(self).phase as int),
            final(self).wf(),
    {
        self.process_with_pitch_mod(0)
    }

    /// Renders one sample with the frequency scaled by `1 + pitch_mod`.
    pub fn process_with_pitch_mod(&mut self, pitch_mod: i64) -> (sample: i64)
        requires
            old(self).wf(),
        ensures
            *final(self) == old(self).spec_process(pitch_mod as int),
            sample == old(self).spec_sample(pitch_mod as int),
            -ONE <= sample <= ONE,
            spec_in_domain(final(self).osc_type, final(self).phase as int),
            final(self).wf(),
    {
        self.envelope.process();
        let mut freq: i64 = self.frequency;
        if self.monophonic {
            let elapsed = fx_div_whole(self.sample_counter, self.sample_rate);
            if elapsed < self.port_time {
                if self.sample_counter < u32::MAX {
                    self.sample_counter = self.sample_counter + 1;
                }
                proof {
                    lemma_elapsed_nonnegative(self.sample_counter as int, self.sample_rate as int);
                    lemma_elapsed_nonnegative(old(self).sample_counter as int, self.sample_rate as int);
                }
                freq = fx_add(
                    self.previous_frequency,
                    fx_mul(fx_sub(self.frequency, self.previous_frequency), fx_div(elapsed, self.port_time)),
                );
            }
        }
        freq = fx_add(freq, fx_mul(freq, pitch_mod));
        let cents = fx_add((self.semitone_mod as i64) * 100 * ONE, self.fine_mod);
        let exponent: i128 = floor_div(cents as i128, 1200);
        freq = fx_mul(freq, exp2(exponent as i64));
        freq = fx_mul(freq, self.octave_mod);
        let step = fx_div(freq, self.sample_rate);
        let raw: i64;
        match self.osc_type {
            OscillatorType::Saw => {
                raw = self.phase;
                self.output = raw;
                self.phase = wrap_saw(self.phase, step);
            },
            OscillatorType::Pulse => {
                self.phase = wrap_unit(self.phase, step);
                raw = if self.phase < self.pulsewidth { ONE } else { -ONE };
            },
            OscillatorType::Sin => {
                raw = sine(self.phase);
                self.output = raw;
                self.phase = wrap_unit(self.phase, step);
            },
            OscillatorType::Triangle => {
                self.phase = wrap_unit(self.phase, step);
                raw = if self.phase <= HALF {
                    (self.phase - QUARTER) * 4
                } else {
                    ((ONE - self.phase) - QUARTER) * 4
                };
                self.output = raw;
            },
        }
        proof {
            lemma_mul_signed_unit(raw as int, self.envelope.output as int);
            lemma_mul_signed_unit(spec_mul(raw as int, self.envelope.output as int), self.velocity as int);
        }
        fx_mul(fx_mul(raw, self.envelope.get_output()), self.velocity)
    }
}

impl Default for Oscillator {
    fn default() -> (o: Oscillator)
        ensures
            o == Oscillator::spec_default(),
            o.wf(),
    {
        Oscillator {
            frequency: INITIAL_FREQ,
            previous_frequency: INITIAL_FREQ,
            port_time: 0,
            monophonic: false,
            sample_counter: 0,
            velocity: 0,
            note: 60,
            phase: 0,
            output: 0,
            pulsewidth: HALF,
            sample_rate: 44100 * ONE,
            octave_mod: ONE,
            semitone_mod: 0,
            fine_mod: 0,
            osc_type: OscillatorType::Saw,
            envelope: ADSR::default(),
        }
    }
}

impl LFO {
    /// The invariant of the LFO: the sample rate is at least one hertz, the
    /// depth lies in `[0, 1]` and the phase in `[0, 1)`.
    pub open spec fn wf(self) -> bool {
        &&& self.sample_rate >= ONE
        &&& 0 <= self.depth <= ONE
        &&& 0 <= self.phase < ONE
    }

    /// The LFO at rest: 5 Hz, no depth, at 44100 Hz.
    pub open spec fn spec_default() -> LFO {
        LFO { frequency: (5 * ONE) as i64, phase: 0, output: 0, depth: 0, sample_rate: (44100 * ONE) as i64 }
    }

    /// The LFO after `set_params`: the depth is clamped into `[0, 1]`.
    pub open spec fn spec_set_params(self, depth: int, frequency: int) -> LFO {
        LFO { frequency: frequency as i64, depth: spec_clamp(depth, 0, ONE as int) as i64, ..self }
    }

    /// The LFO one sample later: the phase advanced by
    /// `frequency / sample_rate` and wrapped at `1`.
    pub open spec fn spec_process(self) -> LFO {
        LFO {
            output: spec_sine(self.phase as int) as i64,
            phase: spec_wrap_unit(self.phase + spec_div(self.frequency as int, self.sample_rate as int)) as i64,
            ..self
        }
    }

    /// The LFO after `set_sample_rate`.
    pub open spec fn spec_set_sample_rate(self, sr: int) -> LFO {
        LFO { sample_rate: (if sr < ONE { ONE as int } else { sr }) as i64, ..self }
    }

    /// The LFO after `reset`: at the start of its cycle.
    pub open spec fn spec_reset(self) -> LFO {
        LFO { phase: 0, output: 0, ..self }
    }

    /// The modulation that `process` returns: `sin(2 pi phase) * depth`.
    pub open spec fn spec_sample(self) -> int {
        spec_mul(spec_sine(self.phase as int), self.depth as int)
    }

    /// Sets the depth and the rate in hertz.
    pub fn set_params(&mut self, depth: i64, frequency: i64)
        requires
            old(self).wf(),
        ensures
            *final(self) == old(self).spec_set_params(depth as int, frequency as int),
            final(self).wf(),
    {
        self.frequency = frequency;
        self.depth = clamp(depth, 0, ONE);
    }

    /// Sets the sample rate in hertz, raised to one hertz.
    pub fn set_sample_rate(&mut self, sr: i64)
        requires
            old(self).wf(),
        ensures
            *final(self) == old(self).spec_set_sample_rate(sr as int),
            final(self).wf(),
    {
        self.sample_rate = if sr < ONE { ONE } else { sr };
    }

    /// Returns the LFO to the start of its cycle.
    pub fn reset(&mut self)
        requires
            old(self).wf(),
        ensures
            *final(self) == old(self).spec_reset(),
            final(self).wf(),
    {
        self.phase = 0;
        self.output = 0;
    }

    /// Returns the modulation of this sample and advances the phase.
    pub fn process(&mut self) -> (sample: i64)
        requires
            old(self).wf(),
        ensures
            *final(self) == old(self).spec_process(),
            sample == old(self).spec_sample(),
            -ONE <= sample <= ONE,
            final(self).wf(),
    {
        self.output = sine(self.phase);
        let step = fx_div(self.frequency, self.sample_rate);
        self.phase = wrap_unit(self.phase, step);
        proof {
            lemma_mul_signed_unit(self.output as int, self.depth as int);
        }
        fx_mul(self.output, self.depth)
    }
}

impl Default for LFO {
    fn default() -> (l: LFO)
        ensures
            l == LFO::spec_default(),
            l.wf(),
    {
        LFO { frequency: 5 * ONE, phase: 0, output: 0, depth: 0, sample_rate: 44100 * ONE }
    }
}

/// Converts a note number to its frequency in hertz.
pub fn mtof(note: u8) -> (freq: i64)
    ensures
        freq == spec_mtof(note as int),
{
    proof {
        lemma_product_bounds(note - A4_PITCH, ONE as int, 0x100, 0x1_0000_0000);
    }
    let semitones: i128 = (note as i128 - A4_PITCH as i128) * (ONE as i128);
    let exponent: i128 = floor_div(semitones, 12);
    fx_mul(A4_FREQ, exp2(exponent as i64))
}

/// Maps a normalised octave parameter to its frequency factor.
pub fn octave(value: i64) -> (factor: i64)
    ensures
        factor == spec_octave(value as int),
{
    if value < 858993459 {
        ONE / 4
    } else if value < 1717986918 {
        ONE / 2
    } else if value < 2576980378 {
        ONE
    } else if value < 3435973837 {
        2 * ONE
    } else {
        3 * ONE
    }
}

/// Advances a phase by `step` and wraps it into `[0, 1)`.
pub fn wrap_unit(phase: i64, step: i64) -> (r: i64)
    ensures
        r == spec_wrap_unit(phase + step),
        0 <= r < ONE,
{
    floor_mod(phase as i128 + step as i128, ONE as i128) as i64
}

/// Advances a phase by twice `step` and wraps it into `[-1, 1)`.
pub fn wrap_saw(phase: i64, step: i64) -> (r: i64)
    ensures
        r == spec_wrap_saw(phase + 2 * step),
        -ONE <= r < ONE,
{
    (floor_mod(phase as i128 + 2 * (step as i128) + ONE as i128, 2 * (ONE as i128)) - ONE as i128) as i64
}

/// A velocity gain lies in `[0, 1]`.
pub proof fn lemma_velocity_unit(vel: int)
    ensures
        0 <= spec_velocity(vel) <= ONE,
{
    let v = spec_clamp(vel, 0, MAX_VELOCITY as int);
    let d = MAX_VELOCITY * ONE;
    assert(0 <= v * ONE * ONE <= d * ONE) by (nonlinear_arith)
        requires
            0 <= v <= 127,
            d == 127 * ONE,
            ONE == 0x1_0000_0000,
    ;
    vstd::arithmetic::div_mod::lemma_div_is_ordered(0, v * ONE * ONE, d);
    vstd::arithmetic::div_mod::lemma_div_is_ordered(v * ONE * ONE, d * ONE, d);
    assert((d * ONE) / d == ONE) by (nonlinear_arith)
        requires
            d == 127 * ONE,
            ONE == 0x1_0000_0000,
    ;
}

/// The elapsed glide time is not negative.
pub proof fn lemma_elapsed_nonnegative(counter: int, sample_rate: int)
    requires
        0 <= counter,
        sample_rate > 0,
    ensures
        0 <= spec_div(counter * ONE, sample_rate),
{
    assert(0 <= counter * ONE * ONE) by (nonlinear_arith)
        requires
            0 <= counter,
            ONE == 0x1_0000_0000,
    ;
    vstd::arithmetic::div_mod::lemma_div_pos_is_pos(counter * ONE * ONE, sample_rate);
}

/// After any number of samples, under any modulation, the phase lies in
/// the wrap domain of the waveform.
pub proof fn lemma_phase_stays_in_domain(o: Oscillator, mods: Seq<int>)
    requires
        mods.len() > 0,
    ensures
        spec_in_domain(o.spec_run(mods).osc_type, o.spec_run(mods).phase as int),
        -ONE <= o.spec_run(mods).phase < ONE,
{
    let before = o.spec_run(mods.drop_last());
    let pitch_mod = mods.last();
    assert(-ONE <= before.spec_next_phase(pitch_mod) < ONE);
    assert(spec_in_domain(before.osc_type, before.spec_next_phase(pitch_mod)));
}

/// A pitch modulation of at least `-1` never turns the phase back: the
/// frequency that drives the phase, and with it the step, is not negative.
pub proof fn lemma_frequency_is_not_negative(o: Oscillator, pitch_mod: int)
    requires
        o.wf(),
        -ONE <= pitch_mod <= 0x7fff_ffff_ffff_ffff,
    ensures
        0 <= o.spec_glide_frequency(),
        0 <= o.spec_effective_frequency(pitch_mod),
        0 <= o.spec_step(pitch_mod),
{
    let glide = o.spec_glide_frequency();
    if o.spec_gliding() {
        lemma_elapsed_nonnegative(o.sample_counter as int, o.sample_rate as int);
        let elapsed = o.spec_elapsed();
        let share = spec_div(elapsed, o.port_time as int);
        assert(0 <= share <= ONE) by {
            assert(0 <= elapsed * ONE <= o.port_time * ONE) by (nonlinear_arith)
                requires
                    0 <= elapsed < o.port_time,
                    ONE == 0x1_0000_0000,
            ;
            vstd::arithmetic::div_mod::lemma_div_is_ordered(0, elapsed * ONE, o.port_time as int);
            vstd::arithmetic::div_mod::lemma_div_is_ordered(
                elapsed * ONE,
                o.port_time * ONE,
                o.port_time as int,
            );
            vstd::arithmetic::div_mod::lemma_div_multiples_vanish(ONE as int, o.port_time as int);
            assert(o.port_time * ONE == o.port_time * (ONE as int));
        }
        let step = spec_sub(o.frequency as int, o.previous_frequency as int);
        if step <= 0 {
            lemma_mul_share_of_step(step, share);
        } else {
            lemma_mul_is_not_negative(step, share);
        }
    }
    assert(0 <= glide);
    let swing = spec_mul(glide, pitch_mod);
    assert(-glide <= swing) by {
        if pitch_mod >= 0 {
            lemma_mul_is_not_negative(glide, pitch_mod);
        } else {
            assert(glide * (-(ONE as int)) <= glide * pitch_mod) by (nonlinear_arith)
                requires
                    0 <= glide,
                    -ONE <= pitch_mod,
            ;
            vstd::arithmetic::div_mod::lemma_div_is_ordered(
                glide * (-(ONE as int)),
                glide * pitch_mod,
                ONE as int,
            );
            vstd::arithmetic::div_mod::lemma_div_multiples_vanish(-glide, ONE as int);
            assert(glide * (-(ONE as int)) == (ONE as int) * (-glide)) by (nonlinear_arith);
            assert(glide * pitch_mod <= 0) by (nonlinear_arith)
                requires
                    0 <= glide,
                    pitch_mod < 0,
            ;
            vstd::arithmetic::div_mod::lemma_div_is_ordered(glide * pitch_mod, 0, ONE as int);
        }
    }
    let modulated = spec_add(glide, swing);
    assert(0 <= modulated);
    let detune = spec_detune(o.semitone_mod as int, o.fine_mod as int);
    crate::math::lemma_exp2_is_not_negative(spec_add(o.semitone_mod * 100 * ONE, o.fine_mod as int) / 1200);
    lemma_mul_is_not_negative(modulated, detune);
    lemma_mul_is_not_negative(spec_mul(modulated, detune), o.octave_mod as int);
    let freq = o.spec_effective_frequency(pitch_mod);
    assert(0 <= freq * ONE) by (nonlinear_arith)
        requires
            0 <= freq,
            ONE == 0x1_0000_0000,
    ;
    vstd::arithmetic::div_mod::lemma_div_pos_is_pos(freq * ONE, o.sample_rate as int);
}

/// The octaves of A4 are exact: the notes 45, 57, 69, 81 and 93 sound at
/// 110, 220, 440, 880 and 1760 Hz.
pub proof fn lemma_mtof_anchors()
    ensures
        spec_mtof(45) == 110 * ONE,
        spec_mtof(57) == 220 * ONE,
        spec_mtof(A4_PITCH as int) == A4_FREQ,
        spec_mtof(81) == 880 * ONE,
        spec_mtof(93) == 1760 * ONE,
{
    crate::math::lemma_exp2_near_one();
    assert(((45 - A4_PITCH) * ONE) / 12 == -2 * ONE);
    assert(((57 - A4_PITCH) * ONE) / 12 == -(ONE as int));
    assert(((69 - A4_PITCH) * ONE) / 12 == 0);
    assert(((81 - A4_PITCH) * ONE) / 12 == ONE);
    assert(((93 - A4_PITCH) * ONE) / 12 == 2 * ONE);
    assert(spec_mul(A4_FREQ as int, ONE / 4) == 110 * ONE);
    assert(spec_mul(A4_FREQ as int, ONE / 2) == 220 * ONE);
    assert(spec_mul(A4_FREQ as int, ONE as int) == A4_FREQ);
    assert(spec_mul(A4_FREQ as int, 2 * ONE) == 880 * ONE);
    assert(spec_mul(A4_FREQ as int, 4 * ONE) == 1760 * ONE);
}

/// Every note has a positive frequency, of more than 4 Hz.
pub proof fn lemma_mtof_is_positive(note: int)
    requires
        0 <= note <= 255,
    ensures
        4 * ONE < spec_mtof(note) <= 0x7fff_ffff_ffff_ffff,
{
    let exponent = ((note - A4_PITCH) * ONE) / 12;
    assert(-6 * ONE <= exponent);
    crate::math::lemma_exp2_is_positive(exponent);
    crate::math::lemma_exp2_is_not_negative(exponent);
    let power = spec_exp2(exponent);
    assert(A4_FREQ * power >= A4_FREQ * 41185088) by (nonlinear_arith)
        requires
            power >= 41185088,
            A4_FREQ == 1889785610240,
    ;
    vstd::arithmetic::div_mod::lemma_div_is_ordered(A4_FREQ * 41185088, A4_FREQ * power, ONE as int);
    assert((A4_FREQ * 41185088) / (ONE as int) == 18121438720);
}

} // verus!
