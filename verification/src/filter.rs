//! The resonant filter: a two-integrator state-variable recurrence that
//! yields a lowpass, a bandpass and a highpass tap from one update.

use vstd::prelude::*;
use crate::adsr::ADSR;
use crate::fixed::{ONE, LIMIT, spec_mul, spec_div, spec_add, spec_sub, spec_clamp, fx_mul, fx_div, fx_add, fx_sub, clamp};
use crate::math::{HALF, QUARTER, TAN_MAX, spec_tan_pi, tan_pi, lemma_sine_is_positive, lemma_tan_pi_bounds};

verus! {

/// The lowest cutoff frequency the filter is tuned to: 1 Hz.
pub const MIN_CUTOFF: i64 = 0x1_0000_0000;

/// The lowest resonance the filter accepts: 1/1024.
pub const MIN_RESONANCE: i64 = 0x40_0000;

/// The resonance of the initial filter: one over the square root of two.
pub const INITIAL_RESONANCE: i64 = 3037000500;

/// The cutoff of the initial filter in hertz: 200.
pub const INITIAL_CUTOFF: i64 = 858993459200;

/// The span of the cutoff parameter in hertz: 19980.
pub const CUTOFF_SPAN: i64 = 85813446574080;

/// The cutoff in hertz at parameter value zero: 20.
pub const CUTOFF_FLOOR: i64 = 85899345920;

/// The span of the resonance parameter: 9.9.
pub const RESONANCE_SPAN: i64 = 42520176230;

/// The resonance at parameter value zero: 0.1.
pub const RESONANCE_FLOOR: i64 = 429496730;

/// Parameter values below this select the lowpass tap: 0.33.
pub const LOWPASS_BELOW: i64 = 1417339208;

/// Parameter values below this (and not below `LOWPASS_BELOW`) select the
/// bandpass tap: 0.66.
pub const BANDPASS_BELOW: i64 = 2834678415;

/// The tap that the filter puts out.
#[derive(Clone, Copy, PartialEq, Eq, Debug)]
pub enum FilterType {
    Lowpass,
    Bandpass,
    Highpass,
}

/// The tuning of the filter, a cutoff in hertz and a resonance, with the
/// coefficients of the recurrence that follow from it.
#[derive(Clone, Copy, Debug)]
pub struct FilterState {
    pub cutoff: i64,
    pub resonance: i64,
    pub g: i64,
    pub r2: i64,
    pub h: i64,
    pub sample_rate: i64,
}

/// A state-variable filter with its cutoff envelope.
#[derive(Clone, Copy, Debug)]
pub struct Filter {
    pub sample_rate: i64,
    pub y0: i64,
    pub y1: i64,
    pub y2: i64,
    pub s1: i64,
    pub s2: i64,
    pub filter_state: FilterState,
    pub filter_type: FilterType,
    pub envelope: ADSR,
}

/// The integrator gain for a cutoff of `freq` hertz at `sample_rate`:
/// `tan(pi * freq / sample_rate)`, with `freq` raised to `MIN_CUTOFF`.
pub open spec fn spec_gain(freq: int, sample_rate: int) -> int
    recommends
        sample_rate > 0,
{
    spec_tan_pi(spec_div(spec_clamp(freq, MIN_CUTOFF as int, LIMIT as int), sample_rate))
}

/// The damping for a resonance: `1 / resonance`, with `resonance` raised to
/// `MIN_RESONANCE`.
pub open spec fn spec_damping(resonance: int) -> int {
    spec_div(ONE as int, spec_clamp(resonance, MIN_RESONANCE as int, LIMIT as int))
}

/// The normalisation of the recurrence: `1 / (1 + r2 * g + g * g)`.
pub open spec fn spec_norm(g: int, r2: int) -> int {
    spec_div(ONE as int, spec_add(spec_add(ONE as int, spec_mul(r2, g)), spec_mul(g, g)))
}

/// The tap that a normalised type parameter selects.
pub open spec fn spec_filter_type(value: int) -> FilterType {
    if value < LOWPASS_BELOW {
        FilterType::Lowpass
    } else if value < BANDPASS_BELOW {
        FilterType::Bandpass
    } else {
        FilterType::Highpass
    }
}

/// The cutoff in hertz for a normalised, already shaped cutoff parameter:
/// `value * 19980 + 20`.
pub open spec fn spec_cutoff_hz(value: int) -> int {
    spec_add(spec_mul(value, CUTOFF_SPAN as int), CUTOFF_FLOOR as int)
}

/// The resonance for a normalised resonance parameter: `value * 9.9 + 0.1`.
pub open spec fn spec_resonance(value: int) -> int {
    spec_add(spec_mul(value, RESONANCE_SPAN as int), RESONANCE_FLOOR as int)
}

/// The bound of a product: `a * b` rounded down, and one unit of rounding.
pub open spec fn spec_product_bound(a: int, b: int) -> int {
    (a * b) / (ONE as int) + 1
}

impl FilterState {
    /// The invariant of the coefficients: the sample rate is at least one
    /// hertz, the gain, the damping and the normalisation are those that
    /// the cutoff, the resonance and the sample rate prescribe, the gain is
    /// positive, and the normalisation is at most `1`.
    pub open spec fn wf(self) -> bool {
        &&& self.sample_rate >= ONE
        &&& self.g == spec_gain(self.cutoff as int, self.sample_rate as int)
        &&& self.r2 == spec_damping(self.resonance as int)
        &&& self.h == spec_norm(self.g as int, self.r2 as int)
        &&& 0 < self.g <= TAN_MAX
        &&& 0 <= self.r2 <= 1024 * ONE
        &&& 0 <= self.h <= ONE
    }

    /// The coefficients for a cutoff and a resonance at `sample_rate`.
    pub open spec fn spec_with(freq: int, resonance: int, sample_rate: int) -> FilterState {
        let g = spec_gain(freq, sample_rate);
        let r2 = spec_damping(resonance);
        FilterState {
            cutoff: freq as i64,
            resonance: resonance as i64,
            g: g as i64,
            r2: r2 as i64,
            h: spec_norm(g, r2) as i64,
            sample_rate: sample_rate as i64,
        }
    }

    /// The initial coefficients: a cutoff of 200 Hz at 44100 Hz with a
    /// resonance of one over the square root of two.
    pub open spec fn spec_default() -> FilterState {
        Self::spec_with(INITIAL_CUTOFF as int, INITIAL_RESONANCE as int, 44100 * ONE)
    }

    /// The coefficients after `set_sample_rate`: rates below one hertz are
    /// raised to one hertz, and the gain follows.
    pub open spec fn spec_set_sample_rate(self, sr: int) -> FilterState {
        Self::spec_with(self.cutoff as int, self.resonance as int, if sr < ONE { ONE as int } else { sr })
    }

    /// Computes the coefficients for a cutoff and a resonance.
    fn with(freq: i64, resonance: i64, sample_rate: i64) -> (s: FilterState)
        requires
            sample_rate >= ONE,
        ensures
            s == Self::spec_with(freq as int, resonance as int, sample_rate as int),
            s.wf(),
    {
        proof {
            lemma_damping_bounds(resonance as int);
            lemma_gain_is_positive(freq as int, sample_rate as int);
        }
        let g = tan_pi(fx_div(clamp(freq, MIN_CUTOFF, LIMIT), sample_rate));
        let r2 = fx_div(ONE, clamp(resonance, MIN_RESONANCE, LIMIT));
        proof {
            lemma_norm_divisor(g as int, r2 as int);
            lemma_norm_is_unit(g as int, r2 as int);
        }
        let h = fx_div(ONE, fx_add(fx_add(ONE, fx_mul(r2, g)), fx_mul(g, g)));
        FilterState { cutoff: freq, resonance, g, r2, h, sample_rate }
    }

    /// Tunes the coefficients to a cutoff in hertz and a resonance.
    pub fn set_params(&mut self, freq: i64, resonance: i64)
        requires
            old(self).wf(),
        ensures
            *final(self) == FilterState::spec_with(freq as int, resonance as int, old(self).sample_rate as int),
            final(self).wf(),
    {
        *self = Self::with(freq, resonance, self.sample_rate);
    }

    /// Sets the sample rate in hertz.
    pub fn set_sample_rate(&mut self, sr: i64)
        requires
            old(self).wf(),
        ensures
            *final(self) == old(self).spec_set_sample_rate(sr as int),
            final(self).wf(),
    {
        *self = Self::with(self.cutoff, self.resonance, if sr < ONE { ONE } else { sr });
    }
}

impl Default for FilterState {
    fn default() -> (s: FilterState)
        ensures
            s == FilterState::spec_default(),
            s.wf(),
    {
        FilterState::with(INITIAL_CUTOFF, INITIAL_RESONANCE, 44100 * ONE)
    }
}

impl Filter {
    /// The invariant of a filter: its coefficients and its envelope are well
    /// formed, and they run at the filter's sample rate.
    pub open spec fn wf(self) -> bool {
        &&& self.filter_state.wf()
        &&& self.envelope.wf()
        &&& self.sample_rate >= ONE
        &&& self.filter_state.sample_rate == self.sample_rate
        &&& self.envelope.sample_rate == self.sample_rate
    }

    /// The filter that is put out by the selected tap.
    pub open spec fn spec_output(self) -> int {
        match self.filter_type {
            FilterType::Lowpass => self.y0 as int,
            FilterType::Bandpass => self.y1 as int,
            FilterType::Highpass => self.y2 as int,
        }
    }

    /// The initial filter: silent, lowpass, at 44100 Hz.
    pub open spec fn spec_default() -> Filter {
        Filter {
            sample_rate: (44100 * ONE) as i64,
            y0: 0,
            y1: 0,
            y2: 0,
            s1: 0,
            s2: 0,
            filter_state: FilterState::spec_default(),
            filter_type: FilterType::Lowpass,
            envelope: ADSR::spec_default(),
        }
    }

    /// The filter after `set_params`: tuned to the cutoff
    /// `cutoff * 19980 + 20` hertz and the resonance `res * 9.9 + 0.1`,
    /// with the tap that `new_type` selects, and the envelope with its new
    /// times.
    pub open spec fn spec_set_params(
        self,
        cutoff: int,
        res: int,
        new_type: int,
        attack: int,
        decay: int,
        sustain: int,
        release: int,
    ) -> Filter {
        Filter {
            filter_state: FilterState::spec_with(
                spec_cutoff_hz(cutoff),
                spec_resonance(res),
                self.filter_state.sample_rate as int,
            ),
            filter_type: spec_filter_type(new_type),
            envelope: self.envelope.spec_set_params(attack, decay, sustain, release),
            ..self
        }
    }

    /// The filter one sample later, fed `input`:
    ///
    /// ```text
    /// y2 = (input - s1 * r2 - s1 * g - s2) * h
    /// y1 = y2 * g + s1      s1' = y2 * g + y1
    /// y0 = y1 * g + s2      s2' = y1 * g + y0
    /// ```
    pub open spec fn spec_process(self, input: int) -> Filter {
        let g = self.filter_state.g as int;
        let r2 = self.filter_state.r2 as int;
        let h = self.filter_state.h as int;
        let drive = spec_sub(
            spec_sub(spec_sub(input, spec_mul(self.s1 as int, r2)), spec_mul(self.s1 as int, g)),
            self.s2 as int,
        );
        let y2 = spec_mul(drive, h);
        let y1 = spec_add(spec_mul(y2, g), self.s1 as int);
        let s1 = spec_add(spec_mul(y2, g), y1);
        let y0 = spec_add(spec_mul(y1, g), self.s2 as int);
        let s2 = spec_add(spec_mul(y1, g), y0);
        Filter {
            y0: y0 as i64,
            y1: y1 as i64,
            y2: y2 as i64,
            s1: s1 as i64,
            s2: s2 as i64,
            envelope: self.envelope.spec_process(),
            ..self
        }
    }

    /// The filter after `start_note`: its envelope starts.
    pub open spec fn spec_start_note(self) -> Filter {
        Filter { envelope: self.envelope.spec_start_note(), ..self }
    }

    /// The filter after `end_note`: its envelope releases.
    pub open spec fn spec_end_note(self) -> Filter {
        Filter { envelope: self.envelope.spec_end_note(), ..self }
    }

    /// The filter after `reset`: the taps and the integrators at zero, the
    /// envelope idle.
    pub open spec fn spec_reset(self) -> Filter {
        Filter { y0: 0, y1: 0, y2: 0, s1: 0, s2: 0, envelope: self.envelope.spec_reset(), ..self }
    }

    /// The filter after `set_sample_rate`: the filter, its coefficients and
    /// its envelope run at the new rate, raised to one hertz.
    pub open spec fn spec_set_sample_rate(self, rate: int) -> Filter {
        Filter {
            sample_rate: (if rate < ONE { ONE as int } else { rate }) as i64,
            filter_state: self.filter_state.spec_set_sample_rate(rate),
            envelope: self.envelope.spec_set_sample_rate(rate),
            ..self
        }
    }

    /// Whether the taps and the integrator states lie in `[-LIMIT, LIMIT]`,
    /// the range in which every operation saturates.
    pub open spec fn spec_within_limit(self) -> bool {
        &&& -LIMIT <= self.y0 <= LIMIT
        &&& -LIMIT <= self.y1 <= LIMIT
        &&& -LIMIT <= self.y2 <= LIMIT
        &&& -LIMIT <= self.s1 <= LIMIT
        &&& -LIMIT <= self.s2 <= LIMIT
    }

    /// The filter after it was fed the samples of `inputs`, in turn.
    pub open spec fn spec_run(self, inputs: Seq<int>) -> Filter
        decreases inputs.len(),
    {
        if inputs.len() == 0 {
            self
        } else {
            self.spec_run(inputs.drop_last()).spec_process(inputs.last())
        }
    }

    /// The bound of the highpass tap after a sample, with the input within
    /// `±x` and both integrators within `±s`:
    /// `x + s * r2 + s * g + s`, and the rounding of the two products.
    pub open spec fn spec_highpass_bound(self, x: int, s: int) -> int {
        x + spec_product_bound(s, self.filter_state.r2 as int) + spec_product_bound(
            s,
            self.filter_state.g as int,
        ) + s
    }

    /// The bound of the bandpass tap after a sample:
    /// `highpass * g + s`.
    pub open spec fn spec_bandpass_bound(self, x: int, s: int) -> int {
        spec_product_bound(self.spec_highpass_bound(x, s), self.filter_state.g as int) + s
    }

    /// The bound of the lowpass tap after a sample:
    /// `bandpass * g + s`.
    pub open spec fn spec_lowpass_bound(self, x: int, s: int) -> int {
        spec_product_bound(self.spec_bandpass_bound(x, s), self.filter_state.g as int) + s
    }

    /// Sets the cutoff, resonance and type from normalised parameters, and
    /// the envelope times in seconds.
    pub fn set_params(
        &mut self,
        cutoff: i64,
        res: i64,
        new_type: i64,
        attack: i64,
        decay: i64,
        sustain: i64,
        release: i64,
    )
        requires
            old(self).wf(),
        ensures
            *final(self) == old(self).spec_set_params(
                cutoff as int,
                res as int,
                new_type as int,
                attack as int,
                decay as int,
                sustain as int,
                release as int,
            ),
            final(self).wf(),
    {
        self.filter_state.set_params(cutoff_hz(cutoff), resonance(res));
        self.filter_type = filter_type(new_type);
        self.envelope.set_params(attack, decay, sustain, release);
    }

    /// Sets the sample rate in hertz, raised to one hertz.
    pub fn set_sample_rate(&mut self, rate: i64)
        requires
            old(self).wf(),
        ensures
            *final(self) == old(self).spec_set_sample_rate(rate as int),
            final(self).wf(),
    {
        self.sample_rate = if rate < ONE { ONE } else { rate };
        self.filter_state.set_sample_rate(rate);
        self.envelope.set_sample_rate(rate);
    }

    /// Filters one sample and returns the selected tap.
    pub fn process(&mut self, input: i64) -> (output: i64)
        requires
            old(self).wf(),
        ensures
            *final(self) == old(self).spec_process(input as int),
            output == final(self).spec_output(),
            final(self).wf(),
    {
        self.envelope.process();
        let g = self.filter_state.g;
        let drive = fx_sub(
            fx_sub(fx_sub(input, fx_mul(self.s1, self.filter_state.r2)), fx_mul(self.s1, g)),
            self.s2,
        );
        self.y2 = fx_mul(drive, self.filter_state.h);
        self.y1 = fx_add(fx_mul(self.y2, g), self.s1);
        self.s1 = fx_add(fx_mul(self.y2, g), self.y1);
        self.y0 = fx_add(fx_mul(self.y1, g), self.s2);
        self.s2 = fx_add(fx_mul(self.y1, g), self.y0);
        match self.filter_type {
            FilterType::Lowpass => self.y0,
            FilterType::Bandpass => self.y1,
            FilterType::Highpass => self.y2,
        }
    }

    /// Clears the memory of the filter and silences its envelope.
    pub fn reset(&mut self)
        requires
            old(self).wf(),
        ensures
            *final(self) == old(self).spec_reset(),
            final(self).wf(),
    {
        self.y0 = 0;
        self.y1 = 0;
        self.y2 = 0;
        self.s1 = 0;
        self.s2 = 0;
        self.envelope.reset();
    }

    /// Starts the cutoff envelope.
    pub fn start_note(&mut self)
        requires
            old(self).wf(),
        ensures
            *final(self) == old(self).spec_start_note(),
            final(self).wf(),
    {
        self.envelope.start_note();
    }

    /// Releases the cutoff envelope.
    pub fn end_note(&mut self)
        requires
            old(self).wf(),
        ensures
            *final(self) == old(self).spec_end_note(),
            final(self).wf(),
    {
        self.envelope.end_note();
    }
}

impl Default for Filter {
    fn default() -> (f: Filter)
        ensures
            f == Filter::spec_default(),
            f.wf(),
    {
        Filter {
            sample_rate: 44100 * ONE,
            y0: 0,
            y1: 0,
            y2: 0,
            s1: 0,
            s2: 0,
            filter_state: FilterState::default(),
            filter_type: FilterType::Lowpass,
            envelope: ADSR::default(),
        }
    }
}

/// Maps a normalised, already shaped cutoff parameter to hertz.
pub fn cutoff_hz(value: i64) -> (hz: i64)
    ensures
        hz == spec_cutoff_hz(value as int),
{
    fx_add(fx_mul(value, CUTOFF_SPAN), CUTOFF_FLOOR)
}

/// Maps a normalised resonance parameter to a resonance.
pub fn resonance(value: i64) -> (q: i64)
    ensures
        q == spec_resonance(value as int),
{
    fx_add(fx_mul(value, RESONANCE_SPAN), RESONANCE_FLOOR)
}

/// Maps a normalised type parameter to the tap it selects.
pub fn filter_type(value: i64) -> (t: FilterType)
    ensures
        t == spec_filter_type(value as int),
{
    if value < LOWPASS_BELOW {
        FilterType::Lowpass
    } else if value < BANDPASS_BELOW {
        FilterType::Bandpass
    } else {
        FilterType::Highpass
    }
}

/// The divisor of the normalisation is at least one.
pub proof fn lemma_norm_divisor(g: int, r2: int)
    requires
        0 <= g <= TAN_MAX,
        0 <= r2 <= 1024 * ONE,
    ensures
        ONE <= spec_add(spec_add(ONE as int, spec_mul(r2, g)), spec_mul(g, g)),
{
    let one = ONE as int;
    assert(0 <= r2 * g) by (nonlinear_arith)
        requires
            0 <= g,
            0 <= r2,
    ;
    assert(0 <= g * g) by (nonlinear_arith);
    vstd::arithmetic::div_mod::lemma_div_is_ordered(0, r2 * g, one);
    vstd::arithmetic::div_mod::lemma_div_is_ordered(0, g * g, one);
}

/// The damping lies in `[0, 1024]`.
pub proof fn lemma_damping_bounds(resonance: int)
    ensures
        0 <= spec_damping(resonance) <= 1024 * ONE,
{
    let one = ONE as int;
    let r = spec_clamp(resonance, MIN_RESONANCE as int, LIMIT as int);
    assert(one * one == 1024 * one * MIN_RESONANCE) by (nonlinear_arith)
        requires
            one == 0x1_0000_0000,
            MIN_RESONANCE == 0x40_0000,
    ;
    vstd::arithmetic::div_mod::lemma_div_is_ordered_by_denominator(one * one, MIN_RESONANCE as int, r);
    vstd::arithmetic::div_mod::lemma_div_by_multiple(1024 * one, MIN_RESONANCE as int);
    vstd::arithmetic::div_mod::lemma_div_pos_is_pos(one * one, r);
}

/// Whatever the cutoff, the resonance and the input signal, the taps and
/// the integrator states never leave `[-LIMIT, LIMIT]`: every operation of
/// the recurrence saturates there, so that a filter driven too hard clips
/// and does not wrap around.
pub proof fn lemma_filter_stays_within_limit(f: Filter, inputs: Seq<int>)
    requires
        inputs.len() > 0,
    ensures
        f.spec_run(inputs).spec_within_limit(),
        -LIMIT <= f.spec_run(inputs).spec_output() <= LIMIT,
{
    let before = f.spec_run(inputs.drop_last());
    assert(before.spec_process(inputs.last()).spec_within_limit());
}

/// A filter at rest that is fed silence stays at rest.
pub proof fn lemma_silence_stays_silent(f: Filter)
    requires
        f.y0 == 0,
        f.y1 == 0,
        f.y2 == 0,
        f.s1 == 0,
        f.s2 == 0,
    ensures
        f.spec_process(0).y0 == 0,
        f.spec_process(0).y1 == 0,
        f.spec_process(0).y2 == 0,
        f.spec_process(0).s1 == 0,
        f.spec_process(0).s2 == 0,
        f.spec_process(0).spec_output() == 0,
{
    let g = f.filter_state.g as int;
    let r2 = f.filter_state.r2 as int;
    let h = f.filter_state.h as int;
    assert(0 * r2 == 0 && 0 * g == 0 && 0 * h == 0) by (nonlinear_arith);
}

/// The gain is positive at every cutoff and sample rate.
pub proof fn lemma_gain_is_positive(freq: int, sample_rate: int)
    requires
        ONE <= sample_rate <= LIMIT,
    ensures
        3 <= spec_gain(freq, sample_rate) <= TAN_MAX,
{
    let one = ONE as int;
    let f = spec_clamp(freq, MIN_CUTOFF as int, LIMIT as int);
    assert(one * one <= f * one) by (nonlinear_arith)
        requires
            one <= f,
            one > 0,
    ;
    vstd::arithmetic::div_mod::lemma_div_is_ordered(one * one, f * one, sample_rate);
    vstd::arithmetic::div_mod::lemma_div_is_ordered_by_denominator(one * one, sample_rate, LIMIT as int);
    assert((one * one) / (LIMIT as int) == 2) by (nonlinear_arith)
        requires
            one == 0x1_0000_0000,
            LIMIT == 0x7fff_ffff_ffff_ffff,
    ;
    let x = spec_div(f, sample_rate);
    assert(x >= 2);
    let half = spec_clamp(x, 0, HALF as int) / 2;
    assert(1 <= half <= QUARTER);
    lemma_sine_is_positive(half);
    lemma_tan_pi_bounds(x);
}

/// The normalisation lies in `[0, 1]`.
pub proof fn lemma_norm_is_unit(g: int, r2: int)
    requires
        0 <= g <= TAN_MAX,
        0 <= r2 <= 1024 * ONE,
    ensures
        0 <= spec_norm(g, r2) <= ONE,
{
    let one = ONE as int;
    lemma_norm_divisor(g, r2);
    let d = spec_add(spec_add(one, spec_mul(r2, g)), spec_mul(g, g));
    assert(one * one == one * one);
    vstd::arithmetic::div_mod::lemma_div_is_ordered_by_denominator(one * one, one, d);
    vstd::arithmetic::div_mod::lemma_div_multiples_vanish(one, one);
    vstd::arithmetic::div_mod::lemma_div_pos_is_pos(one * one, d);
    assert(0 <= one * one) by (nonlinear_arith);
}

/// A product of a value within `±bound` and a factor that is not negative
/// is within `±spec_product_bound(bound, factor)`.
pub proof fn lemma_product_within(a: int, bound: int, factor: int)
    requires
        -bound <= a <= bound,
        0 <= factor,
    ensures
        -spec_product_bound(bound, factor) <= spec_mul(a, factor) <= spec_product_bound(bound, factor),
        0 <= spec_product_bound(bound, factor),
{
    let one = ONE as int;
    assert(-(bound * factor) <= a * factor <= bound * factor && 0 <= bound * factor) by (nonlinear_arith)
        requires
            -bound <= a <= bound,
            0 <= factor,
    ;
    vstd::arithmetic::div_mod::lemma_div_is_ordered(a * factor, bound * factor, one);
    vstd::arithmetic::div_mod::lemma_div_is_ordered(-(bound * factor), a * factor, one);
    vstd::arithmetic::div_mod::lemma_div_pos_is_pos(bound * factor, one);
    let p = bound * factor;
    vstd::arithmetic::div_mod::lemma_fundamental_div_mod(p, one);
    vstd::arithmetic::div_mod::lemma_fundamental_div_mod(-p, one);
    assert((-p) / one >= -(p / one) - 1) by (nonlinear_arith)
        requires
            p == one * (p / one) + p % one,
            -p == one * ((-p) / one) + (-p) % one,
            0 <= p % one < one,
            0 <= (-p) % one < one,
            one > 0,
    ;
}

/// One sample amplifies by no more than the coefficients allow. With the
/// input within `±x` and both integrators within `±s`, the highpass tap is
/// within `x + s (r2 + g + 1)`, the bandpass tap within that times `g` plus
/// `s`, the lowpass tap within that times `g` plus `s`, and each
/// integrator within the sum of its tap and the product that fed it.
pub proof fn lemma_one_sample_bound(f: Filter, input: int, x: int, s: int)
    requires
        f.filter_state.wf(),
        -x <= input <= x,
        -s <= f.s1 <= s,
        -s <= f.s2 <= s,
    ensures
        ({
            let next = f.spec_process(input);
            let high = f.spec_highpass_bound(x, s);
            let band = f.spec_bandpass_bound(x, s);
            let low = f.spec_lowpass_bound(x, s);
            &&& -high <= next.y2 <= high
            &&& -band <= next.y1 <= band
            &&& -low <= next.y0 <= low
            &&& -(band + band - s) <= next.s1 <= band + band - s
            &&& -(low + low - s) <= next.s2 <= low + low - s
        }),
{
    let g = f.filter_state.g as int;
    let r2 = f.filter_state.r2 as int;
    let h = f.filter_state.h as int;
    let high = f.spec_highpass_bound(x, s);
    lemma_product_within(f.s1 as int, s, r2);
    lemma_product_within(f.s1 as int, s, g);
    let drive = spec_sub(
        spec_sub(spec_sub(input, spec_mul(f.s1 as int, r2)), spec_mul(f.s1 as int, g)),
        f.s2 as int,
    );
    assert(-high <= drive <= high);
    // the normalisation is at most one
    let y2 = spec_mul(drive, h);
    assert(-high <= y2 <= high) by {
        assert(-(high * (ONE as int)) <= drive * h <= high * (ONE as int)) by (nonlinear_arith)
            requires
                -high <= drive <= high,
                0 <= h <= ONE,
        ;
        vstd::arithmetic::div_mod::lemma_div_is_ordered(drive * h, high * (ONE as int), ONE as int);
        vstd::arithmetic::div_mod::lemma_div_is_ordered(-(high * (ONE as int)), drive * h, ONE as int);
        vstd::arithmetic::div_mod::lemma_div_multiples_vanish(high, ONE as int);
        vstd::arithmetic::div_mod::lemma_div_multiples_vanish(-high, ONE as int);
        assert(high * (ONE as int) == (ONE as int) * high) by (nonlinear_arith);
        assert(-(high * (ONE as int)) == (ONE as int) * (-high)) by (nonlinear_arith);
    }
    lemma_product_within(y2, high, g);
    let y1 = spec_add(spec_mul(y2, g), f.s1 as int);
    let band = f.spec_bandpass_bound(x, s);
    assert(-band <= y1 <= band);
    lemma_product_within(y1, band, g);
}

/// The answer to an impulse. A filter at rest that is fed `input` puts
/// `input * h` on the highpass tap, that times `g` on the bandpass tap and
/// that times `g` again on the lowpass tap.
pub proof fn lemma_first_sample_from_rest(f: Filter, input: int)
    requires
        f.s1 == 0,
        f.s2 == 0,
        -LIMIT <= input <= LIMIT,
    ensures
        ({
            let next = f.spec_process(input);
            let g = f.filter_state.g as int;
            &&& next.y2 == spec_mul(input, f.filter_state.h as int)
            &&& next.y1 == spec_mul(next.y2 as int, g)
            &&& next.y0 == spec_mul(next.y1 as int, g)
        }),
{
    let g = f.filter_state.g as int;
    let r2 = f.filter_state.r2 as int;
    assert(0 * r2 == 0 && 0 * g == 0) by (nonlinear_arith);
}

} // verus!
