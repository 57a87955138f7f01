//! The parameter snapshot of the engine and the mappings from normalised
//! parameter values in `[0, 1]` to engineering units.

use vstd::prelude::*;
use crate::filter::{FilterType, spec_cutoff_hz, spec_resonance, spec_filter_type, cutoff_hz, resonance, filter_type};
use crate::fixed::{ONE, spec_mul, spec_add, spec_sub, spec_clamp, fx_mul, fx_add, fx_sub, clamp, floor_div};
use crate::math::HALF;
use crate::oscillator::{OscillatorType, spec_octave, octave};

verus! {

/// The number of parameters.
pub const PARAMETER_COUNT: usize = 27;

pub const OSC_ONE_TYPE: usize = 0;
pub const OSC_ONE_PULSEWIDTH: usize = 1;
pub const OSC_ONE_OCTAVE: usize = 2;
pub const OSC_ONE_SEMITONE: usize = 3;
pub const OSC_ONE_FINE: usize = 4;
pub const OSC_ONE_VOLUME: usize = 5;
pub const OSC_TWO_TYPE: usize = 6;
pub const OSC_TWO_PULSEWIDTH: usize = 7;
pub const OSC_TWO_OCTAVE: usize = 8;
pub const OSC_TWO_SEMITONE: usize = 9;
pub const OSC_TWO_FINE: usize = 10;
pub const OSC_TWO_VOLUME: usize = 11;
pub const ATTACK: usize = 12;
pub const DECAY: usize = 13;
pub const SUSTAIN: usize = 14;
pub const RELEASE: usize = 15;
pub const FILTER_TYPE: usize = 16;
pub const FILTER_CUTOFF: usize = 17;
pub const FILTER_RESONANCE: usize = 18;
pub const FILTER_ATTACK: usize = 19;
pub const FILTER_DECAY: usize = 20;
pub const FILTER_SUSTAIN: usize = 21;
pub const FILTER_RELEASE: usize = 22;
pub const PITCH_LFO_DEPTH: usize = 23;
pub const PITCH_LFO_RATE: usize = 24;
pub const NUM_VOICES: usize = 25;
pub const PORTAMENTO: usize = 26;

/// A snapshot of the normalised parameter values, by parameter index.
#[derive(Debug)]
pub struct SynthParameters {
    pub values: Vec<i64>,
}

/// What a parameter shows of its value.
#[derive(Clone, Copy, PartialEq, Eq, Debug)]
pub enum ParameterText {
    /// A word.
    Word(&'static str),
    /// A fixed-point number, shown with two decimals.
    Hundredths(i64),
    /// A fixed-point number, shown in full.
    Exact(i64),
    /// A whole number, shown with a plus sign in front where `plus` holds.
    Signed { plus: bool, value: i64 },
    /// A whole number.
    Whole(i64),
}

/// The time in seconds of an envelope segment: `value^2 * 10`.
pub open spec fn spec_envelope_time(value: int) -> int {
    spec_mul(spec_mul(value, value), 10 * ONE)
}

/// The shaped cutoff parameter: `value^3`.
pub open spec fn spec_cutoff_shape(value: int) -> int {
    spec_mul(spec_mul(value, value), value)
}

/// The detune in semitones: `value * 48 - 24`, rounded down, in
/// `[-24, 24]`.
pub open spec fn spec_semitones(value: int) -> int {
    spec_clamp(spec_mul(value, 48 * ONE) / (ONE as int) - 24, -24, 24)
}

/// The detune in cents: `value * 200 - 100`.
pub open spec fn spec_fine(value: int) -> int {
    spec_sub(spec_mul(value, 200 * ONE), 100 * ONE)
}

/// The depth of the pitch LFO as a share of the frequency: `value^2`.
pub open spec fn spec_lfo_depth(value: int) -> int {
    spec_mul(value, value)
}

/// The rate of the pitch LFO in hertz: `value * 19.9 + 0.1`.
pub open spec fn spec_lfo_rate(value: int) -> int {
    spec_add(spec_mul(value, 85469849190), 429496730)
}

/// The number of voices: `round(value * 7) + 1`, in `[1, 8]`.
pub open spec fn spec_voice_count(value: int) -> int {
    spec_clamp(spec_add(spec_mul(value, 7 * ONE), HALF as int) / (ONE as int) + 1, 1, 8)
}

/// The glide time in seconds: `value^4 * 9.999 + 0.001`.
pub open spec fn spec_portamento(value: int) -> int {
    let square = spec_mul(value, value);
    spec_add(spec_mul(spec_mul(square, square), 42945377993), 4294967)
}

/// The waveform that a type parameter selects: saw below 0.25, pulse below
/// 0.5, triangle below 0.75, sine from there on.
pub open spec fn spec_oscillator_type(value: int) -> OscillatorType {
    if value < 1073741824 {
        OscillatorType::Saw
    } else if value < 2147483648 {
        OscillatorType::Pulse
    } else if value < 3221225472 {
        OscillatorType::Triangle
    } else {
        OscillatorType::Sin
    }
}

/// The parameter values of a fresh engine.
pub open spec fn spec_default_values() -> Seq<i64> {
    seq![
        0i64, 2147483648, 2147483648, 2147483648, 2147483648, 214748365,
        0, 2147483648, 2147483648, 2147483648, 2147483648, 214748365,
        0, 0, 4294967296, 0,
        0, 4294967296, 300647711, 0, 0, 4294967296, 0,
        0, 1073741824, 4294967296, 0,
    ]
}

/// The name of the parameter `index`; empty where there is no such
/// parameter.
pub open spec fn spec_parameter_name(index: int) -> Seq<char> {
    if index == 0 {
        "Osc 1 Type"@
    } else if index == 1 {
        "Osc 1 Pulsewidth"@
    } else if index == 2 {
        "Osc 1 Octave"@
    } else if index == 3 {
        "Osc 1 Semitone"@
    } else if index == 4 {
        "Osc 1 Fine"@
    } else if index == 5 {
        "Osc 1 Volume"@
    } else if index == 6 {
        "Osc 2 Type"@
    } else if index == 7 {
        "Osc 2 Pulsewidth"@
    } else if index == 8 {
        "Osc 2 Octave"@
    } else if index == 9 {
        "Osc 2 Semitone"@
    } else if index == 10 {
        "Osc 2 Fine"@
    } else if index == 11 {
        "Osc 2 Volume"@
    } else if index == 12 {
        "Envelope Attack"@
    } else if index == 13 {
        "Envelope Decay"@
    } else if index == 14 {
        "Envelope Sustain"@
    } else if index == 15 {
        "Envelope Release"@
    } else if index == 16 {
        "Filter Type"@
    } else if index == 17 {
        "Filter Cutoff"@
    } else if index == 18 {
        "Filter Resonance"@
    } else if index == 19 {
        "Filter Attack"@
    } else if index == 20 {
        "Filter Decay"@
    } else if index == 21 {
        "Filter Sustain"@
    } else if index == 22 {
        "Filter Release"@
    } else if index == 23 {
        "Pitch LFO Depth"@
    } else if index == 24 {
        "Pitch LFO Rate"@
    } else if index == 25 {
        "Voices"@
    } else if index == 26 {
        "Portamento Time"@
    } else {
        ""@
    }
}

/// The unit of the parameter `index`: cents, seconds, hertz or percent;
/// empty where the parameter has none.
pub open spec fn spec_parameter_label(index: int) -> Seq<char> {
    if index == 4 || index == 10 {
        "ct"@
    } else if index == 12 || index == 13 || index == 15 || index == 19 || index == 20 || index == 22 || index == 26 {
        "s"@
    } else if index == 17 || index == 24 {
        "Hz"@
    } else if index == 23 {
        "%"@
    } else {
        ""@
    }
}

/// The name of a waveform.
pub open spec fn spec_waveform_name(t: OscillatorType) -> Seq<char> {
    match t {
        OscillatorType::Saw => "Saw"@,
        OscillatorType::Pulse => "Pulse"@,
        OscillatorType::Triangle => "Tri"@,
        OscillatorType::Sin => "Sine"@,
    }
}

/// The name of an octave factor: the octaves it shifts by.
pub open spec fn spec_octave_name(factor: int) -> Seq<char> {
    if factor < ONE / 2 {
        "-2"@
    } else if factor < ONE {
        "-1"@
    } else if factor < 2 * ONE {
        "0"@
    } else if factor < 3 * ONE {
        "+1"@
    } else {
        "+2"@
    }
}

/// The name of a filter tap.
pub open spec fn spec_filter_name(t: FilterType) -> Seq<char> {
    match t {
        FilterType::Lowpass => "Lowpass"@,
        FilterType::Bandpass => "Bandpass"@,
        FilterType::Highpass => "Highpass"@,
    }
}

/// A fixed-point value rounded towards zero to a whole number.
pub open spec fn spec_truncate(v: int) -> int {
    if v >= 0 {
        v / (ONE as int)
    } else {
        -((-v) / (ONE as int))
    }
}

/// Whether `text` is what the parameter `index` shows at the normalised
/// value `value`: the waveforms, octaves and filter taps their names, the
/// detunes whole numbers with a plus sign above the middle, the number of
/// voices a whole number, the second volume its value in full, and every
/// other parameter its mapped value with two decimals. Where there is no
/// such parameter, an empty word.
pub open spec fn spec_shows(index: int, value: int, text: ParameterText) -> bool {
    if index == OSC_ONE_TYPE || index == OSC_TWO_TYPE {
        text matches ParameterText::Word(w) && w@ == spec_waveform_name(spec_oscillator_type(value))
    } else if index == OSC_ONE_OCTAVE || index == OSC_TWO_OCTAVE {
        text matches ParameterText::Word(w) && w@ == spec_octave_name(spec_octave(value))
    } else if index == FILTER_TYPE {
        text matches ParameterText::Word(w) && w@ == spec_filter_name(spec_filter_type(value))
    } else if index == OSC_ONE_SEMITONE || index == OSC_TWO_SEMITONE {
        text == (ParameterText::Signed { plus: value > HALF, value: spec_semitones(value) as i64 })
    } else if index == OSC_ONE_FINE || index == OSC_TWO_FINE {
        text == (ParameterText::Signed { plus: value > HALF, value: spec_truncate(spec_fine(value)) as i64 })
    } else if index == OSC_TWO_VOLUME {
        text == ParameterText::Exact(value as i64)
    } else if index == ATTACK || index == DECAY || index == RELEASE || index == FILTER_ATTACK || index
        == FILTER_DECAY || index == FILTER_RELEASE {
        text == ParameterText::Hundredths(spec_envelope_time(value) as i64)
    } else if index == FILTER_CUTOFF {
        text == ParameterText::Hundredths(spec_cutoff_hz(spec_cutoff_shape(value)) as i64)
    } else if index == FILTER_RESONANCE {
        text == ParameterText::Hundredths(spec_resonance(value) as i64)
    } else if index == PITCH_LFO_DEPTH {
        text == ParameterText::Hundredths(spec_mul(spec_lfo_depth(value), 100 * ONE) as i64)
    } else if index == PITCH_LFO_RATE {
        text == ParameterText::Hundredths(spec_lfo_rate(value) as i64)
    } else if index == NUM_VOICES {
        text == ParameterText::Whole(spec_voice_count(value) as i64)
    } else if index == PORTAMENTO {
        text == ParameterText::Hundredths(spec_portamento(value) as i64)
    } else if 0 <= index < PARAMETER_COUNT {
        text == ParameterText::Hundredths(value as i64)
    } else {
        text matches ParameterText::Word(w) && w@ == ""@
    }
}

impl SynthParameters {
    /// The invariant of a snapshot: one value in `[0, 1]` per parameter.
    pub open spec fn wf(self) -> bool {
        &&& self.values@.len() == PARAMETER_COUNT
        &&& forall|i: int| 0 <= i < PARAMETER_COUNT ==> 0 <= #[trigger] self.values@[i] <= ONE
    }

    /// The value of the parameter `index`; zero where there is no such
    /// parameter.
    pub open spec fn spec_get(self, index: int) -> int {
        if 0 <= index < PARAMETER_COUNT {
            self.values@[index] as int
        } else {
            0
        }
    }

    /// Reads the parameter `index`. An unknown index reads as zero.
    pub fn get_parameter(&self, index: i32) -> (value: i64)
        requires
            self.wf(),
        ensures
            value == self.spec_get(index as int),
            0 <= value <= ONE,
    {
        if 0 <= index && index < PARAMETER_COUNT as i32 {
            self.values[index as usize]
        } else {
            0
        }
    }

    /// Writes the parameter `index`, clamping the value into `[0, 1]`. An
    /// unknown index is ignored.
    pub fn set_parameter(&mut self, index: i32, value: i64)
        requires
            old(self).wf(),
        ensures
            final(self).wf(),
            0 <= index < PARAMETER_COUNT ==> final(self).values@ == old(self).values@.update(
                index as int,
                spec_clamp(value as int, 0, ONE as int) as i64,
            ),
            !(0 <= index < PARAMETER_COUNT) ==> final(self).values@ == old(self).values@,
    {
        if 0 <= index && index < PARAMETER_COUNT as i32 {
            self.values[index as usize] = clamp(value, 0, ONE);
        }
    }

    /// Reads the parameter at one of the index constants of this module.
    pub(crate) fn value(&self, index: usize) -> (value: i64)
        requires
            self.wf(),
            index < PARAMETER_COUNT,
        ensures
            value == self.values@[index as int],
            0 <= value <= ONE,
    {
        self.values[index]
    }

    /// The name of the parameter `index`, for display.
    pub fn get_parameter_name(&self, index: i32) -> (name: &'static str)
        ensures
            name@ == spec_parameter_name(index as int),
    {
        match index {
            0 => "Osc 1 Type",
            1 => "Osc 1 Pulsewidth",
            2 => "Osc 1 Octave",
            3 => "Osc 1 Semitone",
            4 => "Osc 1 Fine",
            5 => "Osc 1 Volume",
            6 => "Osc 2 Type",
            7 => "Osc 2 Pulsewidth",
            8 => "Osc 2 Octave",
            9 => "Osc 2 Semitone",
            10 => "Osc 2 Fine",
            11 => "Osc 2 Volume",
            12 => "Envelope Attack",
            13 => "Envelope Decay",
            14 => "Envelope Sustain",
            15 => "Envelope Release",
            16 => "Filter Type",
            17 => "Filter Cutoff",
            18 => "Filter Resonance",
            19 => "Filter Attack",
            20 => "Filter Decay",
            21 => "Filter Sustain",
            22 => "Filter Release",
            23 => "Pitch LFO Depth",
            24 => "Pitch LFO Rate",
            25 => "Voices",
            26 => "Portamento Time",
            _ => "",
        }
    }

    /// The unit of the parameter `index`, for display.
    pub fn get_parameter_label(&self, index: i32) -> (label: &'static str)
        ensures
            label@ == spec_parameter_label(index as int),
    {
        match index {
            4 | 10 => "ct",
            12 | 13 | 15 | 19 | 20 | 22 | 26 => "s",
            17 | 24 => "Hz",
            23 => "%",
            _ => "",
        }
    }

    /// What the parameter `index` shows of its current value.
    pub fn get_parameter_text(&self, index: i32) -> (text: ParameterText)
        requires
            self.wf(),
        ensures
            spec_shows(index as int, self.spec_get(index as int), text),
    {
        let value = self.get_parameter(index);
        match index {
            0 | 6 => ParameterText::Word(
                match oscillator_type(value) {
                    OscillatorType::Saw => "Saw",
                    OscillatorType::Pulse => "Pulse",
                    OscillatorType::Triangle => "Tri",
                    OscillatorType::Sin => "Sine",
                },
            ),
            2 | 8 => {
                let factor = octave(value);
                ParameterText::Word(
                    if factor < ONE / 2 {
                        "-2"
                    } else if factor < ONE {
                        "-1"
                    } else if factor < 2 * ONE {
                        "0"
                    } else if factor < 3 * ONE {
                        "+1"
                    } else {
                        "+2"
                    },
                )
            },
            16 => ParameterText::Word(
                match filter_type(value) {
                    FilterType::Lowpass => "Lowpass",
                    FilterType::Bandpass => "Bandpass",
                    FilterType::Highpass => "Highpass",
                },
            ),
            3 | 9 => ParameterText::Signed { plus: value > HALF, value: semitones(value) as i64 },
            4 | 10 => ParameterText::Signed { plus: value > HALF, value: truncate(fine(value)) },
            11 => ParameterText::Exact(value),
            12 | 13 | 15 | 19 | 20 | 22 => ParameterText::Hundredths(envelope_time(value)),
            17 => ParameterText::Hundredths(cutoff_hz(cutoff_shape(value))),
            18 => ParameterText::Hundredths(resonance(value)),
            23 => ParameterText::Hundredths(fx_mul(lfo_depth(value), 100 * ONE)),
            24 => ParameterText::Hundredths(lfo_rate(value)),
            25 => ParameterText::Whole(voice_count(value) as i64),
            26 => ParameterText::Hundredths(portamento(value)),
            1 | 5 | 7 | 14 | 21 => ParameterText::Hundredths(value),
            _ => ParameterText::Word(""),
        }
    }
}

impl Default for SynthParameters {
    fn default() -> (p: SynthParameters)
        ensures
            p.values@ == spec_default_values(),
            p.wf(),
    {
        let mut values: Vec<i64> = Vec::new();
        values.push(0);
        values.push(HALF);
        values.push(HALF);
        values.push(HALF);
        values.push(HALF);
        values.push(214748365);
        values.push(0);
        values.push(HALF);
        values.push(HALF);
        values.push(HALF);
        values.push(HALF);
        values.push(214748365);
        values.push(0);
        values.push(0);
        values.push(ONE);
        values.push(0);
        values.push(0);
        values.push(ONE);
        values.push(300647711);
        values.push(0);
        values.push(0);
        values.push(ONE);
        values.push(0);
        values.push(0);
        values.push(1073741824);
        values.push(ONE);
        values.push(0);
        assert(values@ =~= spec_default_values());
        SynthParameters { values }
    }
}

/// Maps a normalised value to an envelope time in seconds.
pub fn envelope_time(value: i64) -> (seconds: i64)
    ensures
        seconds == spec_envelope_time(value as int),
{
    fx_mul(fx_mul(value, value), 10 * ONE)
}

/// Shapes a normalised cutoff value.
pub fn cutoff_shape(value: i64) -> (shaped: i64)
    ensures
        shaped == spec_cutoff_shape(value as int),
{
    fx_mul(fx_mul(value, value), value)
}

/// Maps a normalised value to a detune in semitones.
pub fn semitones(value: i64) -> (n: i8)
    ensures
        n == spec_semitones(value as int),
{
    let whole: i128 = floor_div(fx_mul(value, 48 * ONE) as i128, ONE as i128) - 24;
    if whole < -24 {
        -24
    } else if whole > 24 {
        24
    } else {
        whole as i8
    }
}

/// Maps a normalised value to a detune in cents.
pub fn fine(value: i64) -> (cents: i64)
    ensures
        cents == spec_fine(value as int),
{
    fx_sub(fx_mul(value, 200 * ONE), 100 * ONE)
}

/// Maps a normalised value to the depth of the pitch LFO.
pub fn lfo_depth(value: i64) -> (depth: i64)
    ensures
        depth == spec_lfo_depth(value as int),
{
    fx_mul(value, value)
}

/// Maps a normalised value to the rate of the pitch LFO in hertz.
pub fn lfo_rate(value: i64) -> (hz: i64)
    ensures
        hz == spec_lfo_rate(value as int),
{
    fx_add(fx_mul(value, 85469849190), 429496730)
}

/// Maps a normalised value to a number of voices.
pub fn voice_count(value: i64) -> (n: usize)
    ensures
        n == spec_voice_count(value as int),
        1 <= n <= 8,
{
    let whole: i128 = floor_div(fx_add(fx_mul(value, 7 * ONE), HALF) as i128, ONE as i128) + 1;
    if whole < 1 {
        1
    } else if whole > 8 {
        8
    } else {
        whole as usize
    }
}

/// Maps a normalised value to a glide time in seconds.
pub fn portamento(value: i64) -> (seconds: i64)
    ensures
        seconds == spec_portamento(value as int),
{
    let square = fx_mul(value, value);
    fx_add(fx_mul(fx_mul(square, square), 42945377993), 4294967)
}

/// Maps a normalised value to a waveform.
pub fn oscillator_type(value: i64) -> (t: OscillatorType)
    ensures
        t == spec_oscillator_type(value as int),
{
    if value < 1073741824 {
        OscillatorType::Saw
    } else if value < 2147483648 {
        OscillatorType::Pulse
    } else if value < 3221225472 {
        OscillatorType::Triangle
    } else {
        OscillatorType::Sin
    }
}

/// Rounds a fixed-point value towards zero to a whole number.
pub fn truncate(v: i64) -> (whole: i64)
    ensures
        whole == spec_truncate(v as int),
{
    if v >= 0 {
        v / ONE
    } else if v == i64::MIN {
        -0x8000_0000
    } else {
        -((-v) / ONE)
    }
}

} // verus!
