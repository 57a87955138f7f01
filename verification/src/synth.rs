//! The voice allocator: a fixed pool of voices, each with two oscillators
//! and a filter, that notes are routed to in turn, and the per-sample
//! render loop that mixes them.

use vstd::prelude::*;
use crate::filter::Filter;
use crate::fixed::{ONE, spec_mul, spec_add, spec_clamp, fx_mul, fx_add};
use crate::oscillator::{Oscillator, LFO, spec_mtof, spec_velocity};
use crate::params::{
    SynthParameters, spec_oscillator_type, spec_portamento, spec_semitones, spec_fine,
    spec_envelope_time, spec_cutoff_shape, spec_lfo_depth, spec_lfo_rate, spec_voice_count,
    oscillator_type, portamento, semitones, fine, envelope_time, cutoff_shape, lfo_depth, lfo_rate,
    voice_count, OSC_ONE_TYPE, OSC_ONE_PULSEWIDTH, OSC_ONE_OCTAVE, OSC_ONE_SEMITONE, OSC_ONE_FINE,
    OSC_ONE_VOLUME, OSC_TWO_TYPE, OSC_TWO_PULSEWIDTH, OSC_TWO_OCTAVE, OSC_TWO_SEMITONE,
    OSC_TWO_FINE, OSC_TWO_VOLUME, ATTACK, DECAY, SUSTAIN, RELEASE, FILTER_TYPE, FILTER_CUTOFF,
    FILTER_RESONANCE, FILTER_ATTACK, FILTER_DECAY, FILTER_SUSTAIN, FILTER_RELEASE,
    PITCH_LFO_DEPTH, PITCH_LFO_RATE, NUM_VOICES, PORTAMENTO,
};

verus! {

/// The number of voices in the pool.
pub const VOICES: usize = 8;

/// The engine: the voice pool, the pitch LFO, the cursor of the next voice
/// and the stack of held notes.
#[derive(Debug)]
pub struct Synth {
    pub oscillators_one: Vec<Oscillator>,
    pub oscillators_two: Vec<Oscillator>,
    pub pitch_lfo: LFO,
    pub last_played_osc_index: usize,
    pub current_num_voices: usize,
    pub monophonic: bool,
    pub filters: Vec<Filter>,
    pub active_notes: Vec<u8>,
    pub active_velocities: Vec<u8>,
    pub sample_rate: i64,
}

/// The mathematical model of the engine.
pub struct SynthView {
    pub oscillators_one: Seq<Oscillator>,
    pub oscillators_two: Seq<Oscillator>,
    pub pitch_lfo: LFO,
    pub last_played_osc_index: int,
    pub current_num_voices: int,
    pub monophonic: bool,
    pub filters: Seq<Filter>,
    pub active_notes: Seq<u8>,
    pub active_velocities: Seq<u8>,
    pub sample_rate: int,
}

/// The first oscillator of a voice with the parameters of a snapshot.
#[verifier::opaque]
pub open spec fn spec_tuned_one(o: Oscillator, p: SynthParameters) -> Oscillator {
    let tuned = o.spec_set_params(
        spec_oscillator_type(p.values@[OSC_ONE_TYPE as int] as int),
        p.values@[OSC_ONE_PULSEWIDTH as int] as int,
        p.values@[OSC_ONE_OCTAVE as int] as int,
        spec_portamento(p.values@[PORTAMENTO as int] as int),
        spec_semitones(p.values@[OSC_ONE_SEMITONE as int] as int),
        spec_fine(p.values@[OSC_ONE_FINE as int] as int),
    );
    Oscillator {
        envelope: tuned.envelope.spec_set_params(
            spec_envelope_time(p.values@[ATTACK as int] as int),
            spec_envelope_time(p.values@[DECAY as int] as int),
            p.values@[SUSTAIN as int] as int,
            spec_envelope_time(p.values@[RELEASE as int] as int),
        ),
        ..tuned
    }
}

/// The second oscillator of a voice with the parameters of a snapshot.
#[verifier::opaque]
pub open spec fn spec_tuned_two(o: Oscillator, p: SynthParameters) -> Oscillator {
    let tuned = o.spec_set_params(
        spec_oscillator_type(p.values@[OSC_TWO_TYPE as int] as int),
        p.values@[OSC_TWO_PULSEWIDTH as int] as int,
        p.values@[OSC_TWO_OCTAVE as int] as int,
        spec_portamento(p.values@[PORTAMENTO as int] as int),
        spec_semitones(p.values@[OSC_TWO_SEMITONE as int] as int),
        spec_fine(p.values@[OSC_TWO_FINE as int] as int),
    );
    Oscillator {
        envelope: tuned.envelope.spec_set_params(
            spec_envelope_time(p.values@[ATTACK as int] as int),
            spec_envelope_time(p.values@[DECAY as int] as int),
            p.values@[SUSTAIN as int] as int,
            spec_envelope_time(p.values@[RELEASE as int] as int),
        ),
        ..tuned
    }
}

/// The filter of a voice with the parameters of a snapshot.
#[verifier::opaque]
pub open spec fn spec_tuned_filter(f: Filter, p: SynthParameters) -> Filter {
    f.spec_set_params(
        spec_cutoff_shape(p.values@[FILTER_CUTOFF as int] as int),
        p.values@[FILTER_RESONANCE as int] as int,
        p.values@[FILTER_TYPE as int] as int,
        spec_envelope_time(p.values@[FILTER_ATTACK as int] as int),
        spec_envelope_time(p.values@[FILTER_DECAY as int] as int),
        p.values@[FILTER_SUSTAIN as int] as int,
        spec_envelope_time(p.values@[FILTER_RELEASE as int] as int),
    )
}

impl View for Synth {
    type V = SynthView;

    open spec fn view(&self) -> SynthView {
        SynthView {
            oscillators_one: self.oscillators_one@,
            oscillators_two: self.oscillators_two@,
            pitch_lfo: self.pitch_lfo,
            last_played_osc_index: self.last_played_osc_index as int,
            current_num_voices: self.current_num_voices as int,
            monophonic: self.monophonic,
            filters: self.filters@,
            active_notes: self.active_notes@,
            active_velocities: self.active_velocities@,
            sample_rate: self.sample_rate as int,
        }
    }
}

impl SynthView {
    /// The invariant of the engine: the pool holds `VOICES` well-formed
    /// voices, the cursor points into the pool, between one and `VOICES`
    /// voices are in use, the engine is monophonic exactly when one voice
    /// is in use and then the cursor rests on it, the stack of held notes
    /// holds no note twice, with one velocity per note, and every
    /// oscillator, every filter and the pitch LFO run at the sample rate of
    /// the engine.
    pub open spec fn wf(self) -> bool {
        &&& self.oscillators_one.len() == VOICES
        &&& self.oscillators_two.len() == VOICES
        &&& self.filters.len() == VOICES
        &&& forall|i: int| 0 <= i < VOICES ==> (#[trigger] self.oscillators_one[i]).wf()
        &&& forall|i: int| 0 <= i < VOICES ==> (#[trigger] self.oscillators_two[i]).wf()
        &&& forall|i: int| 0 <= i < VOICES ==> (#[trigger] self.filters[i]).wf()
        &&& self.pitch_lfo.wf()
        &&& 0 <= self.last_played_osc_index < VOICES
        &&& 1 <= self.current_num_voices <= VOICES
        &&& self.monophonic == (self.current_num_voices == 1)
        &&& self.current_num_voices == 1 ==> self.last_played_osc_index == 0
        &&& self.active_notes.len() == self.active_velocities.len()
        &&& self.active_notes.no_duplicates()
        &&& self.sample_rate >= ONE
        &&& self.pitch_lfo.sample_rate == self.sample_rate
        &&& forall|i: int| 0 <= i < VOICES ==> (#[trigger] self.oscillators_one[i]).sample_rate == self.sample_rate
        &&& forall|i: int| 0 <= i < VOICES ==> (#[trigger] self.oscillators_two[i]).sample_rate == self.sample_rate
        &&& forall|i: int| 0 <= i < VOICES ==> (#[trigger] self.filters[i]).sample_rate == self.sample_rate
    }

    /// The engine before its first block: eight voices in use, the cursor
    /// on the first, no note held, at 44100 Hz.
    pub open spec fn spec_new() -> SynthView {
        SynthView {
            oscillators_one: Seq::new(VOICES as nat, |i: int| Oscillator::spec_default()),
            oscillators_two: Seq::new(VOICES as nat, |i: int| Oscillator::spec_default()),
            pitch_lfo: LFO::spec_default(),
            last_played_osc_index: 0,
            current_num_voices: VOICES as int,
            monophonic: false,
            filters: Seq::new(VOICES as nat, |i: int| Filter::spec_default()),
            active_notes: Seq::empty(),
            active_velocities: Seq::empty(),
            sample_rate: 44100 * ONE,
        }
    }

    /// The engine after `note_on`: the voice under the cursor starts the
    /// note, the cursor moves on by one modulo the voices in use, and the
    /// note is pushed on the stack of held notes unless it is there.
    pub open spec fn spec_note_on(self, note: u8, vel: u8) -> SynthView {
        let i = self.last_played_osc_index;
        let held = self.active_notes.contains(note);
        SynthView {
            oscillators_one: self.oscillators_one.update(
                i,
                self.oscillators_one[i].spec_note_on(note, vel, self.monophonic),
            ),
            oscillators_two: self.oscillators_two.update(
                i,
                self.oscillators_two[i].spec_note_on(note, vel, self.monophonic),
            ),
            filters: self.filters.update(i, self.filters[i].spec_start_note()),
            last_played_osc_index: (i + 1) % self.current_num_voices,
            active_notes: if held { self.active_notes } else { self.active_notes.push(note) },
            active_velocities: if held { self.active_velocities } else { self.active_velocities.push(vel) },
            ..self
        }
    }

    /// The engine with every voice that holds `note` released and the note
    /// taken off the stack of held notes.
    pub open spec fn spec_release(self, note: u8) -> SynthView {
        let held = self.active_notes.contains(note);
        let at = self.active_notes.index_of(note);
        SynthView {
            oscillators_one: Seq::new(
                VOICES as nat,
                |i: int|
                    if self.oscillators_one[i].note == note {
                        self.oscillators_one[i].spec_note_off()
                    } else {
                        self.oscillators_one[i]
                    },
            ),
            oscillators_two: Seq::new(
                VOICES as nat,
                |i: int|
                    if self.oscillators_two[i].note == note {
                        self.oscillators_two[i].spec_note_off()
                    } else {
                        self.oscillators_two[i]
                    },
            ),
            filters: Seq::new(
                VOICES as nat,
                |i: int|
                    if self.oscillators_one[i].note == note {
                        self.filters[i].spec_end_note()
                    } else {
                        self.filters[i]
                    },
            ),
            active_notes: if held { self.active_notes.remove(at) } else { self.active_notes },
            active_velocities: if held { self.active_velocities.remove(at) } else { self.active_velocities },
            ..self
        }
    }

    /// The engine after `note_off`: the note is released, and a monophonic
    /// engine that still holds notes starts the one held last again.
    pub open spec fn spec_note_off(self, note: u8) -> SynthView {
        let released = self.spec_release(note);
        if released.monophonic && released.active_notes.len() > 0 {
            released.spec_note_on(released.active_notes.last(), released.active_velocities.last())
        } else {
            released
        }
    }

    /// The engine after a change of the number of voices in use, which is
    /// clamped into `[1, VOICES]`: when the number falls, the voices from
    /// the new number on are released, and the cursor returns to the first
    /// voice if only that one stays in use.
    pub open spec fn spec_set_voice_count(self, count: int) -> SynthView {
        let voices = spec_clamp(count, 1, VOICES as int);
        let falls = self.current_num_voices > voices;
        SynthView {
            oscillators_one: Seq::new(
                VOICES as nat,
                |i: int|
                    if falls && i >= voices {
                        self.oscillators_one[i].spec_note_off()
                    } else {
                        self.oscillators_one[i]
                    },
            ),
            oscillators_two: Seq::new(
                VOICES as nat,
                |i: int|
                    if falls && i >= voices {
                        self.oscillators_two[i].spec_note_off()
                    } else {
                        self.oscillators_two[i]
                    },
            ),
            filters: Seq::new(
                VOICES as nat,
                |i: int| if falls && i >= voices { self.filters[i].spec_end_note() } else { self.filters[i] },
            ),
            last_played_osc_index: if falls && voices == 1 { 0 } else { self.last_played_osc_index },
            current_num_voices: voices,
            monophonic: voices == 1,
            ..self
        }
    }

    /// The engine after `reset`: every oscillator, filter and the pitch LFO
    /// reset, no note held, the cursor on the first voice.
    pub open spec fn spec_reset(self) -> SynthView {
        SynthView {
            oscillators_one: Seq::new(VOICES as nat, |i: int| self.oscillators_one[i].spec_reset()),
            oscillators_two: Seq::new(VOICES as nat, |i: int| self.oscillators_two[i].spec_reset()),
            filters: Seq::new(VOICES as nat, |i: int| self.filters[i].spec_reset()),
            pitch_lfo: self.pitch_lfo.spec_reset(),
            last_played_osc_index: 0,
            active_notes: Seq::empty(),
            active_velocities: Seq::empty(),
            ..self
        }
    }

    /// The engine after `set_sample_rate`: every oscillator, every filter
    /// and the pitch LFO run at the new rate, raised to one hertz.
    pub open spec fn spec_set_sample_rate(self, rate: int) -> SynthView {
        SynthView {
            oscillators_one: Seq::new(
                VOICES as nat,
                |i: int| self.oscillators_one[i].spec_set_sample_rate(rate),
            ),
            oscillators_two: Seq::new(
                VOICES as nat,
                |i: int| self.oscillators_two[i].spec_set_sample_rate(rate),
            ),
            filters: Seq::new(VOICES as nat, |i: int| self.filters[i].spec_set_sample_rate(rate)),
            pitch_lfo: self.pitch_lfo.spec_set_sample_rate(rate),
            sample_rate: if rate < ONE { ONE as int } else { rate },
            ..self
        }
    }

    /// The engine with the parameters of a snapshot applied to every voice
    /// and to the pitch LFO.
    pub open spec fn spec_apply_parameters(self, p: SynthParameters) -> SynthView {
        SynthView {
            oscillators_one: Seq::new(VOICES as nat, |i: int| spec_tuned_one(self.oscillators_one[i], p)),
            oscillators_two: Seq::new(VOICES as nat, |i: int| spec_tuned_two(self.oscillators_two[i], p)),
            filters: Seq::new(VOICES as nat, |i: int| spec_tuned_filter(self.filters[i], p)),
            pitch_lfo: self.pitch_lfo.spec_set_params(
                spec_lfo_depth(p.values@[PITCH_LFO_DEPTH as int] as int),
                spec_lfo_rate(p.values@[PITCH_LFO_RATE as int] as int),
            ),
            ..self
        }
    }

    /// What the oscillators of voice `i` feed its filter, under the pitch
    /// modulation `amt`: `one * vol_one + two * vol_two`.
    pub open spec fn spec_voice_input(self, amt: int, vol_one: int, vol_two: int, i: int) -> int {
        spec_add(
            spec_mul(self.oscillators_one[i].spec_sample(amt), vol_one),
            spec_mul(self.oscillators_two[i].spec_sample(amt), vol_two),
        )
    }

    /// What the filter of voice `i` puts out for this sample.
    pub open spec fn spec_voice_output(self, amt: int, vol_one: int, vol_two: int, i: int) -> int {
        self.filters[i].spec_process(self.spec_voice_input(amt, vol_one, vol_two, i)).spec_output()
    }

    /// The saturated sum of what the first `n` voices put out.
    pub open spec fn spec_mix(self, amt: int, vol_one: int, vol_two: int, n: int) -> int
        decreases n,
    {
        if n <= 0 {
            0
        } else {
            spec_add(
                self.spec_mix(amt, vol_one, vol_two, n - 1),
                self.spec_voice_output(amt, vol_one, vol_two, n - 1),
            )
        }
    }

    /// The sample that the engine renders next: the mix of all voices under
    /// the modulation that the pitch LFO gives for this sample.
    pub open spec fn spec_frame_sample(self, vol_one: int, vol_two: int) -> int {
        self.spec_mix(self.pitch_lfo.spec_sample(), vol_one, vol_two, VOICES as int)
    }

    /// The engine one sample later.
    pub open spec fn spec_render_frame(self, vol_one: int, vol_two: int) -> SynthView {
        let amt = self.pitch_lfo.spec_sample();
        SynthView {
            pitch_lfo: self.pitch_lfo.spec_process(),
            oscillators_one: Seq::new(VOICES as nat, |i: int| self.oscillators_one[i].spec_process(amt)),
            oscillators_two: Seq::new(VOICES as nat, |i: int| self.oscillators_two[i].spec_process(amt)),
            filters: Seq::new(
                VOICES as nat,
                |i: int| self.filters[i].spec_process(self.spec_voice_input(amt, vol_one, vol_two, i)),
            ),
            ..self
        }
    }

    /// The engine `frames` samples later.
    pub open spec fn spec_render(self, vol_one: int, vol_two: int, frames: nat) -> SynthView
        decreases frames,
    {
        if frames == 0 {
            self
        } else {
            self.spec_render(vol_one, vol_two, (frames - 1) as nat).spec_render_frame(vol_one, vol_two)
        }
    }

    /// The engine as `process` prepares it for a block: the number of
    /// voices and the parameters of the snapshot are in force.
    pub open spec fn spec_prepare(self, p: SynthParameters) -> SynthView {
        self.spec_set_voice_count(spec_voice_count(p.values@[NUM_VOICES as int] as int))
            .spec_apply_parameters(p)
    }

    /// The engine after the notes of `notes`, each a note number with its
    /// velocity, were started in turn.
    pub open spec fn spec_play(self, notes: Seq<(u8, u8)>) -> SynthView
        decreases notes.len(),
    {
        if notes.len() == 0 {
            self
        } else {
            self.spec_play(notes.drop_last()).spec_note_on(notes.last().0, notes.last().1)
        }
    }
}

impl Synth {
    /// Creates the engine.
    pub fn new() -> (s: Synth)
        ensures
            s@ == SynthView::spec_new(),
            s@.wf(),
    {
        let mut oscillators_one: Vec<Oscillator> = Vec::new();
        let mut oscillators_two: Vec<Oscillator> = Vec::new();
        let mut filters: Vec<Filter> = Vec::new();
        let mut i: usize = 0;
        while i < VOICES
            invariant
                i <= VOICES,
                oscillators_one@.len() == i,
                oscillators_two@.len() == i,
                filters@.len() == i,
                forall|j: int| 0 <= j < i ==> oscillators_one@[j] == Oscillator::spec_default(),
                forall|j: int| 0 <= j < i ==> oscillators_two@[j] == Oscillator::spec_default(),
                forall|j: int| 0 <= j < i ==> filters@[j] == Filter::spec_default(),
                forall|j: int| 0 <= j < i ==> (#[trigger] oscillators_one@[j]).wf(),
                forall|j: int| 0 <= j < i ==> (#[trigger] oscillators_two@[j]).wf(),
                forall|j: int| 0 <= j < i ==> (#[trigger] filters@[j]).wf(),
            decreases VOICES - i,
        {
            oscillators_one.push(Oscillator::default());
            oscillators_two.push(Oscillator::default());
            filters.push(Filter::default());
            i = i + 1;
        }
        let s = Synth {
            oscillators_one,
            oscillators_two,
            pitch_lfo: LFO::default(),
            last_played_osc_index: 0,
            current_num_voices: VOICES,
            monophonic: false,
            filters,
            active_notes: Vec::with_capacity(256),
            active_velocities: Vec::with_capacity(256),
            sample_rate: 44100 * ONE,
        };
        assert(s@.oscillators_one =~= SynthView::spec_new().oscillators_one);
        assert(s@.oscillators_two =~= SynthView::spec_new().oscillators_two);
        assert(s@.filters =~= SynthView::spec_new().filters);
        assert(s@.active_notes =~= SynthView::spec_new().active_notes);
        assert(s@.active_velocities =~= SynthView::spec_new().active_velocities);
        s
    }

    /// Routes a note to the voice under the cursor.
    pub fn note_on(&mut self, note: u8, vel: u8)
        requires
            old(self)@.wf(),
        ensures
            final(self)@ == old(self)@.spec_note_on(note, vel),
            final(self)@.wf(),
    {
        let i = self.last_played_osc_index;
        self.oscillators_one[i].note_on(note, vel, self.monophonic);
        self.oscillators_two[i].note_on(note, vel, self.monophonic);
        self.filters[i].start_note();
        self.last_played_osc_index = (i + 1) % self.current_num_voices;
        if !holds(&self.active_notes, note) {
            self.active_notes.push(note);
            self.active_velocities.push(vel);
        }
        proof {
            let pre = old(self)@;
            let post = pre.spec_note_on(note, vel);
            assert(self@.oscillators_one =~= post.oscillators_one);
            assert(self@.oscillators_two =~= post.oscillators_two);
            assert(self@.filters =~= post.filters);
            assert(self@.active_notes =~= post.active_notes);
            assert(self@.active_velocities =~= post.active_velocities);
        }
    }

    /// Releases every voice that holds `note` and takes the note off the
    /// stack of held notes.
    fn release(&mut self, note: u8)
        requires
            old(self)@.wf(),
        ensures
            final(self)@ == old(self)@.spec_release(note),
            final(self)@.wf(),
    {
        let mut i: usize = 0;
        while i < VOICES
            invariant
                i <= VOICES,
                old(self)@.wf(),
                self.oscillators_one@.len() == VOICES,
                self.oscillators_two@.len() == VOICES,
                self.filters@.len() == VOICES,
                forall|j: int| 0 <= j < i ==> #[trigger] self.oscillators_one@[j] == old(self)@.spec_release(note).oscillators_one[j],
                forall|j: int| 0 <= j < i ==> #[trigger] self.oscillators_two@[j] == old(self)@.spec_release(note).oscillators_two[j],
                forall|j: int| 0 <= j < i ==> #[trigger] self.filters@[j] == old(self)@.spec_release(note).filters[j],
                forall|j: int| i <= j < VOICES ==> #[trigger] self.oscillators_one@[j] == old(self)@.oscillators_one[j],
                forall|j: int| i <= j < VOICES ==> #[trigger] self.oscillators_two@[j] == old(self)@.oscillators_two[j],
                forall|j: int| i <= j < VOICES ==> #[trigger] self.filters@[j] == old(self)@.filters[j],
                forall|j: int| 0 <= j < VOICES ==> (#[trigger] self.oscillators_one@[j]).wf(),
                forall|j: int| 0 <= j < VOICES ==> (#[trigger] self.oscillators_two@[j]).wf(),
                forall|j: int| 0 <= j < VOICES ==> (#[trigger] self.filters@[j]).wf(),
                self.pitch_lfo == old(self).pitch_lfo,
                self.last_played_osc_index == old(self).last_played_osc_index,
                self.current_num_voices == old(self).current_num_voices,
                self.monophonic == old(self).monophonic,
                self.active_notes@ == old(self).active_notes@,
                self.active_velocities@ == old(self).active_velocities@,
                self.sample_rate == old(self).sample_rate,
            decreases VOICES - i,
        {
            if self.oscillators_one[i].get_current_note() == note {
                self.oscillators_one[i].note_off();
                self.filters[i].end_note();
            }
            if self.oscillators_two[i].get_current_note() == note {
                self.oscillators_two[i].note_off();
            }
            i = i + 1;
        }
        match position(&self.active_notes, note) {
            Some(at) => {
                proof {
                    let chosen = old(self)@.active_notes.index_of(note);
                    assert(old(self)@.active_notes[chosen] == note);
                    assert(chosen == at);
                    old(self)@.active_notes.remove_ensures(at as int);
                }
                self.active_notes.remove(at);
                self.active_velocities.remove(at);
                proof {
                    lemma_remove_keeps_distinct(old(self)@.active_notes, at as int);
                }
            },
            None => {},
        }
        proof {
            let post = old(self)@.spec_release(note);
            assert(self@.oscillators_one =~= post.oscillators_one);
            assert(self@.oscillators_two =~= post.oscillators_two);
            assert(self@.filters =~= post.filters);
            assert(self@.active_notes =~= post.active_notes);
            assert(self@.active_velocities =~= post.active_velocities);
        }
    }

    /// Releases a note. A monophonic engine that still holds notes starts
    /// the one held last again, gliding to it.
    pub fn note_off(&mut self, note: u8)
        requires
            old(self)@.wf(),
        ensures
            final(self)@ == old(self)@.spec_note_off(note),
            final(self)@.wf(),
    {
        self.release(note);
        let held = self.active_notes.len();
        if self.monophonic && held > 0 {
            let last_note = self.active_notes[held - 1];
            let last_velocity = self.active_velocities[held - 1];
            self.note_on(last_note, last_velocity);
        }
    }

    /// Handles a MIDI message: status 128 releases the note `data[1]`,
    /// status 144 starts it with the velocity `data[2]`; any other status
    /// is ignored.
    pub fn process_midi_event(&mut self, data: [u8; 3])
        requires
            old(self)@.wf(),
        ensures
            data[0] == 128 ==> final(self)@ == old(self)@.spec_note_off(data[1]),
            data[0] == 144 ==> final(self)@ == old(self)@.spec_note_on(data[1], data[2]),
            data[0] != 128 && data[0] != 144 ==> final(self)@ == old(self)@,
            final(self)@.wf(),
    {
        if data[0] == 128 {
            self.note_off(data[1]);
        } else if data[0] == 144 {
            self.note_on(data[1], data[2]);
        }
    }

    /// Sets the number of voices in use.
    pub fn set_voice_count(&mut self, count: usize)
        requires
            old(self)@.wf(),
        ensures
            final(self)@ == old(self)@.spec_set_voice_count(count as int),
            final(self)@.wf(),
    {
        let voices: usize = if count < 1 {
            1
        } else if count > VOICES {
            VOICES
        } else {
            count
        };
        if self.current_num_voices > voices {
            let mut i: usize = voices;
            while i < VOICES
                invariant
                    voices <= i <= VOICES,
                    voices == spec_clamp(count as int, 1, VOICES as int),
                    old(self)@.wf(),
                    old(self).current_num_voices > voices,
                    self.oscillators_one@.len() == VOICES,
                    self.oscillators_two@.len() == VOICES,
                    self.filters@.len() == VOICES,
                    forall|j: int| 0 <= j < i ==> #[trigger] self.oscillators_one@[j] == old(self)@.spec_set_voice_count(count as int).oscillators_one[j],
                    forall|j: int| 0 <= j < i ==> #[trigger] self.oscillators_two@[j] == old(self)@.spec_set_voice_count(count as int).oscillators_two[j],
                    forall|j: int| 0 <= j < i ==> #[trigger] self.filters@[j] == old(self)@.spec_set_voice_count(count as int).filters[j],
                    forall|j: int| i <= j < VOICES ==> #[trigger] self.oscillators_one@[j] == old(self)@.oscillators_one[j],
                    forall|j: int| i <= j < VOICES ==> #[trigger] self.oscillators_two@[j] == old(self)@.oscillators_two[j],
                    forall|j: int| i <= j < VOICES ==> #[trigger] self.filters@[j] == old(self)@.filters[j],
                    forall|j: int| 0 <= j < VOICES ==> (#[trigger] self.oscillators_one@[j]).wf(),
                    forall|j: int| 0 <= j < VOICES ==> (#[trigger] self.oscillators_two@[j]).wf(),
                    forall|j: int| 0 <= j < VOICES ==> (#[trigger] self.filters@[j]).wf(),
                    self.pitch_lfo == old(self).pitch_lfo,
                    self.last_played_osc_index == old(self).last_played_osc_index,
                    self.current_num_voices == old(self).current_num_voices,
                    self.monophonic == old(self).monophonic,
                    self.active_notes@ == old(self).active_notes@,
                    self.active_velocities@ == old(self).active_velocities@,
                    self.sample_rate == old(self).sample_rate,
                decreases VOICES - i,
            {
                self.oscillators_one[i].note_off();
                self.oscillators_two[i].note_off();
                self.filters[i].end_note();
                i = i + 1;
            }
            if voices == 1 {
                self.last_played_osc_index = 0;
            }
        }
        self.current_num_voices = voices;
        self.monophonic = self.current_num_voices == 1;
        proof {
            let post = old(self)@.spec_set_voice_count(count as int);
            assert(self@.oscillators_one =~= post.oscillators_one);
            assert(self@.oscillators_two =~= post.oscillators_two);
            assert(self@.filters =~= post.filters);
        }
    }

    /// Forces every envelope to idle, every filter and every phase to
    /// zero, and forgets the held notes.
    pub fn reset(&mut self)
        requires
            old(self)@.wf(),
        ensures
            final(self)@ == old(self)@.spec_reset(),
            final(self)@.wf(),
    {
        let mut i: usize = 0;
        while i < VOICES
            invariant
                i <= VOICES,
                old(self)@.wf(),
                self.oscillators_one@.len() == VOICES,
                self.oscillators_two@.len() == VOICES,
                self.filters@.len() == VOICES,
                forall|j: int| 0 <= j < i ==> #[trigger] self.oscillators_one@[j] == old(self)@.oscillators_one[j].spec_reset(),
                forall|j: int| 0 <= j < i ==> #[trigger] self.oscillators_two@[j] == old(self)@.oscillators_two[j].spec_reset(),
                forall|j: int| 0 <= j < i ==> #[trigger] self.filters@[j] == old(self)@.filters[j].spec_reset(),
                forall|j: int| i <= j < VOICES ==> #[trigger] self.oscillators_one@[j] == old(self)@.oscillators_one[j],
                forall|j: int| i <= j < VOICES ==> #[trigger] self.oscillators_two@[j] == old(self)@.oscillators_two[j],
                forall|j: int| i <= j < VOICES ==> #[trigger] self.filters@[j] == old(self)@.filters[j],
                forall|j: int| 0 <= j < VOICES ==> (#[trigger] self.oscillators_one@[j]).wf(),
                forall|j: int| 0 <= j < VOICES ==> (#[trigger] self.oscillators_two@[j]).wf(),
                forall|j: int| 0 <= j < VOICES ==> (#[trigger] self.filters@[j]).wf(),
                self.pitch_lfo == old(self).pitch_lfo,
                self.last_played_osc_index == old(self).last_played_osc_index,
                self.current_num_voices == old(self).current_num_voices,
                self.monophonic == old(self).monophonic,
                self.active_notes@ == old(self).active_notes@,
                self.active_velocities@ == old(self).active_velocities@,
                self.sample_rate == old(self).sample_rate,
            decreases VOICES - i,
        {
            self.oscillators_one[i].reset();
            self.oscillators_two[i].reset();
            self.filters[i].reset();
            i = i + 1;
        }
        self.pitch_lfo.reset();
        self.last_played_osc_index = 0;
        self.active_notes.clear();
        self.active_velocities.clear();
        proof {
            let post = old(self)@.spec_reset();
            assert(self@.oscillators_one =~= post.oscillators_one);
            assert(self@.oscillators_two =~= post.oscillators_two);
            assert(self@.filters =~= post.filters);
            assert(self@.active_notes =~= post.active_notes);
            assert(self@.active_velocities =~= post.active_velocities);
        }
    }

    /// Sets the sample rate in hertz of every oscillator, every filter and
    /// the pitch LFO.
    pub fn set_sample_rate(&mut self, rate: i64)
        requires
            old(self)@.wf(),
        ensures
            final(self)@ == old(self)@.spec_set_sample_rate(rate as int),
            final(self)@.wf(),
    {
        self.sample_rate = if rate < ONE { ONE } else { rate };
        let mut i: usize = 0;
        while i < VOICES
            invariant
                i <= VOICES,
                old(self)@.wf(),
                self.oscillators_one@.len() == VOICES,
                self.oscillators_two@.len() == VOICES,
                self.filters@.len() == VOICES,
                forall|j: int| 0 <= j < i ==> #[trigger] self.oscillators_one@[j] == old(self)@.oscillators_one[j].spec_set_sample_rate(rate as int),
                forall|j: int| 0 <= j < i ==> #[trigger] self.oscillators_two@[j] == old(self)@.oscillators_two[j].spec_set_sample_rate(rate as int),
                forall|j: int| 0 <= j < i ==> #[trigger] self.filters@[j] == old(self)@.filters[j].spec_set_sample_rate(rate as int),
                forall|j: int| i <= j < VOICES ==> #[trigger] self.oscillators_one@[j] == old(self)@.oscillators_one[j],
                forall|j: int| i <= j < VOICES ==> #[trigger] self.oscillators_two@[j] == old(self)@.oscillators_two[j],
                forall|j: int| i <= j < VOICES ==> #[trigger] self.filters@[j] == old(self)@.filters[j],
                forall|j: int| 0 <= j < VOICES ==> (#[trigger] self.oscillators_one@[j]).wf(),
                forall|j: int| 0 <= j < VOICES ==> (#[trigger] self.oscillators_two@[j]).wf(),
                forall|j: int| 0 <= j < VOICES ==> (#[trigger] self.filters@[j]).wf(),
                self.pitch_lfo == old(self).pitch_lfo,
                self.last_played_osc_index == old(self).last_played_osc_index,
                self.current_num_voices == old(self).current_num_voices,
                self.monophonic == old(self).monophonic,
                self.active_notes@ == old(self).active_notes@,
                self.active_velocities@ == old(self).active_velocities@,
                self.sample_rate == (if rate < ONE { ONE } else { rate }),
            decreases VOICES - i,
        {
            self.oscillators_one[i].set_sample_rate(rate);
            self.oscillators_two[i].set_sample_rate(rate);
            self.filters[i].set_sample_rate(rate);
            i = i + 1;
        }
        self.pitch_lfo.set_sample_rate(rate);
        proof {
            let post = old(self)@.spec_set_sample_rate(rate as int);
            assert(self@.oscillators_one =~= post.oscillators_one);
            assert(self@.oscillators_two =~= post.oscillators_two);
            assert(self@.filters =~= post.filters);
        }
    }

    /// Applies the parameters of a snapshot to every voice and to the pitch
    /// LFO.
    pub fn apply_parameters(&mut self, params: &SynthParameters)
        requires
            old(self)@.wf(),
            params.wf(),
        ensures
            final(self)@ == old(self)@.spec_apply_parameters(*params),
            final(self)@.wf(),
    {
        let mut i: usize = 0;
        while i < VOICES
            invariant
                i <= VOICES,
                old(self)@.wf(),
                params.wf(),
                self.oscillators_one@.len() == VOICES,
                self.oscillators_two@.len() == VOICES,
                self.filters@.len() == VOICES,
                forall|j: int| 0 <= j < i ==> #[trigger] self.oscillators_one@[j] == spec_tuned_one(old(self)@.oscillators_one[j], *params),
                forall|j: int| 0 <= j < i ==> #[trigger] self.oscillators_two@[j] == spec_tuned_two(old(self)@.oscillators_two[j], *params),
                forall|j: int| 0 <= j < i ==> #[trigger] self.filters@[j] == spec_tuned_filter(old(self)@.filters[j], *params),
                forall|j: int| i <= j < VOICES ==> #[trigger] self.oscillators_one@[j] == old(self)@.oscillators_one[j],
                forall|j: int| i <= j < VOICES ==> #[trigger] self.oscillators_two@[j] == old(self)@.oscillators_two[j],
                forall|j: int| i <= j < VOICES ==> #[trigger] self.filters@[j] == old(self)@.filters[j],
                forall|j: int| 0 <= j < VOICES ==> (#[trigger] self.oscillators_one@[j]).wf(),
                forall|j: int| 0 <= j < VOICES ==> (#[trigger] self.oscillators_two@[j]).wf(),
                forall|j: int| 0 <= j < VOICES ==> (#[trigger] self.filters@[j]).wf(),
                forall|j: int| 0 <= j < VOICES ==> (#[trigger] self.oscillators_one@[j]).sample_rate == self.sample_rate,
                forall|j: int| 0 <= j < VOICES ==> (#[trigger] self.oscillators_two@[j]).sample_rate == self.sample_rate,
                forall|j: int| 0 <= j < VOICES ==> (#[trigger] self.filters@[j]).sample_rate == self.sample_rate,
                self.pitch_lfo == old(self).pitch_lfo,
                self.last_played_osc_index == old(self).last_played_osc_index,
                self.current_num_voices == old(self).current_num_voices,
                self.monophonic == old(self).monophonic,
                self.active_notes@ == old(self).active_notes@,
                self.active_velocities@ == old(self).active_velocities@,
                self.sample_rate == old(self).sample_rate,
            decreases VOICES - i,
        {
            tune_one(&mut self.oscillators_one[i], params);
            tune_two(&mut self.oscillators_two[i], params);
            tune_filter(&mut self.filters[i], params);
            i = i + 1;
        }
        self.pitch_lfo.set_params(
            lfo_depth(params.value(PITCH_LFO_DEPTH)),
            lfo_rate(params.value(PITCH_LFO_RATE)),
        );
        proof {
            let post = old(self)@.spec_apply_parameters(*params);
            assert(self@.oscillators_one =~= post.oscillators_one);
            assert(self@.oscillators_two =~= post.oscillators_two);
            assert(self@.filters =~= post.filters);
        }
    }

    /// Renders one sample: the pitch LFO advances, every voice renders its
    /// two oscillators through its filter, and the voices are summed.
    pub fn render_frame(&mut self, vol_one: i64, vol_two: i64) -> (sample: i64)
        requires
            old(self)@.wf(),
        ensures
            final(self)@ == old(self)@.spec_render_frame(vol_one as int, vol_two as int),
            sample == old(self)@.spec_frame_sample(vol_one as int, vol_two as int),
            final(self)@.wf(),
    {
        let amt = self.pitch_lfo.process();
        let mut sample: i64 = 0;
        let mut i: usize = 0;
        while i < VOICES
            invariant
                i <= VOICES,
                old(self)@.wf(),
                amt == old(self)@.pitch_lfo.spec_sample(),
                sample == old(self)@.spec_mix(amt as int, vol_one as int, vol_two as int, i as int),
                self.oscillators_one@.len() == VOICES,
                self.oscillators_two@.len() == VOICES,
                self.filters@.len() == VOICES,
                forall|j: int| 0 <= j < i ==> #[trigger] self.oscillators_one@[j] == old(self)@.oscillators_one[j].spec_process(amt as int),
                forall|j: int| 0 <= j < i ==> #[trigger] self.oscillators_two@[j] == old(self)@.oscillators_two[j].spec_process(amt as int),
                forall|j: int| 0 <= j < i ==> #[trigger] self.filters@[j] == old(self)@.filters[j].spec_process(
                    old(self)@.spec_voice_input(amt as int, vol_one as int, vol_two as int, j),
                ),
                forall|j: int| i <= j < VOICES ==> #[trigger] self.oscillators_one@[j] == old(self)@.oscillators_one[j],
                forall|j: int| i <= j < VOICES ==> #[trigger] self.oscillators_two@[j] == old(self)@.oscillators_two[j],
                forall|j: int| i <= j < VOICES ==> #[trigger] self.filters@[j] == old(self)@.filters[j],
                forall|j: int| 0 <= j < VOICES ==> (#[trigger] self.oscillators_one@[j]).wf(),
                forall|j: int| 0 <= j < VOICES ==> (#[trigger] self.oscillators_two@[j]).wf(),
                forall|j: int| 0 <= j < VOICES ==> (#[trigger] self.filters@[j]).wf(),
                self.pitch_lfo == old(self).pitch_lfo.spec_process(),
                self.pitch_lfo.wf(),
                self.last_played_osc_index == old(self).last_played_osc_index,
                self.current_num_voices == old(self).current_num_voices,
                self.monophonic == old(self).monophonic,
                self.active_notes@ == old(self).active_notes@,
                self.active_velocities@ == old(self).active_velocities@,
                self.sample_rate == old(self).sample_rate,
            decreases VOICES - i,
        {
            let one = self.oscillators_one[i].process_with_pitch_mod(amt);
            let two = self.oscillators_two[i].process_with_pitch_mod(amt);
            let input = fx_add(fx_mul(one, vol_one), fx_mul(two, vol_two));
            let voice = self.filters[i].process(input);
            sample = fx_add(sample, voice);
            i = i + 1;
        }
        proof {
            let post = old(self)@.spec_render_frame(vol_one as int, vol_two as int);
            assert(self@.oscillators_one =~= post.oscillators_one);
            assert(self@.oscillators_two =~= post.oscillators_two);
            assert(self@.filters =~= post.filters);
        }
        sample
    }

    /// Renders a block under the parameters of a snapshot, which are read
    /// once, before the first sample: fills `out` with one sample per
    /// element.
    pub fn process(&mut self, params: &SynthParameters, out: &mut [i64])
        requires
            old(self)@.wf(),
            params.wf(),
        ensures
            final(self)@ == old(self)@.spec_prepare(*params).spec_render(
                params.values@[OSC_ONE_VOLUME as int] as int,
                params.values@[OSC_TWO_VOLUME as int] as int,
                old(out)@.len(),
            ),
            final(out)@.len() == old(out)@.len(),
            forall|k: int| 0 <= k < old(out)@.len() ==> #[trigger] final(out)@[k] == old(self)@.spec_prepare(
                *params,
            ).spec_render(
                params.values@[OSC_ONE_VOLUME as int] as int,
                params.values@[OSC_TWO_VOLUME as int] as int,
                k as nat,
            ).spec_frame_sample(
                params.values@[OSC_ONE_VOLUME as int] as int,
                params.values@[OSC_TWO_VOLUME as int] as int,
            ),
            final(self)@.wf(),
    {
        self.set_voice_count(voice_count(params.value(NUM_VOICES)));
        self.apply_parameters(params);
        let vol_one = params.value(OSC_ONE_VOLUME);
        let vol_two = params.value(OSC_TWO_VOLUME);
        let ghost prepared = self@;
        let frames = out.len();
        let mut frame: usize = 0;
        while frame < frames
            invariant
                frame <= frames,
                frames == out@.len(),
                out@.len() == old(out)@.len(),
                prepared == old(self)@.spec_prepare(*params),
                self@.wf(),
                self@ == prepared.spec_render(vol_one as int, vol_two as int, frame as nat),
                forall|k: int| 0 <= k < frame ==> #[trigger] out@[k] == prepared.spec_render(
                    vol_one as int,
                    vol_two as int,
                    k as nat,
                ).spec_frame_sample(vol_one as int, vol_two as int),
            decreases frames - frame,
        {
            let sample = self.render_frame(vol_one, vol_two);
            out[frame] = sample;
            frame = frame + 1;
        }
    }
}

/// Whether `notes` holds `note`.
pub fn holds(notes: &Vec<u8>, note: u8) -> (found: bool)
    ensures
        found == notes@.contains(note),
{
    let mut i: usize = 0;
    while i < notes.len()
        invariant
            i <= notes.len(),
            forall|j: int| 0 <= j < i ==> notes@[j] != note,
        decreases notes.len() - i,
    {
        if notes[i] == note {
            return true;
        }
        i = i + 1;
    }
    false
}

/// The position of `note` in `notes`, if it is there.
pub fn position(notes: &Vec<u8>, note: u8) -> (at: Option<usize>)
    ensures
        at is Some <==> notes@.contains(note),
        at matches Some(i) ==> i < notes@.len() && notes@[i as int] == note && forall|j: int|
            0 <= j < i ==> notes@[j] != note,
{
    let mut i: usize = 0;
    while i < notes.len()
        invariant
            i <= notes.len(),
            forall|j: int| 0 <= j < i ==> notes@[j] != note,
        decreases notes.len() - i,
    {
        if notes[i] == note {
            return Some(i);
        }
        i = i + 1;
    }
    None
}

/// Applies the parameters of a snapshot to the first oscillator of a voice.
fn tune_one(o: &mut Oscillator, params: &SynthParameters)
    requires
        old(o).wf(),
        params.wf(),
    ensures
        *final(o) == spec_tuned_one(*old(o), *params),
        final(o).wf(),
        final(o).sample_rate == old(o).sample_rate,
{
    reveal(spec_tuned_one);
    o.set_params(
        oscillator_type(params.value(OSC_ONE_TYPE)),
        params.value(OSC_ONE_PULSEWIDTH),
        params.value(OSC_ONE_OCTAVE),
        portamento(params.value(PORTAMENTO)),
        semitones(params.value(OSC_ONE_SEMITONE)),
        fine(params.value(OSC_ONE_FINE)),
    );
    o.envelope.set_params(
        envelope_time(params.value(ATTACK)),
        envelope_time(params.value(DECAY)),
        params.value(SUSTAIN),
        envelope_time(params.value(RELEASE)),
    );
}

/// Applies the parameters of a snapshot to the second oscillator of a voice.
fn tune_two(o: &mut Oscillator, params: &SynthParameters)
    requires
        old(o).wf(),
        params.wf(),
    ensures
        *final(o) == spec_tuned_two(*old(o), *params),
        final(o).wf(),
        final(o).sample_rate == old(o).sample_rate,
{
    reveal(spec_tuned_two);
    o.set_params(
        oscillator_type(params.value(OSC_TWO_TYPE)),
        params.value(OSC_TWO_PULSEWIDTH),
        params.value(OSC_TWO_OCTAVE),
        portamento(params.value(PORTAMENTO)),
        semitones(params.value(OSC_TWO_SEMITONE)),
        fine(params.value(OSC_TWO_FINE)),
    );
    o.envelope.set_params(
        envelope_time(params.value(ATTACK)),
        envelope_time(params.value(DECAY)),
        params.value(SUSTAIN),
        envelope_time(params.value(RELEASE)),
    );
}

/// Applies the parameters of a snapshot to the filter of a voice.
fn tune_filter(f: &mut Filter, params: &SynthParameters)
    requires
        old(f).wf(),
        params.wf(),
    ensures
        *final(f) == spec_tuned_filter(*old(f), *params),
        final(f).wf(),
        final(f).sample_rate == old(f).sample_rate,
{
    reveal(spec_tuned_filter);
    f.set_params(
        cutoff_shape(params.value(FILTER_CUTOFF)),
        params.value(FILTER_RESONANCE),
        params.value(FILTER_TYPE),
        envelope_time(params.value(FILTER_ATTACK)),
        envelope_time(params.value(FILTER_DECAY)),
        params.value(FILTER_SUSTAIN),
        envelope_time(params.value(FILTER_RELEASE)),
    );
}

/// Taking one element out of a sequence without duplicates leaves none.
pub proof fn lemma_remove_keeps_distinct(s: Seq<u8>, at: int)
    requires
        s.no_duplicates(),
        0 <= at < s.len(),
    ensures
        s.remove(at).no_duplicates(),
{
    let r = s.remove(at);
    assert forall|i: int, j: int| 0 <= i < r.len() && 0 <= j < r.len() && i != j implies r[i] != r[j] by {
        let si = if i < at { i } else { i + 1 };
        let sj = if j < at { j } else { j + 1 };
        assert(r[i] == s[si]);
        assert(r[j] == s[sj]);
    }
}

/// Starting a note keeps the invariant of the engine.
pub proof fn lemma_note_on_keeps_wf(s: SynthView, note: u8, vel: u8)
    requires
        s.wf(),
    ensures
        s.spec_note_on(note, vel).wf(),
        s.spec_note_on(note, vel).current_num_voices == s.current_num_voices,
        s.spec_note_on(note, vel).monophonic == s.monophonic,
{
    let i = s.last_played_osc_index;
    let t = s.spec_note_on(note, vel);
    crate::oscillator::lemma_velocity_unit(vel as int);
    crate::oscillator::lemma_mtof_is_positive(note as int);
    assert(s.oscillators_one[i].wf());
    assert(s.oscillators_two[i].wf());
    assert(s.filters[i].wf());
    assert forall|j: int| 0 <= j < VOICES implies (#[trigger] t.oscillators_one[j]).wf() by {
        assert(s.oscillators_one[j].wf());
    }
    assert forall|j: int| 0 <= j < VOICES implies (#[trigger] t.oscillators_two[j]).wf() by {
        assert(s.oscillators_two[j].wf());
    }
    assert forall|j: int| 0 <= j < VOICES implies (#[trigger] t.filters[j]).wf() by {
        assert(s.filters[j].wf());
    }
}

/// Two numbers less than `v` apart leave different remainders modulo `v`.
pub proof fn lemma_remainders_differ(a: int, b: int, v: int)
    requires
        v > 0,
        0 < b - a < v,
    ensures
        a % v != b % v,
{
    vstd::arithmetic::div_mod::lemma_fundamental_div_mod(a, v);
    vstd::arithmetic::div_mod::lemma_fundamental_div_mod(b, v);
    if a % v == b % v {
        let qa = a / v;
        let qb = b / v;
        assert(b - a == v * (qb - qa)) by (nonlinear_arith)
            requires
                a == v * qa + a % v,
                b == v * qb + b % v,
                a % v == b % v,
        ;
        assert(false) by (nonlinear_arith)
            requires
                b - a == v * (qb - qa),
                0 < b - a < v,
                v > 0,
        ;
    }
}

/// Notes go to the voices in turn. After the notes of `notes` were started
/// with `v` voices in use and the cursor on voice `c`, the cursor is on
/// voice `(c + notes.len()) mod v`, and each of the last `v` notes sounds on
/// a voice of its own: note `j` on voice `(c + j) mod v`. A note before
/// those has had its voice taken by the note `v` places after it.
pub proof fn lemma_round_robin(s: SynthView, notes: Seq<(u8, u8)>)
    requires
        s.wf(),
        s.last_played_osc_index < s.current_num_voices,
    ensures
        s.spec_play(notes).wf(),
        s.spec_play(notes).current_num_voices == s.current_num_voices,
        s.spec_play(notes).last_played_osc_index == (s.last_played_osc_index + notes.len())
            % s.current_num_voices,
        forall|j: int|
            #![trigger notes[j]]
            0 <= j < notes.len() && notes.len() - j <= s.current_num_voices ==> {
                let voice = (s.last_played_osc_index + j) % s.current_num_voices;
                &&& s.spec_play(notes).oscillators_one[voice].note == notes[j].0
                &&& s.spec_play(notes).oscillators_two[voice].note == notes[j].0
            },
    decreases notes.len(),
{
    let v = s.current_num_voices;
    let c = s.last_played_osc_index;
    let n = notes.len() as int;
    if n == 0 {
        vstd::arithmetic::div_mod::lemma_small_mod(c as nat, v as nat);
    } else {
        let earlier = notes.drop_last();
        let before = s.spec_play(earlier);
        lemma_round_robin(s, earlier);
        lemma_note_on_keeps_wf(before, notes.last().0, notes.last().1);
        let after = s.spec_play(notes);
        assert(after == before.spec_note_on(notes.last().0, notes.last().1));
        let at = (c + n - 1) % v;
        assert(before.last_played_osc_index == at);
        vstd::arithmetic::div_mod::lemma_mod_bound(c + n - 1, v);
        vstd::arithmetic::div_mod::lemma_add_mod_noop(c + n - 1, 1, v);
        vstd::arithmetic::div_mod::lemma_mod_twice(c + n - 1, v);
        if v == 1 {
            assert((at + 1) % v == 0);
            assert((c + n) % v == 0);
        } else {
            vstd::arithmetic::div_mod::lemma_small_mod(1, v as nat);
            assert(((c + n - 1) % v + 1int % v) % v == (c + n) % v);
        }
        assert forall|j: int| #![trigger notes[j]] 0 <= j < n && n - j <= v implies {
            let voice = (c + j) % v;
            &&& after.oscillators_one[voice].note == notes[j].0
            &&& after.oscillators_two[voice].note == notes[j].0
        } by {
            let voice = (c + j) % v;
            vstd::arithmetic::div_mod::lemma_mod_bound(c + j, v);
            if j == n - 1 {
                assert(voice == at);
            } else {
                lemma_remainders_differ(c + j, c + n - 1, v);
                assert(voice != at);
                assert(after.oscillators_one[voice] == before.oscillators_one[voice]);
                assert(after.oscillators_two[voice] == before.oscillators_two[voice]);
                assert(earlier[j] == notes[j]);
            }
        }
    }
}

/// Last-note priority. A monophonic engine that is given a note `a` it
/// does not hold yet, then another note `b`, and then loses `b`, returns to
/// `a`: its voice starts `a` again with the velocity of `a`, gliding from
/// the frequency of `b` to that of `a`, and `a` is the note held last.
pub proof fn lemma_last_note_priority(s: SynthView, a: (u8, u8), b: (u8, u8))
    requires
        s.wf(),
        s.monophonic,
        a.0 != b.0,
        !s.active_notes.contains(a.0),
    ensures
        ({
            let back = s.spec_note_on(a.0, a.1).spec_note_on(b.0, b.1).spec_note_off(b.0);
            let voice = back.oscillators_one[0];
            &&& back.wf()
            &&& back.active_notes.last() == a.0
            &&& back.active_velocities.last() == a.1
            &&& voice.note == a.0
            &&& voice.monophonic
            &&& voice.sample_counter == 0
            &&& voice.previous_frequency == spec_mtof(b.0 as int) as i64
            &&& voice.frequency == spec_mtof(a.0 as int) as i64
            &&& voice.velocity == spec_velocity(a.1 as int) as i64
            &&& voice.envelope.state is Attack
            &&& back.oscillators_two[0].note == a.0
            &&& back.oscillators_two[0].previous_frequency == spec_mtof(b.0 as int) as i64
            &&& back.oscillators_two[0].frequency == spec_mtof(a.0 as int) as i64
            &&& back.filters[0].envelope.state is Attack
        }),
{
    let first = s.spec_note_on(a.0, a.1);
    lemma_note_on_keeps_wf(s, a.0, a.1);
    let second = first.spec_note_on(b.0, b.1);
    lemma_note_on_keeps_wf(first, b.0, b.1);
    let released = second.spec_release(b.0);
    let stack = second.active_notes;
    assert(first.active_notes == s.active_notes.push(a.0));
    assert(first.active_notes.last() == a.0);
    assert(first.active_notes[first.active_notes.len() - 1] == a.0);
    assert(first.active_notes.contains(a.0));
    if first.active_notes.contains(b.0) {
        assert(stack == first.active_notes);
    } else {
        assert(stack == first.active_notes.push(b.0));
        assert(stack[stack.len() - 1] == b.0);
    }
    assert(stack.contains(b.0));
    let at = stack.index_of(b.0);
    assert(stack[at] == b.0);
    let top = first.active_notes.len() - 1;
    assert(stack[top] == a.0);
    assert(second.active_velocities[top] == a.1);
    assert(at != top);
    assert(released.active_notes == stack.remove(at));
    assert(released.active_notes.len() > 0);
    if at < top {
        assert(at == stack.len() - 1 ==> false);
        assert(stack.len() - 1 == top);
        assert(released.active_notes.last() == stack[top]);
        assert(released.active_velocities.last() == second.active_velocities[top]);
    } else {
        assert(stack.no_duplicates());
        assert(at == stack.len() - 1);
        assert(released.active_notes.last() == stack[top]);
        assert(released.active_velocities.last() == second.active_velocities[top]);
    }
    assert(released.monophonic);
    lemma_remove_keeps_distinct(stack, at);
    assert(released.wf()) by {
        assert forall|j: int| 0 <= j < VOICES implies (#[trigger] released.oscillators_one[j]).wf() by {
            assert(second.oscillators_one[j].wf());
        }
        assert forall|j: int| 0 <= j < VOICES implies (#[trigger] released.oscillators_two[j]).wf() by {
            assert(second.oscillators_two[j].wf());
        }
        assert forall|j: int| 0 <= j < VOICES implies (#[trigger] released.filters[j]).wf() by {
            assert(second.filters[j].wf());
        }
    }
    lemma_note_on_keeps_wf(released, a.0, a.1);
}

} // verus!
