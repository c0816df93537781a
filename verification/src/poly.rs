//! The voice allocator: a fixed row of voices, the rule that gives each new
//! note a voice, and the mix of all voices into one sample.

use vstd::prelude::*;
use crate::error::SynthError;
use crate::saw::{output, SawState, HALF, LOWEST};
use crate::voice::{sounding, tick_voice, Voice, VoiceState};

verus! {

/// The most voices one engine can hold: the mix of that many samples still
/// fits in an `i64`.
pub const MAX_VOICES: usize = 32_767;

/// The pitch, in millihertz, at which a voice idles until its first note.
pub const IDLE_FREQUENCY: u32 = 220_000;

/// A request from the side that plays, to be carried out by the side that
/// renders.
#[derive(Clone, Copy, Debug, PartialEq, Eq, Structural)]
pub enum NoteEvent {
    /// Start a note of this frequency, in millihertz.
    NoteOn(u32),
    /// Silence the voice with this index.
    NoteOff(usize),
}

/// What an engine is, as plain values.
pub struct PolyState {
    /// Samples per second.
    pub sample_rate: nat,
    /// The voices, in the order in which they were made.
    pub voices: Seq<VoiceState>,
}

/// A voice as the engine makes it: silent, its oscillator at rest.
pub open spec fn idle_voice() -> VoiceState {
    VoiceState {
        saw: SawState { frequency: IDLE_FREQUENCY as nat, phase_count: 0, value: 0 },
        active: false,
    }
}

/// Whether voice `i` is the one that the next note goes to: every voice
/// before it sounds, and it is silent itself or the last of the row.
pub open spec fn is_note_slot(voices: Seq<VoiceState>, i: int) -> bool {
    &&& 0 <= i < voices.len()
    &&& forall|j: int| 0 <= j < i ==> (#[trigger] voices[j]).active
    &&& (!voices[i].active || i == voices.len() - 1)
}

/// The voice that the next note goes to: the first silent one, or the last
/// of the row where all of them sound.
pub open spec fn note_slot(voices: Seq<VoiceState>) -> int {
    choose|i: int| is_note_slot(voices, i)
}

/// The row after voice `i` was given a note of `frequency`: that voice sounds
/// at the new pitch with its phase and ramp as they were, the others are
/// untouched.
pub open spec fn assign(voices: Seq<VoiceState>, i: int, frequency: nat) -> Seq<VoiceState> {
    voices.update(
        i,
        VoiceState { saw: SawState { frequency, ..voices[i].saw }, active: true },
    )
}

/// The row after voice `i` was silenced.
pub open spec fn release(voices: Seq<VoiceState>, i: int) -> Seq<VoiceState> {
    voices.update(i, VoiceState { active: false, ..voices[i] })
}

/// The engine after a note of `frequency` was asked for.
pub open spec fn after_note(s: PolyState, frequency: nat) -> PolyState {
    PolyState { voices: assign(s.voices, note_slot(s.voices), frequency), ..s }
}

/// The engine after `event` was carried out; a request that is refused
/// leaves it as it was.
pub open spec fn after_event(s: PolyState, event: NoteEvent) -> PolyState {
    match event {
        NoteEvent::NoteOn(frequency) => if frequency > 0 {
            after_note(s, frequency as nat)
        } else {
            s
        },
        NoteEvent::NoteOff(voice) => if voice < s.voices.len() {
            PolyState { voices: release(s.voices, voice as int), ..s }
        } else {
            s
        },
    }
}

/// What carrying out `event` returns: the voice that it went to, or why it
/// was refused.
pub open spec fn event_outcome(s: PolyState, event: NoteEvent) -> Result<usize, SynthError> {
    match event {
        NoteEvent::NoteOn(frequency) => if frequency > 0 {
            Ok(note_slot(s.voices) as usize)
        } else {
            Err(SynthError::ZeroFrequency)
        },
        NoteEvent::NoteOff(voice) => if voice < s.voices.len() {
            Ok(voice)
        } else {
            Err(SynthError::NoSuchVoice)
        },
    }
}

/// The engine one sample later: every voice moves on, sounding or not.
pub open spec fn tick(s: PolyState) -> PolyState {
    PolyState {
        voices: Seq::new(s.voices.len(), |i: int| tick_voice(s.voices[i], s.sample_rate)),
        ..s
    }
}

/// The sum of what each voice of the row adds to the mix.
pub open spec fn mix(voices: Seq<VoiceState>) -> int
    decreases voices.len(),
{
    if voices.len() == 0 {
        0
    } else {
        mix(voices.drop_last()) + sounding(voices.last())
    }
}

/// Every row with a voice in it has exactly one voice for the next note.
pub proof fn lemma_note_slot(voices: Seq<VoiceState>)
    requires
        voices.len() > 0,
    ensures
        is_note_slot(voices, note_slot(voices)),
        forall|i: int| is_note_slot(voices, i) ==> i == note_slot(voices),
{
    lemma_note_slot_exists(voices, 0);
    let slot = note_slot(voices);
    assert forall|i: int| is_note_slot(voices, i) implies i == slot by {
        if i < slot {
            assert(voices[i].active);
        } else if slot < i {
            assert(voices[slot].active);
        }
    }
}

proof fn lemma_note_slot_exists(voices: Seq<VoiceState>, k: int)
    requires
        0 <= k < voices.len(),
        forall|j: int| 0 <= j < k ==> (#[trigger] voices[j]).active,
    ensures
        exists|i: int| is_note_slot(voices, i),
    decreases voices.len() - k,
{
    if !voices[k].active || k == voices.len() - 1 {
        assert(is_note_slot(voices, k));
    } else {
        lemma_note_slot_exists(voices, k + 1);
    }
}

/// The engine after the notes of `notes` were asked for, one after another.
pub open spec fn after_notes(s: PolyState, notes: Seq<nat>) -> PolyState
    decreases notes.len(),
{
    if notes.len() == 0 {
        s
    } else {
        after_note(after_notes(s, notes.drop_last()), notes.last())
    }
}

/// The row whose first voices sound at the pitches of `notes`, one voice to a
/// note, each with its phase and ramp as in `voices`; the other voices are
/// as in `voices`.
pub open spec fn first_notes(voices: Seq<VoiceState>, notes: Seq<nat>) -> Seq<VoiceState> {
    Seq::new(
        voices.len(),
        |j: int|
            if j < notes.len() {
                VoiceState { saw: SawState { frequency: notes[j], ..voices[j].saw }, active: true }
            } else {
                voices[j]
            },
    )
}

/// The sum of the oscillators' samples over a row, sounding or not.
pub open spec fn sum_of_outputs(voices: Seq<VoiceState>) -> int
    decreases voices.len(),
{
    if voices.len() == 0 {
        0
    } else {
        sum_of_outputs(voices.drop_last()) + output(voices.last().saw)
    }
}

/// In an engine whose voices are all silent, as many notes as it has voices
/// go to the voices in their order: note `k` goes to voice `k`, which was
/// silent until then, so no sounding voice is taken over. Afterwards the
/// row is `first_notes` of what it was.
pub proof fn lemma_notes_fill_in_order(s: PolyState, notes: Seq<nat>)
    requires
        forall|j: int| 0 <= j < s.voices.len() ==> !(#[trigger] s.voices[j]).active,
        notes.len() <= s.voices.len(),
    ensures
        forall|k: int|
            0 <= k < notes.len() ==> note_slot(#[trigger] after_notes(s, notes.take(k)).voices) == k
                && !after_notes(s, notes.take(k)).voices[k].active,
        after_notes(s, notes) == (PolyState { voices: first_notes(s.voices, notes), ..s }),
    decreases notes.len(),
{
    if notes.len() > 0 {
        let rest = notes.drop_last();
        let m = rest.len() as int;
        lemma_notes_fill_in_order(s, rest);
        let before = after_notes(s, rest);
        assert(is_note_slot(before.voices, m));
        lemma_note_slot(before.voices);
        assert forall|k: int| 0 <= k < notes.len() implies note_slot(
            #[trigger] after_notes(s, notes.take(k)).voices,
        ) == k && !after_notes(s, notes.take(k)).voices[k].active by {
            if k < m {
                assert(notes.take(k) =~= rest.take(k));
            } else {
                assert(notes.take(k) =~= rest);
            }
        }
        assert(after_notes(s, notes).voices =~= first_notes(s.voices, notes));
    } else {
        assert(s.voices =~= first_notes(s.voices, notes));
    }
}

/// An engine keeps the voices it was made with and its sample rate: no
/// request and no sample changes how many there are.
pub proof fn lemma_shape_is_kept(s: PolyState, event: NoteEvent)
    requires
        s.voices.len() > 0,
    ensures
        after_event(s, event).voices.len() == s.voices.len(),
        after_event(s, event).sample_rate == s.sample_rate,
        tick(s).voices.len() == s.voices.len(),
        tick(s).sample_rate == s.sample_rate,
{
    lemma_note_slot(s.voices);
}

/// Where every voice sounds, the next note takes the last voice of the row,
/// whatever went before.
pub proof fn lemma_full_row_takes_last(voices: Seq<VoiceState>)
    requires
        voices.len() > 0,
        forall|j: int| 0 <= j < voices.len() ==> (#[trigger] voices[j]).active,
    ensures
        note_slot(voices) == voices.len() - 1,
{
    lemma_note_slot(voices);
    assert(is_note_slot(voices, voices.len() - 1));
}

/// After voice `i` was silenced the next note goes to a silent voice, so none
/// is taken over: to voice `i` itself where every voice before it sounds, and
/// else to the first silent voice, which then comes before `i`.
pub proof fn lemma_released_voice_is_reused(voices: Seq<VoiceState>, i: int)
    requires
        0 <= i < voices.len(),
    ensures
        is_note_slot(release(voices, i), note_slot(release(voices, i))),
        !release(voices, i)[note_slot(release(voices, i))].active,
        note_slot(release(voices, i)) <= i,
        (forall|j: int| 0 <= j < i ==> (#[trigger] voices[j]).active) ==> note_slot(
            release(voices, i),
        ) == i,
{
    let row = release(voices, i);
    lemma_note_slot(row);
    let slot = note_slot(row);
    if slot > i {
        assert(row[i].active);
    }
    if forall|j: int| 0 <= j < i ==> (#[trigger] voices[j]).active {
        assert(is_note_slot(row, i));
    }
}

/// A row of silent voices mixes to exactly zero.
pub proof fn lemma_silent_row_mixes_to_zero(voices: Seq<VoiceState>)
    requires
        forall|j: int| 0 <= j < voices.len() ==> !(#[trigger] voices[j]).active,
    ensures
        mix(voices) == 0,
    decreases voices.len(),
{
    if voices.len() > 0 {
        lemma_silent_row_mixes_to_zero(voices.drop_last());
    }
}

/// The mix is the sum of the oscillators' samples over the voices that
/// sound, each taken by itself.
pub proof fn lemma_mix_sums_sounding_voices(voices: Seq<VoiceState>)
    ensures
        mix(voices) == sum_of_outputs(voices.filter(|v: VoiceState| v.active)),
    decreases voices.len(),
{
    reveal(Seq::filter);
    if voices.len() > 0 {
        let sounds = |v: VoiceState| v.active;
        let rest = voices.drop_last().filter(sounds);
        lemma_mix_sums_sounding_voices(voices.drop_last());
        if voices.last().active {
            assert(rest.push(voices.last()).drop_last() =~= rest);
        }
    }
}

/// A fixed row of voices that share one sample rate.
#[derive(Debug)]
pub struct Poly {
    sample_rate: u32,
    voices: Vec<Voice>,
}

impl View for Poly {
    type V = PolyState;

    closed spec fn view(&self) -> PolyState {
        PolyState {
            sample_rate: self.sample_rate as nat,
            voices: Seq::new(self.voices@.len(), |i: int| self.voices@[i]@),
        }
    }
}

impl Poly {
    /// The row is never empty and never longer than `MAX_VOICES`.
    #[verifier::type_invariant]
    spec fn inv(self) -> bool {
        1 <= self.voices@.len() <= MAX_VOICES
    }

    /// An engine of `voice_count` idle voices. It is refused without a voice
    /// and with more than `MAX_VOICES`.
    pub fn new(sample_rate: u32, voice_count: usize) -> (r: Result<Poly, SynthError>)
        ensures
            voice_count == 0 ==> r == Err::<Poly, SynthError>(SynthError::NoVoices),
            voice_count > MAX_VOICES ==> r == Err::<Poly, SynthError>(SynthError::TooManyVoices),
            1 <= voice_count <= MAX_VOICES ==> r is Ok && r->Ok_0@ == (PolyState {
                sample_rate: sample_rate as nat,
                voices: Seq::new(voice_count as nat, |i: int| idle_voice()),
            }),
    {
        if voice_count == 0 {
            return Err(SynthError::NoVoices);
        }
        if voice_count > MAX_VOICES {
            return Err(SynthError::TooManyVoices);
        }
        let mut voices: Vec<Voice> = Vec::new();
        while voices.len() < voice_count
            invariant
                voices@.len() <= voice_count,
                forall|j: int| 0 <= j < voices@.len() ==> (#[trigger] voices@[j])@ == idle_voice(),
            decreases voice_count - voices@.len(),
        {
            match Voice::new(IDLE_FREQUENCY) {
                Ok(voice) => {
                    voices.push(voice);
                },
                Err(e) => {
                    return Err(e);
                },
            }
        }
        let poly = Poly { sample_rate, voices };
        assert(poly@.voices =~= Seq::new(voice_count as nat, |i: int| idle_voice()));
        Ok(poly)
    }

    /// Samples per second.
    pub fn sample_rate(&self) -> (sample_rate: u32)
        ensures
            sample_rate == self@.sample_rate,
    {
        self.sample_rate
    }

    /// How many voices the engine has: as many as it was made with.
    pub fn voice_count(&self) -> (count: usize)
        ensures
            count == self@.voices.len(),
            1 <= count <= MAX_VOICES,
    {
        proof {
            use_type_invariant(self);
        }
        self.voices.len()
    }

    /// Voice `index`, if the engine has one.
    pub fn voice(&self, index: usize) -> (voice: Option<&Voice>)
        ensures
            index < self@.voices.len() ==> voice is Some
                && voice->Some_0@ == self@.voices[index as int],
            index >= self@.voices.len() ==> voice is None,
    {
        if index < self.voices.len() {
            Some(&self.voices[index])
        } else {
            None
        }
    }

    /// Gives a note of `frequency` (in millihertz, above zero) to the first
    /// silent voice, or to the last voice of the row where all of them sound,
    /// and returns that voice's index. No other voice is touched, and the
    /// chosen one keeps its phase.
    pub fn new_note(&mut self, frequency: u32) -> (r: Result<usize, SynthError>)
        ensures
            frequency == 0 ==> r == Err::<usize, SynthError>(SynthError::ZeroFrequency)
                && final(self)@ == old(self)@,
            frequency > 0 ==> r == Ok::<usize, SynthError>(note_slot(old(self)@.voices) as usize)
                && is_note_slot(old(self)@.voices, note_slot(old(self)@.voices))
                && final(self)@ == after_note(old(self)@, frequency as nat),
    {
        if frequency == 0 {
            return Err(SynthError::ZeroFrequency);
        }
        proof {
            use_type_invariant(&*self);
            lemma_note_slot(self@.voices);
        }
        let count = self.voices.len();
        let mut i: usize = 0;
        while i < count
            invariant
                *self == *old(self),
                count == self.voices@.len(),
                1 <= count <= MAX_VOICES,
                i <= count,
                frequency > 0,
                forall|j: int| 0 <= j < i ==> (#[trigger] self@.voices[j]).active,
                forall|k: int| is_note_slot(self@.voices, k) ==> k == note_slot(self@.voices),
            decreases count - i,
        {
            if !self.voices[i].is_active() {
                assert(is_note_slot(self@.voices, i as int));
                self.voices[i].set_freq(frequency);
                self.voices[i].note_on();
                assert(self@.voices =~= assign(old(self)@.voices, i as int, frequency as nat));
                return Ok(i);
            }
            i += 1;
        }
        let last = count - 1;
        assert(is_note_slot(self@.voices, last as int));
        self.voices[last].note_off();
        self.voices[last].set_freq(frequency);
        self.voices[last].note_on();
        assert(self@.voices =~= assign(old(self)@.voices, last as int, frequency as nat));
        Ok(last)
    }

    /// Silences voice `voice`. Its oscillator keeps running, so a later note
    /// on that voice starts wherever the phase has drifted to.
    pub fn note_off(&mut self, voice: usize) -> (r: Result<(), SynthError>)
        ensures
            voice < old(self)@.voices.len() ==> r == Ok::<(), SynthError>(())
                && final(self)@ == (PolyState {
                    voices: release(old(self)@.voices, voice as int),
                    ..old(self)@
                }),
            voice >= old(self)@.voices.len() ==> r == Err::<(), SynthError>(SynthError::NoSuchVoice)
                && final(self)@ == old(self)@,
    {
        if voice >= self.voices.len() {
            return Err(SynthError::NoSuchVoice);
        }
        proof {
            use_type_invariant(&*self);
        }
        self.voices[voice].note_off();
        assert(self@.voices =~= release(old(self)@.voices, voice as int));
        Ok(())
    }

    /// Carries out one request: a note for `NoteOn`, silence for `NoteOff`.
    /// Returns the index of the voice that it went to.
    pub fn apply(&mut self, event: NoteEvent) -> (r: Result<usize, SynthError>)
        ensures
            r == event_outcome(old(self)@, event),
            final(self)@ == after_event(old(self)@, event),
    {
        match event {
            NoteEvent::NoteOn(frequency) => self.new_note(frequency),
            NoteEvent::NoteOff(voice) => match self.note_off(voice) {
                Ok(()) => Ok(voice),
                Err(e) => Err(e),
            },
        }
    }

    /// Moves every voice on by one sample and returns the sum of the samples
    /// of those that sound.
    pub fn next_sample(&mut self) -> (out: i64)
        ensures
            final(self)@ == tick(old(self)@),
            out == mix(final(self)@.voices),
    {
        proof {
            use_type_invariant(&*self);
        }
        let count = self.voices.len();
        let mut out: i64 = 0;
        let mut i: usize = 0;
        while i < count
            invariant
                count == self.voices@.len(),
                count == old(self)@.voices.len(),
                1 <= count <= MAX_VOICES,
                i <= count,
                self@.sample_rate == old(self)@.sample_rate,
                forall|j: int| 0 <= j < i ==> #[trigger] self@.voices[j] == tick_voice(
                    old(self)@.voices[j],
                    old(self)@.sample_rate,
                ),
                forall|j: int| i <= j < count ==> #[trigger] self@.voices[j] == old(self)@.voices[j],
                out == mix(self@.voices.take(i as int)),
                i * LOWEST <= out <= i * HALF,
            decreases count - i,
        {
            let ghost before = self@.voices;
            let sample = self.voices[i].next_sample(self.sample_rate);
            proof {
                let now = self@.voices;
                assert forall|j: int| 0 <= j < count && j != i implies now[j] == before[j] by {}
                assert(now[i as int] == tick_voice(before[i as int], self@.sample_rate));
                assert(now.take(i + 1).drop_last() =~= before.take(i as int));
                assert(now.take(i + 1).last() == now[i as int]);
                assert(i64::MIN <= (i + 1) * LOWEST == i * LOWEST + LOWEST && (i + 1) * HALF == i
                    * HALF + HALF <= i64::MAX) by (nonlinear_arith)
                    requires
                        i < MAX_VOICES,
                ;
            }
            out = out + sample;
            i += 1;
        }
        assert(self@.voices.take(count as int) =~= self@.voices);
        assert(self@.voices =~= tick(old(self)@).voices);
        out
    }
}

} // verus!
