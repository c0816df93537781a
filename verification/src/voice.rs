//! A voice: one oscillator that is either sounding or silent.

use vstd::prelude::*;
use crate::error::SynthError;
use crate::saw::{output, step, Saw, SawState, HALF, LOWEST};

verus! {

/// What a voice is, as plain values.
pub struct VoiceState {
    /// The voice's oscillator.
    pub saw: SawState,
    /// Whether the voice sounds.
    pub active: bool,
}

impl VoiceState {
    /// The pitch the voice was last given, in millihertz: that of its
    /// oscillator.
    pub open spec fn frequency(self) -> nat {
        self.saw.frequency
    }
}

/// The voice one sample later: its oscillator moves on whether or not the
/// voice sounds.
pub open spec fn tick_voice(v: VoiceState, sample_rate: nat) -> VoiceState {
    VoiceState { saw: step(v.saw, sample_rate), active: v.active }
}

/// What a voice adds to the mix: its oscillator's sample while it sounds,
/// nothing while it is silent.
pub open spec fn sounding(v: VoiceState) -> int {
    if v.active {
        output(v.saw)
    } else {
        0
    }
}

/// One monophonic slot of the engine.
#[derive(Clone, Copy, Debug)]
pub struct Voice {
    saw: Saw,
    active: bool,
    frequency: u32,
}

impl View for Voice {
    type V = VoiceState;

    closed spec fn view(&self) -> VoiceState {
        VoiceState { saw: self.saw@, active: self.active }
    }
}

impl Voice {
    /// The voice's own record of its pitch is that of its oscillator, and
    /// above zero.
    #[verifier::type_invariant]
    spec fn inv(self) -> bool {
        self.frequency > 0 && self.frequency == self.saw@.frequency
    }

    /// A silent voice whose oscillator is at rest. A frequency of zero is
    /// refused.
    pub fn new(frequency: u32) -> (r: Result<Voice, SynthError>)
        ensures
            frequency == 0 ==> r == Err::<Voice, SynthError>(SynthError::ZeroFrequency),
            frequency > 0 ==> r is Ok && r->Ok_0@ == (VoiceState {
                saw: SawState { frequency: frequency as nat, phase_count: 0, value: 0 },
                active: false,
            }),
    {
        match Saw::new(frequency) {
            Ok(saw) => Ok(Voice { saw, active: false, frequency }),
            Err(e) => Err(e),
        }
    }

    /// Whether the voice sounds.
    pub fn is_active(&self) -> (active: bool)
        ensures
            active == self@.active,
    {
        self.active
    }

    /// The pitch the voice was last given, in millihertz; it is never zero.
    pub fn frequency(&self) -> (frequency: u32)
        ensures
            frequency == self@.frequency(),
            frequency > 0,
    {
        proof {
            use_type_invariant(self);
        }
        self.frequency
    }

    /// The voice's oscillator.
    pub fn saw(&self) -> (saw: &Saw)
        ensures
            saw@ == self@.saw,
    {
        &self.saw
    }

    /// Lets the voice sound, at once.
    pub fn note_on(&mut self)
        ensures
            final(self)@ == (VoiceState { active: true, ..old(self)@ }),
    {
        proof {
            use_type_invariant(&*self);
        }
        self.active = true;
    }

    /// Silences the voice, at once.
    pub fn note_off(&mut self)
        ensures
            final(self)@ == (VoiceState { active: false, ..old(self)@ }),
    {
        proof {
            use_type_invariant(&*self);
        }
        self.active = false;
    }

    /// Gives the voice a new pitch. The oscillator keeps its phase and its
    /// ramp, so a sounding voice jumps in the middle of its cycle.
    pub fn set_freq(&mut self, frequency: u32)
        requires
            frequency > 0,
        ensures
            final(self)@ == (VoiceState {
                saw: SawState { frequency: frequency as nat, ..old(self)@.saw },
                ..old(self)@
            }),
    {
        let mut saw = self.saw;
        saw.set_frequency(frequency);
        *self = Voice { saw, active: self.active, frequency };
    }

    /// Moves the oscillator on by one sample and returns what the voice adds
    /// to the mix.
    pub fn next_sample(&mut self, sample_rate: u32) -> (out: i64)
        ensures
            final(self)@ == tick_voice(old(self)@, sample_rate as nat),
            out == sounding(final(self)@),
            LOWEST <= out <= HALF,
    {
        proof {
            use_type_invariant(&*self);
        }
        let sample = self.saw.next_sample(sample_rate);
        if self.active {
            sample
        } else {
            0
        }
    }
}

} // verus!
