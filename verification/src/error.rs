//! What the engine refuses.

use vstd::prelude::*;

verus! {

/// Why a request was turned down.
#[derive(Clone, Copy, Debug, PartialEq, Eq, Structural)]
pub enum SynthError {
    /// An engine needs at least one voice.
    NoVoices,
    /// More voices than `MAX_VOICES` were asked for.
    TooManyVoices,
    /// A note needs a frequency above zero.
    ZeroFrequency,
    /// The engine has no voice with that index.
    NoSuchVoice,
}

impl SynthError {
    /// The text of `message`.
    pub open spec fn text(self) -> Seq<char> {
        match self {
            SynthError::NoVoices => "an engine needs at least one voice"@,
            SynthError::TooManyVoices => "too many voices for one engine"@,
            SynthError::ZeroFrequency => "a note needs a frequency above zero"@,
            SynthError::NoSuchVoice => "the engine has no voice with that index"@,
        }
    }

    /// A sentence that says what was wrong with the request.
    pub fn message(&self) -> (text: &'static str)
        ensures
            text@ == self.text(),
    {
        match self {
            SynthError::NoVoices => "an engine needs at least one voice",
            SynthError::TooManyVoices => "too many voices for one engine",
            SynthError::ZeroFrequency => "a note needs a frequency above zero",
            SynthError::NoSuchVoice => "the engine has no voice with that index",
        }
    }
}

} // verus!
