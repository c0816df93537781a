//! A small polyphonic sawtooth engine in integer arithmetic.
//!
//! - [`saw`]: the oscillator, a phase counter and a falling ramp;
//! - [`voice`]: an oscillator that is sounding or silent;
//! - [`poly`]: a fixed row of voices, the rule that gives each new note a
//!   voice, and the mix of the row into one sample;
//! - [`render`]: filling an interleaved output buffer from the engine;
//! - [`error`]: what the engine refuses.
//!
//! Sample rates are whole hertz and frequencies whole millihertz. Amplitudes
//! are fixed-point numbers with 24 fractional bits: [`saw::ONE`] stands for
//! 1.0, and a sample divided by it is the amplitude. Every sample is thus an
//! exact function of the calls made so far, and the contracts say which.

pub mod error;
pub mod poly;
pub mod render;
pub mod saw;
pub mod voice;
