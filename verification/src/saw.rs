//! The sawtooth oscillator: a phase counter and a falling ramp.

use vstd::prelude::*;
use crate::error::SynthError;

verus! {

/// The amplitude 1.0: amplitudes are counted in steps of 2^-24.
pub const ONE: i64 = 16_777_216;

/// The amplitude 0.5, by which every sample is lowered.
pub const HALF: i64 = 8_388_608;

/// No sample of an oscillator lies below this: -(ONE * ONE) - HALF.
pub const LOWEST: i64 = -281_474_985_099_264;

/// What an oscillator is, as plain numbers.
pub struct SawState {
    /// Pitch in millihertz.
    pub frequency: nat,
    /// Samples elapsed in the current cycle.
    pub phase_count: nat,
    /// The ramp's height, before the sample is lowered by `HALF`.
    pub value: int,
}

/// Samples per ramp: the sample rate (in hertz) over the frequency (in
/// millihertz), rounded down.
pub open spec fn period(sample_rate: nat, frequency: nat) -> nat
    recommends
        frequency > 0,
{
    (sample_rate * 1000 / frequency) as nat
}

/// How far the ramp falls in one sample of a cycle of `period` samples.
pub open spec fn fall(period: nat) -> int
    recommends
        period > 0,
{
    ONE as int / period as int
}

/// The oscillator one sample later. A cycle that has run its `period` snaps
/// back to `ONE`; any other moves one sample on and falls by `fall(period)`.
pub open spec fn step(s: SawState, sample_rate: nat) -> SawState {
    let p = period(sample_rate, s.frequency);
    if s.phase_count >= p {
        SawState { frequency: s.frequency, phase_count: 0, value: ONE as int }
    } else {
        SawState {
            frequency: s.frequency,
            phase_count: s.phase_count + 1,
            value: s.value - fall(p),
        }
    }
}

/// The sample that an oscillator in state `s` sounds.
pub open spec fn output(s: SawState) -> int {
    s.value - HALF
}

/// The oscillator `n` samples later, at one sample rate throughout.
pub open spec fn steps(s: SawState, sample_rate: nat, n: nat) -> SawState
    decreases n,
{
    if n == 0 {
        s
    } else {
        step(steps(s, sample_rate, (n - 1) as nat), sample_rate)
    }
}

/// From the start of a cycle the ramp falls for `period` samples, by
/// `fall(period)` at each of them, and the pitch stays.
pub proof fn lemma_ramp(s: SawState, sample_rate: nat, k: nat)
    requires
        s.frequency > 0,
        s.phase_count == 0,
        k <= period(sample_rate, s.frequency),
    ensures
        steps(s, sample_rate, k) == (SawState {
            frequency: s.frequency,
            phase_count: k,
            value: s.value - k * fall(period(sample_rate, s.frequency)),
        }),
    decreases k,
{
    let p = period(sample_rate, s.frequency);
    if k > 0 {
        lemma_ramp(s, sample_rate, (k - 1) as nat);
        assert(s.value - (k - 1) * fall(p) - fall(p) == s.value - k * fall(p)) by (nonlinear_arith);
    } else {
        assert(k * fall(p) == 0) by (nonlinear_arith)
            requires
                k == 0,
        ;
    }
}

/// One cycle of a steady oscillator: after the snap to `HALF` each of the next
/// `period` samples is lower than the one before by `fall(period)`, and the
/// sample after those is the snap again.
pub proof fn lemma_cycle(s: SawState, sample_rate: nat)
    requires
        s.frequency > 0,
        s.phase_count == 0,
        s.value == ONE,
    ensures
        output(s) == HALF,
        forall|k: nat|
            0 < k <= period(sample_rate, s.frequency) ==> output(#[trigger] steps(s, sample_rate, k))
                == output(steps(s, sample_rate, (k - 1) as nat)) - fall(
                period(sample_rate, s.frequency),
            ),
        forall|k: nat|
            k <= period(sample_rate, s.frequency) ==> -HALF <= output(
                #[trigger] steps(s, sample_rate, k),
            ) <= HALF,
        steps(s, sample_rate, period(sample_rate, s.frequency) + 1) == s,
{
    let p = period(sample_rate, s.frequency);
    assert forall|k: nat| k <= p implies -HALF <= output(#[trigger] steps(s, sample_rate, k))
        <= HALF by {
        lemma_ramp(s, sample_rate, k);
        assert(0 <= k * fall(p) <= ONE) by (nonlinear_arith)
            requires
                0 <= k <= p,
                p > 0 ==> fall(p) == ONE as int / p as int,
                ONE == 16_777_216,
        ;
    }
    assert forall|k: nat| 0 < k <= p implies output(#[trigger] steps(s, sample_rate, k)) == output(
        steps(s, sample_rate, (k - 1) as nat),
    ) - fall(p) by {
        lemma_ramp(s, sample_rate, k);
        lemma_ramp(s, sample_rate, (k - 1) as nat);
        assert(s.value - (k - 1) * fall(p) - fall(p) == s.value - k * fall(p)) by (nonlinear_arith);
    }
    lemma_ramp(s, sample_rate, p);
}

/// The phase never passes the period: a phase that has reached it goes back
/// to zero at the next sample.
pub proof fn lemma_phase_within_period(s: SawState, sample_rate: nat)
    requires
        s.frequency > 0,
        s.phase_count <= period(sample_rate, s.frequency),
    ensures
        step(s, sample_rate).phase_count <= period(sample_rate, s.frequency),
        s.phase_count == period(sample_rate, s.frequency) ==> step(s, sample_rate).phase_count == 0,
{
}

/// The ramp truly falls at every sample of a cycle that is no longer than
/// `ONE` samples; in a longer one a single fall is below the resolution.
pub proof fn lemma_fall_positive(period: nat)
    requires
        0 < period,
    ensures
        fall(period) > 0 <==> period <= ONE,
        0 <= fall(period) <= ONE,
{
    assert(fall(period) > 0 <==> period <= ONE) by (nonlinear_arith)
        requires
            0 < period,
            fall(period) == ONE as int / period as int,
            ONE == 16_777_216,
    ;
    assert(0 <= fall(period) <= ONE) by (nonlinear_arith)
        requires
            0 < period,
            fall(period) == ONE as int / period as int,
            ONE == 16_777_216,
    ;
}

/// A sawtooth oscillator.
#[derive(Clone, Copy, Debug)]
pub struct Saw {
    frequency: u32,
    phase_count: u64,
    value: i64,
}

impl View for Saw {
    type V = SawState;

    closed spec fn view(&self) -> SawState {
        SawState {
            frequency: self.frequency as nat,
            phase_count: self.phase_count as nat,
            value: self.value as int,
        }
    }
}

impl Saw {
    /// The pitch is above zero, and the ramp stays between `-(ONE * ONE)` and
    /// `ONE`: it falls only while the phase is below the period, by `ONE`
    /// over the period, so by `ONE` at most, and by nothing once the phase
    /// has passed `ONE`.
    #[verifier::type_invariant]
    spec fn inv(self) -> bool {
        &&& self.frequency > 0
        &&& self.value <= ONE
        &&& self.phase_count <= ONE ==> self.value >= -(self.phase_count * ONE)
        &&& self.value >= -(ONE * ONE)
    }

    /// An oscillator at rest: no sample elapsed, the ramp at zero. A
    /// frequency of zero is refused.
    pub fn new(frequency: u32) -> (r: Result<Saw, SynthError>)
        ensures
            frequency == 0 ==> r == Err::<Saw, SynthError>(SynthError::ZeroFrequency),
            frequency > 0 ==> r is Ok && r->Ok_0@ == (SawState {
                frequency: frequency as nat,
                phase_count: 0,
                value: 0,
            }),
    {
        if frequency == 0 {
            Err(SynthError::ZeroFrequency)
        } else {
            Ok(Saw { frequency, phase_count: 0, value: 0 })
        }
    }

    /// The pitch, in millihertz; it is never zero.
    pub fn frequency(&self) -> (frequency: u32)
        ensures
            frequency == self@.frequency,
            frequency > 0,
    {
        proof {
            use_type_invariant(self);
        }
        self.frequency
    }

    /// Samples elapsed in the current cycle.
    pub fn phase_count(&self) -> (phase_count: u64)
        ensures
            phase_count == self@.phase_count,
    {
        self.phase_count
    }

    /// The ramp's height; the sample last returned is `HALF` below it.
    pub fn value(&self) -> (value: i64)
        ensures
            value == self@.value,
    {
        self.value
    }

    /// Changes the pitch at once; the phase and the ramp stay as they are.
    pub fn set_frequency(&mut self, frequency: u32)
        requires
            frequency > 0,
        ensures
            final(self)@ == (SawState { frequency: frequency as nat, ..old(self)@ }),
    {
        proof {
            use_type_invariant(&*self);
        }
        self.frequency = frequency;
    }

    /// Moves on by one sample and returns it.
    pub fn next_sample(&mut self, sample_rate: u32) -> (out: i64)
        ensures
            final(self)@ == step(old(self)@, sample_rate as nat),
            out == output(final(self)@),
            LOWEST <= out <= HALF,
        no_unwind
    {
        proof {
            use_type_invariant(&*self);
        }
        let period: u64 = (sample_rate as u64 * 1000) / (self.frequency as u64);
        if self.phase_count >= period {
            self.value = ONE;
            self.phase_count = 0;
        } else {
            let decrement = (ONE as u64 / period) as i64;
            proof {
                let count = self.phase_count as int;
                assert(decrement == fall(period as nat));
                assert(0 <= decrement <= ONE && (period > ONE ==> decrement == 0))
                    by (nonlinear_arith)
                    requires
                        period > 0,
                        decrement == ONE as int / period as int,
                        ONE == 16_777_216,
                ;
                assert((count + 1) * ONE == count * ONE + ONE && (count < ONE ==> (count + 1) * ONE
                    <= ONE * ONE)) by (nonlinear_arith)
                    requires
                        count >= 0,
                        ONE == 16_777_216,
                ;
            }
            self.phase_count += 1;
            self.value -= decrement;
        }
        self.value - HALF
    }
}

} // verus!
