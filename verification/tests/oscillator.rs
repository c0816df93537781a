use pidaw::error::SynthError;
use pidaw::saw::{Saw, HALF, LOWEST, ONE};

const RATE: u32 = 44_100;
// A quarter of the sample rate: four samples to a ramp.
const QUARTER: u32 = 11_025_000;

#[test]
fn constants_are_fixed_point() {
    assert_eq!(ONE, 1 << 24);
    assert_eq!(HALF, ONE / 2);
    assert_eq!(LOWEST, -(ONE * ONE) - HALF);
}

#[test]
fn new_saw_is_at_rest() {
    let saw = Saw::new(440_000).unwrap();
    assert_eq!(saw.frequency(), 440_000);
    assert_eq!(saw.phase_count(), 0);
    assert_eq!(saw.value(), 0);
}

#[test]
fn new_saw_refuses_zero_frequency() {
    assert_eq!(Saw::new(0).unwrap_err(), SynthError::ZeroFrequency);
}

#[test]
fn first_ramp_starts_from_rest() {
    let mut saw = Saw::new(QUARTER).unwrap();
    let got: Vec<i64> = (0..4).map(|_| saw.next_sample(RATE)).collect();
    assert_eq!(got, vec![-12_582_912, -16_777_216, -20_971_520, -25_165_824]);
    assert_eq!(saw.phase_count(), 4);
    assert_eq!(saw.value(), -ONE);
}

#[test]
fn cycle_snaps_then_falls_period_times() {
    let mut saw = Saw::new(QUARTER).unwrap();
    for _ in 0..4 {
        saw.next_sample(RATE);
    }
    // The snap, four falls of ONE / 4, and the snap again.
    let got: Vec<i64> = (0..6).map(|_| saw.next_sample(RATE)).collect();
    assert_eq!(got, vec![8_388_608, 4_194_304, 0, -4_194_304, -8_388_608, 8_388_608]);
    assert_eq!(saw.phase_count(), 0);
    assert_eq!(saw.value(), ONE);
}

#[test]
fn concert_pitch_has_a_period_of_one_hundred() {
    let mut saw = Saw::new(440_000).unwrap();
    // 44100 / 440 is 100.227..., cut to 100: the phase counts up to 100.
    for expected in 1..=100u64 {
        saw.next_sample(RATE);
        assert_eq!(saw.phase_count(), expected);
    }
    assert_eq!(saw.next_sample(RATE), HALF);
    assert_eq!(saw.phase_count(), 0);
    // Each fall is ONE / 100, rounded down.
    assert_eq!(saw.next_sample(RATE), HALF - 167_772);
    assert_eq!(saw.next_sample(RATE), HALF - 2 * 167_772);
    for _ in 2..100 {
        saw.next_sample(RATE);
    }
    assert_eq!(saw.value(), ONE - 100 * 167_772);
    assert_eq!(saw.next_sample(RATE), HALF);
}

#[test]
fn period_is_cut_not_rounded() {
    // 44100 / 442 is 99.77...: the period is 99.
    let mut saw = Saw::new(442_000).unwrap();
    for _ in 0..99 {
        saw.next_sample(RATE);
    }
    assert_eq!(saw.phase_count(), 99);
    assert_eq!(saw.next_sample(RATE), HALF);
}

#[test]
fn fractions_of_a_hertz_count() {
    // 44100 / 27.5 is 1603.6...; 44100 / 27 would be 1633.
    let mut saw = Saw::new(27_500).unwrap();
    for _ in 0..1603 {
        saw.next_sample(RATE);
    }
    assert_eq!(saw.phase_count(), 1603);
    assert_eq!(saw.next_sample(RATE), HALF);
    assert_eq!(saw.next_sample(RATE), HALF - ONE / 1603);
}

#[test]
fn pitch_above_the_sample_rate_holds_the_snap() {
    let mut saw = Saw::new(50_000_000).unwrap();
    for _ in 0..5 {
        assert_eq!(saw.next_sample(RATE), HALF);
        assert_eq!(saw.phase_count(), 0);
        assert_eq!(saw.value(), ONE);
    }
}

#[test]
fn zero_sample_rate_holds_the_snap() {
    let mut saw = Saw::new(440_000).unwrap();
    assert_eq!(saw.next_sample(0), HALF);
    assert_eq!(saw.next_sample(0), HALF);
}

#[test]
fn set_frequency_keeps_phase_and_ramp() {
    let mut saw = Saw::new(QUARTER).unwrap();
    saw.next_sample(RATE);
    saw.next_sample(RATE);
    saw.set_frequency(5_512_500);
    assert_eq!(saw.frequency(), 5_512_500);
    assert_eq!(saw.phase_count(), 2);
    assert_eq!(saw.value(), -8_388_608);
    // Eight samples to a ramp now: the fall is ONE / 8 from where it was.
    assert_eq!(saw.next_sample(RATE), -8_388_608 - 2_097_152 - HALF);
    assert_eq!(saw.phase_count(), 3);
}

#[test]
fn shorter_period_in_mid_cycle_snaps_at_once() {
    let mut saw = Saw::new(QUARTER).unwrap();
    saw.next_sample(RATE);
    saw.next_sample(RATE);
    saw.set_frequency(22_050_000);
    assert_eq!(saw.next_sample(RATE), HALF);
    assert_eq!(saw.phase_count(), 0);
}

#[test]
fn very_long_cycle_falls_below_the_resolution() {
    // One millihertz at 44100 Hz: 44_100_000 samples to a ramp, more than ONE.
    let mut saw = Saw::new(1).unwrap();
    assert_eq!(saw.next_sample(RATE), -HALF);
    assert_eq!(saw.next_sample(RATE), -HALF);
    assert_eq!(saw.phase_count(), 2);
    assert_eq!(saw.value(), 0);
}

#[test]
fn samples_stay_in_range_under_changing_pitch() {
    let mut saw = Saw::new(1).unwrap();
    for n in 1..2000u32 {
        // A period of n + 1 at phase n: the ramp falls by ONE / (n + 1).
        saw.set_frequency(44_100_000 / (n + 1));
        let out = saw.next_sample(RATE);
        assert!(LOWEST <= out && out <= HALF);
    }
    assert!(saw.value() < -5 * ONE);
}
