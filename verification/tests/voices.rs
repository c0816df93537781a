use pidaw::error::SynthError;
use pidaw::saw::HALF;
use pidaw::voice::Voice;

#[test]
fn new_voice_is_silent_and_at_rest() {
    let voice = Voice::new(330_000).unwrap();
    assert!(!voice.is_active());
    assert_eq!(voice.frequency(), 330_000);
    assert_eq!(voice.saw().frequency(), 330_000);
    assert_eq!(voice.saw().phase_count(), 0);
    assert_eq!(voice.saw().value(), 0);
}

#[test]
fn new_voice_refuses_zero_frequency() {
    assert_eq!(Voice::new(0).unwrap_err(), SynthError::ZeroFrequency);
}

#[test]
fn note_on_and_off_switch_at_once() {
    let mut voice = Voice::new(330_000).unwrap();
    voice.note_on();
    assert!(voice.is_active());
    voice.note_on();
    assert!(voice.is_active());
    voice.note_off();
    assert!(!voice.is_active());
    assert_eq!(voice.frequency(), 330_000);
    assert_eq!(voice.saw().phase_count(), 0);
}

#[test]
fn set_freq_reaches_the_oscillator_and_keeps_the_phase() {
    let mut voice = Voice::new(11_025_000).unwrap();
    voice.note_on();
    voice.next_sample(44_100);
    voice.next_sample(44_100);
    voice.set_freq(5_512_500);
    assert_eq!(voice.frequency(), 5_512_500);
    assert_eq!(voice.saw().frequency(), 5_512_500);
    assert_eq!(voice.saw().phase_count(), 2);
    assert_eq!(voice.saw().value(), -8_388_608);
    assert!(voice.is_active());
}

#[test]
fn silent_voice_adds_nothing_but_runs_on() {
    let mut voice = Voice::new(11_025_000).unwrap();
    assert_eq!(voice.next_sample(44_100), 0);
    assert_eq!(voice.next_sample(44_100), 0);
    assert_eq!(voice.saw().phase_count(), 2);
    assert_eq!(voice.saw().value(), -8_388_608);
}

#[test]
fn sounding_voice_adds_its_oscillator() {
    let mut voice = Voice::new(11_025_000).unwrap();
    voice.note_on();
    assert_eq!(voice.next_sample(44_100), -4_194_304 - HALF);
    assert_eq!(voice.next_sample(44_100), -8_388_608 - HALF);
}

#[test]
fn voice_resumes_from_the_drifted_phase() {
    let mut voice = Voice::new(11_025_000).unwrap();
    for _ in 0..6 {
        voice.next_sample(44_100);
    }
    // Five samples made one cycle; the sixth was the first fall of the next.
    assert_eq!(voice.saw().phase_count(), 1);
    voice.note_on();
    assert_eq!(voice.next_sample(44_100), 0);
    assert_eq!(voice.saw().phase_count(), 2);
}
