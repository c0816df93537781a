use pidaw::poly::Poly;
use pidaw::render::write_data;
use pidaw::saw::{HALF, ONE};

const RATE: u32 = 44_100;

fn engine() -> Poly {
    let mut poly = Poly::new(RATE, 2).unwrap();
    poly.new_note(11_025_000).unwrap();
    poly
}

fn first_samples(n: usize) -> Vec<i64> {
    let mut poly = engine();
    (0..n).map(|_| poly.next_sample()).collect()
}

#[test]
fn each_frame_gets_one_sample_in_every_slot() {
    let mut poly = engine();
    let mut buffer = [7i64; 6];
    write_data(&mut buffer, 2, &mut poly, |sample| sample);
    let s = first_samples(3);
    assert_eq!(s, vec![-4_194_304 - HALF, -8_388_608 - HALF, -12_582_912 - HALF]);
    assert_eq!(buffer, [s[0], s[0], s[1], s[1], s[2], s[2]]);
    assert_eq!(poly.voice(0).unwrap().saw().phase_count(), 3);
    assert_eq!(poly.voice(1).unwrap().saw().phase_count(), 3);
}

#[test]
fn mono_buffer_gets_one_sample_per_slot() {
    let mut poly = engine();
    let mut buffer = [0i64; 7];
    write_data(&mut buffer, 1, &mut poly, |sample| sample);
    assert_eq!(buffer.to_vec(), first_samples(7));
}

#[test]
fn slots_left_over_make_a_short_frame() {
    let mut poly = engine();
    let mut buffer = [0i64; 5];
    write_data(&mut buffer, 2, &mut poly, |sample| sample);
    let s = first_samples(3);
    assert_eq!(buffer, [s[0], s[0], s[1], s[1], s[2]]);
    assert_eq!(poly.voice(0).unwrap().saw().phase_count(), 3);
}

#[test]
fn frame_wider_than_the_buffer_is_one_sample() {
    let mut poly = engine();
    let mut buffer = [0i64; 3];
    write_data(&mut buffer, 8, &mut poly, |sample| sample);
    let s = first_samples(1);
    assert_eq!(buffer, [s[0], s[0], s[0]]);
    assert_eq!(poly.voice(0).unwrap().saw().phase_count(), 1);
}

#[test]
fn empty_buffer_leaves_the_engine_alone() {
    let mut poly = engine();
    let mut buffer: [i64; 0] = [];
    write_data(&mut buffer, 2, &mut poly, |sample| sample);
    assert_eq!(poly.voice(0).unwrap().saw().phase_count(), 0);
}

#[test]
fn buffers_follow_one_another() {
    let mut poly = engine();
    let mut first = [0i64; 4];
    let mut second = [0i64; 4];
    write_data(&mut first, 2, &mut poly, |sample| sample);
    write_data(&mut second, 2, &mut poly, |sample| sample);
    let s = first_samples(4);
    assert_eq!(first, [s[0], s[0], s[1], s[1]]);
    assert_eq!(second, [s[2], s[2], s[3], s[3]]);
}

#[test]
fn samples_are_converted_once_per_frame() {
    let mut poly = engine();
    let mut buffer = [0.0f32; 4];
    let calls = std::cell::Cell::new(0u32);
    write_data(&mut buffer, 2, &mut poly, |sample| {
        calls.set(calls.get() + 1);
        sample as f32 / ONE as f32
    });
    assert_eq!(calls.get(), 2);
    assert_eq!(buffer, [-0.75, -0.75, -1.0, -1.0]);
}

#[test]
fn silent_engine_renders_silence() {
    let mut poly = Poly::new(RATE, 4).unwrap();
    let mut buffer = [1i16; 8];
    write_data(&mut buffer, 2, &mut poly, |sample| (sample >> 9) as i16);
    assert_eq!(buffer, [0i16; 8]);
}
