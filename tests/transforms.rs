use rusty_microphone::correlation::{Correlation, Frequency, POSITION_UNIT};
use rusty_microphone::pitch::Pitch;
use rusty_microphone::signal::FULL_SCALE;
use rusty_microphone::transforms::{align_to_rising_edge, correlation, find_fundamental_frequency};
use std::f32::consts::PI;

const SAMPLE_RATE: u32 = 44100;
const FRAMES: usize = 512;

fn frequency_resolution() -> f32 {
    SAMPLE_RATE as f32 / 2.0 / FRAMES as f32
}

fn sin_arg(f: f32, t: f32, phase: f32) -> f32 {
    2.0 as f32 * PI * f * t + phase
}

fn sample_sinusoud(amplitude: f32, frequency: f32, phase: f32) -> Vec<f32> {
    (0..FRAMES)
        .map(|x| {
            let t = x as f32 / SAMPLE_RATE as f32;
            sin_arg(frequency, t, phase).sin() * amplitude
        })
        .collect()
}

fn to_fixed(samples: &[f32]) -> Vec<i32> {
    samples.iter().map(|x| (x * FULL_SCALE as f32).round() as i32).collect()
}

fn hz(f: &Frequency) -> f32 {
    (f.numer as f64 / f.denom as f64) as f32
}

fn hz_to_pitch(hz: f32) -> String {
    let cents = ((69.0 + 12.0 * (hz / 440.0).log2()) * 100.0).round() as i64;
    Pitch::new(cents).name()
}

/// A small deterministic generator of uniform noise in [-1, 1).
fn noise(seed: u64, len: usize) -> Vec<f32> {
    let mut state = seed;
    (0..len)
        .map(|_| {
            state = state.wrapping_mul(6364136223846793005).wrapping_add(1442695040888963407);
            ((state >> 40) as f32 / (1u64 << 24) as f32) * 2.0 - 1.0
        })
        .collect()
}

#[test]
fn transforms_correlation_on_sine_wave() {
    let frequency = 440.0 as f32;

    let samples = to_fixed(&sample_sinusoud(1.0, frequency, 0.0));
    let fundamental = find_fundamental_frequency(&samples, SAMPLE_RATE).expect("Find fundamental returned None");
    let actual = hz(&fundamental);
    assert!((actual - frequency).abs() < frequency_resolution(), "expected={}, actual={}", frequency, actual);
}

#[test]
fn correlation_on_two_sine_waves() {
    let samples1a = sample_sinusoud(2.0, 440.0, 0.0);
    let samples2a = sample_sinusoud(1.0, 880.0, 0.0);
    let expected_fundamental = 440.0;

    let samples: Vec<f32> = samples1a.iter().zip(samples2a.iter()).map(|(a, b)| a + b).collect();

    let fundamental = find_fundamental_frequency(&to_fixed(&samples), SAMPLE_RATE).expect("Find fundamental returned None");
    let actual = hz(&fundamental);

    assert!(
        (actual - expected_fundamental).abs() < frequency_resolution(),
        "expected_fundamental={}, actual={}",
        expected_fundamental,
        actual
    );
}

#[test]
fn transforms_interpolate_half_way() {
    let corr = Correlation { value: vec![0, 1] };
    assert_eq!(POSITION_UNIT as i128 / 2, corr.interpolate(POSITION_UNIT / 2))
}

#[test]
fn transforms_a4_is_correct() {
    assert_eq!(hz_to_pitch(440.0), "A 4");
}

#[test]
fn transforms_a2_is_correct() {
    assert_eq!(hz_to_pitch(110.0), "A 2");
}

#[test]
fn transforms_c4_is_correct() {
    assert_eq!(hz_to_pitch(261.63), "C 4");
}

#[test]
fn transforms_f5_is_correct() {
    assert_eq!(hz_to_pitch(698.46), "F 5");
}

#[test]
fn sine_waves_across_the_range_are_found() {
    for frequency in [110.0f32, 220.0, 330.0, 523.25, 880.0] {
        let samples = to_fixed(&sample_sinusoud(0.8, frequency, 0.3));
        let fundamental = find_fundamental_frequency(&samples, SAMPLE_RATE).expect("no pitch");
        let actual = hz(&fundamental);
        assert!((actual - frequency).abs() < frequency_resolution(), "expected={}, actual={}", frequency, actual);
    }
}

#[test]
fn silent_buffer_has_no_pitch() {
    let quiet = to_fixed(&sample_sinusoud(0.04, 440.0, 0.0));
    assert_eq!(find_fundamental_frequency(&quiet, SAMPLE_RATE), None);
    assert_eq!(find_fundamental_frequency(&vec![0; FRAMES], SAMPLE_RATE), None);
    let small_noise: Vec<f32> = noise(3, FRAMES).iter().map(|x| x * 0.02).collect();
    assert_eq!(find_fundamental_frequency(&to_fixed(&small_noise), SAMPLE_RATE), None);
}

#[test]
fn dc_offset_does_not_change_the_pitch() {
    let plain = to_fixed(&sample_sinusoud(1.0, 440.0, 0.0));
    let shifted: Vec<i32> = plain.iter().map(|x| x + 16384).collect();
    assert_eq!(
        find_fundamental_frequency(&plain, SAMPLE_RATE),
        find_fundamental_frequency(&shifted, SAMPLE_RATE)
    );
}

#[test]
fn raw_correlation_keeps_the_mean() {
    assert_eq!(correlation(&[1, 2, 3]), vec![14, 8, 3]);
    assert_eq!(correlation(&[]), Vec::<i128>::new());
}

#[test]
fn align_to_rising_edge_matches_the_signal() {
    assert_eq!(align_to_rising_edge(&[2, -3, -1, 1, 1]), vec![5, 5]);
    assert_eq!(align_to_rising_edge(&[1, -1]), vec![2, -2]);
}
