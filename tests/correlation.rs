use rusty_microphone::correlation::{Correlation, Frequency, POSITION_UNIT};
use rusty_microphone::signal::{Signal, FULL_SCALE};
use std::f32::consts::PI;

const SAMPLE_RATE: u32 = 44100;
const FRAMES: u16 = 512;

fn frequency_resolution() -> f32 {
    SAMPLE_RATE as f32 / 2.0 / f32::from(FRAMES)
}

fn sin_arg(f: f32, t: f32) -> f32 {
    2.0 as f32 * PI * f * t
}

fn to_fixed(x: f32) -> i32 {
    (x * FULL_SCALE as f32).round() as i32
}

fn sample_sinusoid(amplitude: f32, frequency: f32) -> Signal {
    let samples: Vec<i32> = (0..FRAMES)
        .map(|x| {
            let t = f32::from(x) / SAMPLE_RATE as f32;
            to_fixed(sin_arg(frequency, t).sin() * amplitude)
        })
        .collect();
    Signal::new(&samples, SAMPLE_RATE)
}

fn hz(f: &Frequency) -> f32 {
    (f.numer as f64 / f.denom as f64) as f32
}

#[test]
fn correlation_correlation_on_sine_wave() {
    let frequency = 440.0f32;

    let signal = sample_sinusoid(1.0, frequency);
    let fundamental = Correlation::from_signal(&signal)
        .find_fundamental_frequency(&signal)
        .expect("Find fundamental returned None");
    let actual = hz(&fundamental);
    assert!(
        (actual - frequency).abs() < frequency_resolution(),
        "expected={}, actual={}",
        frequency,
        actual
    );
}

#[test]
fn correlation_interpolate_half_way() {
    let corr = Correlation { value: vec![0, 1] };
    assert_eq!(POSITION_UNIT as i128 / 2, corr.interpolate(POSITION_UNIT / 2));
}

#[test]
fn interpolate_between_lags_blends_linearly() {
    let corr = Correlation { value: vec![10, 30, -20] };
    let quarter = POSITION_UNIT / 4;
    assert_eq!(corr.interpolate(POSITION_UNIT + quarter), 30 * (3 * quarter as i128) - 20 * quarter as i128);
    assert_eq!(corr.interpolate(POSITION_UNIT), 30 * POSITION_UNIT as i128);
}

#[test]
fn interpolate_clamps_at_both_ends() {
    let corr = Correlation { value: vec![7, 3, 5] };
    assert_eq!(corr.interpolate(-1), 7 * POSITION_UNIT as i128);
    assert_eq!(corr.interpolate(-5 * POSITION_UNIT), 7 * POSITION_UNIT as i128);
    assert_eq!(corr.interpolate(2 * POSITION_UNIT), 5 * POSITION_UNIT as i128);
    assert_eq!(corr.interpolate(2 * POSITION_UNIT + 1), 5 * POSITION_UNIT as i128);
    assert_eq!(corr.interpolate(POSITION_UNIT + 1), 3 * (POSITION_UNIT as i128 - 1) + 5);
    assert_eq!(corr.interpolate(40 * POSITION_UNIT), 5 * POSITION_UNIT as i128);
}

#[test]
fn score_guess_alternates_and_weights_half_periods() {
    let corr = Correlation { value: vec![4, 2, 0, -2] };
    assert_eq!(corr.score_guess(65536, 4), -262144);
    assert_eq!(corr.score_guess(65536, 1), 0);
    assert_eq!(corr.score_guess(65536, 0), 0);
}

#[test]
fn from_signal_is_the_sliding_dot_product() {
    let signal = Signal::new(&[1, 2, 3, -6], 8000);
    assert_eq!(signal.samples, vec![4, 8, 12, -24]);
    let corr = Correlation::from_signal(&signal);
    assert_eq!(corr.value, vec![16 + 64 + 144 + 576, 32 + 96 - 288, 48 - 192, -96]);
}

#[test]
fn energy_is_the_largest_value_of_a_sine_curve() {
    let signal = sample_sinusoid(0.5, 220.0);
    let corr = Correlation::from_signal(&signal);
    assert_eq!(corr.value.len(), usize::from(FRAMES));
    assert!(corr.value.iter().all(|&v| v <= corr.value[0]));
}

#[test]
fn silent_frame_has_no_pitch() {
    let signal = sample_sinusoid(0.04, 440.0);
    assert!(signal.is_silence());
    let corr = Correlation::from_signal(&signal);
    assert_eq!(corr.find_fundamental_frequency(&signal), None);
}

#[test]
fn noisy_peak_is_rejected() {
    let raw = [
        -3720, -8219, -4003, -14636, 17645, -323, 14419, 12447, 2510, 9414, -1130, 19908, -15203,
        -12263, 13550, 7402,
    ];
    let signal = Signal::new(&raw, 44100);
    assert!(!signal.is_silence());
    let corr = Correlation::from_signal(&signal);
    assert!(corr.is_noise(679936));
    assert_eq!(corr.find_fundamental_frequency(&signal), None);
}

#[test]
fn detected_pitch_is_the_rate_over_the_refined_lag() {
    let raw = [
        1222, -10114, 5875, -16836, -15253, 15119, -13832, 3965, 18193, -16199, 13255, -5930,
        -17543, -14368, 8419, 7405,
    ];
    let signal = Signal::new(&raw, 44100);
    let corr = Correlation::from_signal(&signal);
    assert!(!corr.is_noise(194560));
    assert_eq!(
        corr.find_fundamental_frequency(&signal),
        Some(Frequency { numer: 44100 * 65536, denom: 194560 })
    );
}

#[test]
fn refinement_stays_in_its_bracket() {
    let signal = sample_sinusoid(1.0, 440.0);
    let corr = Correlation::from_signal(&signal);
    let low = 100 * 65536 - 32768;
    let high = 100 * 65536 + 32768;
    let lag = corr.refine_fundamentals(low, high);
    assert!(low <= lag && lag <= high);
    assert!(!corr.is_noise(lag));
}
