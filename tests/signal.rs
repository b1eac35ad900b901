use rusty_microphone::signal::Signal;

#[test]
fn new_removes_the_mean_scaled_by_length() {
    let signal = Signal::new(&[1, 2, 3], 44100);
    assert_eq!(signal.samples, vec![-3, 0, 3]);
    assert_eq!(signal.samples.iter().sum::<i64>(), 0);
    assert_eq!(signal.sample_rate, 44100);
}

#[test]
fn constant_frame_becomes_silence() {
    let signal = Signal::new(&[20000, 20000, 20000, 20000], 44100);
    assert_eq!(signal.samples, vec![0, 0, 0, 0]);
    assert!(signal.is_silence());
}

#[test]
fn empty_signal_is_silent() {
    let signal = Signal::empty();
    assert!(signal.samples.is_empty());
    assert_eq!(signal.sample_rate, 44100);
    assert!(signal.is_silence());
}

#[test]
fn silence_threshold_is_five_hundredths_of_full_scale() {
    assert!(Signal::new(&[1638, -1638], 44100).is_silence());
    assert!(!Signal::new(&[1639, -1639], 44100).is_silence());
}

#[test]
fn aligned_to_rising_edge_skips_to_the_first_rise() {
    let signal = Signal::new(&[2, -3, -1, 1, 1], 44100);
    assert_eq!(signal.samples, vec![10, -15, -5, 5, 5]);
    assert_eq!(signal.aligned_to_rising_edge(), &[5, 5][..]);
}

#[test]
fn aligned_to_rising_edge_starting_negative() {
    let signal = Signal::new(&[-1, 1], 44100);
    assert_eq!(signal.aligned_to_rising_edge(), &[2][..]);
}

#[test]
fn aligned_to_rising_edge_without_a_rise_keeps_everything() {
    let signal = Signal::new(&[1, -1], 44100);
    assert_eq!(signal.aligned_to_rising_edge(), &[2, -2][..]);
    let flat = Signal::new(&[5, 5, 5], 44100);
    assert_eq!(flat.aligned_to_rising_edge(), &[0, 0, 0][..]);
}
