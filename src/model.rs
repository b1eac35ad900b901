use vstd::prelude::*;
use crate::correlation::{autocorrelation_curve, Correlation, Frequency};
use crate::signal::{centered, Signal};
use crate::transforms::{frame_frequency, is_valid_frame};

verus! {

/// Everything a display shows of one analysed frame.
pub struct Model {
    /// The detected fundamental frequency, if any.
    pub fundamental_frequency: Option<Frequency>,
    /// The frame with its mean removed.
    pub signal: Signal,
    /// The autocorrelation of the mean-removed frame.
    pub correlation: Correlation,
}

impl Model {
    /// The model before any frame has arrived: no samples and no pitch.
    pub fn new() -> (m: Model)
        ensures
            m.fundamental_frequency is None,
            m.signal.wf(),
            m.signal.samples@.len() == 0,
            m.correlation.value@.len() == 0,
    {
        Model { fundamental_frequency: None, signal: Signal::empty(), correlation: Correlation { value: Vec::new() } }
    }

    /// Analyses one frame of raw samples taken at `sample_rate` Hz.
    pub fn from_signal(samples: &[i32], sample_rate: u32) -> (m: Model)
        requires
            is_valid_frame(samples@),
            sample_rate > 0,
        ensures
            m.signal.wf(),
            m.signal.sample_rate == sample_rate,
            m.signal.samples@ == centered(samples@),
            m.correlation.wf(),
            m.correlation.value@ == autocorrelation_curve(centered(samples@)),
            m.fundamental_frequency == frame_frequency(samples@, sample_rate as int),
    {
        let signal = Signal::new(samples, sample_rate);
        let correlation = Correlation::from_signal(&signal);
        let fundamental_frequency = correlation.find_fundamental_frequency(&signal);
        Model { fundamental_frequency, signal, correlation }
    }
}

} // verus!
