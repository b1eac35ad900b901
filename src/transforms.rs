use vstd::prelude::*;
use crate::correlation::{
    autocorrelation,
    autocorrelation_curve,
    detected_frequency,
    is_autocorrelation_of,
    Correlation,
    Frequency,
};
use crate::signal::{centered, is_silent, rising_edge, Signal, MAX_FRAMES, MAX_SAMPLE};

verus! {

/// Whether a frame of raw samples can be analysed: it is non-empty, no
/// longer than `MAX_FRAMES`, and every sample is within `MAX_SAMPLE`.
pub open spec fn is_valid_frame(raw: Seq<i32>) -> bool {
    &&& 1 <= raw.len() <= MAX_FRAMES
    &&& forall|i: int| 0 <= i < raw.len() ==> -MAX_SAMPLE <= #[trigger] raw[i] <= MAX_SAMPLE
}

/// The pitch of a frame of raw samples taken at `sample_rate` Hz: the
/// detection run on its mean-removed samples and their autocorrelation.
pub open spec fn frame_frequency(raw: Seq<i32>, sample_rate: int) -> Option<Frequency> {
    detected_frequency(
        centered(raw),
        sample_rate,
        autocorrelation_curve(centered(raw)),
    )
}

/// The raw samples widened to `i64`.
pub open spec fn widened(raw: Seq<i32>) -> Seq<i64> {
    Seq::new(raw.len(), |i: int| raw[i] as i64)
}

/// The autocorrelation of raw samples, as they are, without removing their
/// mean.
pub fn correlation(signal: &[i32]) -> (r: Vec<i128>)
    requires
        signal@.len() <= MAX_FRAMES,
        forall|i: int| 0 <= i < signal@.len() ==> -MAX_SAMPLE <= #[trigger] signal@[i] <= MAX_SAMPLE,
    ensures
        is_autocorrelation_of(r@, widened(signal@)),
{
    let n = signal.len();
    let mut wide: Vec<i64> = Vec::new();
    let mut i: usize = 0;
    while i < n
        invariant
            n == signal@.len(),
            0 <= i <= n,
            wide@ == widened(signal@).subrange(0, i as int),
        decreases n - i,
    {
        wide.push(signal[i] as i64);
        i += 1;
        assert(wide@ =~= widened(signal@).subrange(0, i as int));
    }
    assert(wide@ =~= widened(signal@));
    autocorrelation(wide.as_slice())
}

/// The fundamental frequency of a frame of raw samples taken at
/// `sample_rate` Hz, or `None` when it has no detectable pitch.
pub fn find_fundamental_frequency(signal: &[i32], sample_rate: u32) -> (r: Option<Frequency>)
    requires
        is_valid_frame(signal@),
        sample_rate > 0,
    ensures
        r == frame_frequency(signal@, sample_rate as int),
        is_silent(centered(signal@)) ==> r is None,
{
    let normalized = Signal::new(signal, sample_rate);
    let c = Correlation::from_signal(&normalized);
    c.find_fundamental_frequency(&normalized)
}

/// The mean-removed samples of a frame from its first rising edge on, or
/// all of them when it has none.
pub fn align_to_rising_edge(samples: &[i32]) -> (r: Vec<i64>)
    requires
        is_valid_frame(samples@),
    ensures
        r@ == centered(samples@).subrange(
            rising_edge(centered(samples@)),
            samples@.len() as int,
        ),
{
    let normalized = Signal::new(samples, 1);
    vstd::slice::slice_to_vec(normalized.aligned_to_rising_edge())
}

} // verus!
