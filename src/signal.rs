use vstd::prelude::*;

verus! {

/// The sample value that stands for an amplitude of 1.0.
pub const FULL_SCALE: i64 = 32768;

/// The largest magnitude an input sample may have (an amplitude of 32.0).
pub const MAX_SAMPLE: i32 = 1048576;

/// The largest number of samples in one frame.
pub const MAX_FRAMES: usize = 4096;

/// A bound on the magnitude of every mean-removed sample.
pub const CENTERED_BOUND: i64 = 8589934592;

/// The sum of a sequence of raw samples.
pub open spec fn sum_of(xs: Seq<i32>) -> int
    decreases xs.len(),
{
    if xs.len() == 0 {
        0
    } else {
        sum_of(xs.drop_last()) + xs.last()
    }
}

/// The sum of a sequence of mean-removed samples.
pub open spec fn centered_sum(zs: Seq<i64>) -> int
    decreases zs.len(),
{
    if zs.len() == 0 {
        0
    } else {
        centered_sum(zs.drop_last()) + zs.last()
    }
}

/// Sample `i` of `xs` with the mean removed, scaled by the number of samples:
/// `n * (x[i] - mean) == n * x[i] - sum`, which is an exact integer.
pub open spec fn centered_at(xs: Seq<i32>, i: int) -> int {
    xs.len() * xs[i] - sum_of(xs)
}

/// The mean-removed samples of a frame, each scaled by the frame's length.
pub open spec fn centered(xs: Seq<i32>) -> Seq<i64> {
    Seq::new(xs.len(), |i: int| centered_at(xs, i) as i64)
}

/// `xs` with `d` added to every sample.
pub open spec fn shifted(xs: Seq<i32>, d: int) -> Seq<i32> {
    Seq::new(xs.len(), |i: int| (xs[i] + d) as i32)
}

proof fn lemma_sum_of_shifted(xs: Seq<i32>, d: int)
    requires
        forall|i: int| 0 <= i < xs.len() ==> i32::MIN <= #[trigger] xs[i] + d <= i32::MAX,
    ensures
        sum_of(shifted(xs, d)) == sum_of(xs) + xs.len() * d,
    decreases xs.len(),
{
    if xs.len() > 0 {
        let init = xs.drop_last();
        assert(shifted(xs, d).drop_last() =~= shifted(init, d));
        lemma_sum_of_shifted(init, d);
        assert(xs.len() * d == init.len() * d + d) by (nonlinear_arith)
            requires
                xs.len() == init.len() + 1,
        ;
    }
}

/// Adding the same offset to every raw sample leaves the mean-removed frame
/// unchanged.
pub proof fn offset_does_not_change_centered(xs: Seq<i32>, d: int)
    requires
        forall|i: int| 0 <= i < xs.len() ==> i32::MIN <= #[trigger] xs[i] + d <= i32::MAX,
    ensures
        centered(shifted(xs, d)) == centered(xs),
{
    lemma_sum_of_shifted(xs, d);
    let n = xs.len();
    assert forall|i: int| 0 <= i < n implies #[trigger] centered_at(shifted(xs, d), i) == centered_at(
        xs,
        i,
    ) by {
        assert(n * (xs[i] + d) == n * xs[i] + n * d) by (nonlinear_arith);
    }
    assert(centered(shifted(xs, d)) =~= centered(xs));
}

/// Whether a mean-removed sample of a frame of `n` samples stays below
/// 0.05 of full scale: `|z / n| < FULL_SCALE / 20`.
pub open spec fn is_quiet(z: int, n: int) -> bool {
    20 * (if z < 0 { -z } else { z }) < FULL_SCALE * n
}

/// Whether every sample of a mean-removed frame is quiet.
pub open spec fn is_silent(zs: Seq<i64>) -> bool {
    forall|i: int| 0 <= i < zs.len() ==> is_quiet(#[trigger] zs[i] as int, zs.len() as int)
}

/// The first index at or after `k` whose sample is negative, or the length.
pub open spec fn first_negative_from(zs: Seq<i64>, k: int) -> int
    decreases zs.len() - k,
{
    if k < 0 || k >= zs.len() {
        zs.len() as int
    } else if zs[k] < 0 {
        k
    } else {
        first_negative_from(zs, k + 1)
    }
}

/// The first index at or after `k` whose sample is not negative, or the length.
pub open spec fn first_nonnegative_from(zs: Seq<i64>, k: int) -> int
    decreases zs.len() - k,
{
    if k < 0 || k >= zs.len() {
        zs.len() as int
    } else if zs[k] >= 0 {
        k
    } else {
        first_nonnegative_from(zs, k + 1)
    }
}

/// Where the waveform first rises from negative to non-negative: past the
/// leading non-negative run and the negative run after it. Zero when the
/// signal has no such edge.
pub open spec fn rising_edge(zs: Seq<i64>) -> int {
    let edge = first_nonnegative_from(zs, first_negative_from(zs, 0));
    if edge < zs.len() {
        edge
    } else {
        0
    }
}

/// One frame of audio with its mean removed.
///
/// `samples[i]` is `n * (x[i] - mean)` for the `n` raw samples `x` the frame
/// was built from, so it holds exactly, and its real amplitude is
/// `samples[i] / (n * FULL_SCALE)`.
#[derive(Clone, Debug)]
pub struct Signal {
    pub samples: Vec<i64>,
    pub sample_rate: u32,
}

impl Signal {
    /// The frame is small enough for exact arithmetic, has zero mean, and
    /// has a positive sample rate.
    pub open spec fn wf(&self) -> bool {
        &&& self.samples@.len() <= MAX_FRAMES
        &&& forall|i: int|
            0 <= i < self.samples@.len() ==> -CENTERED_BOUND <= #[trigger] self.samples@[i]
                <= CENTERED_BOUND
        &&& centered_sum(self.samples@) == 0
        &&& self.sample_rate > 0
    }

    /// Whether the frame is quiet throughout.
    pub open spec fn spec_is_silence(&self) -> bool {
        is_silent(self.samples@)
    }

    /// A frame with no samples at 44100 Hz.
    pub fn empty() -> (s: Signal)
        ensures
            s.wf(),
            s.samples@.len() == 0,
            s.sample_rate == 44100,
    {
        Signal { samples: Vec::new(), sample_rate: 44100 }
    }

    /// Builds a frame from raw samples, removing their mean.
    pub fn new(raw: &[i32], sample_rate: u32) -> (s: Signal)
        requires
            1 <= raw@.len() <= MAX_FRAMES,
            forall|i: int| 0 <= i < raw@.len() ==> -MAX_SAMPLE <= #[trigger] raw@[i] <= MAX_SAMPLE,
            sample_rate > 0,
        ensures
            s.wf(),
            s.sample_rate == sample_rate,
            s.samples@.len() == raw@.len(),
            forall|i: int| 0 <= i < raw@.len() ==> #[trigger] s.samples@[i] == centered_at(raw@, i),
            s.samples@ == centered(raw@),
    {
        let n = raw.len();
        let mut total: i64 = 0;
        let mut i: usize = 0;
        while i < n
            invariant
                n == raw@.len(),
                n <= MAX_FRAMES,
                forall|j: int| 0 <= j < n ==> -MAX_SAMPLE <= #[trigger] raw@[j] <= MAX_SAMPLE,
                0 <= i <= n,
                total == sum_of(raw@.subrange(0, i as int)),
                -(i * MAX_SAMPLE) <= total <= i * MAX_SAMPLE,
            decreases n - i,
        {
            assert(raw@.subrange(0, i + 1).drop_last() =~= raw@.subrange(0, i as int));
            total = total + raw[i] as i64;
            i += 1;
        }
        assert(raw@.subrange(0, n as int) =~= raw@);
        let mut samples: Vec<i64> = Vec::new();
        let mut i: usize = 0;
        while i < n
            invariant
                n == raw@.len(),
                1 <= n <= MAX_FRAMES,
                forall|j: int| 0 <= j < n ==> -MAX_SAMPLE <= #[trigger] raw@[j] <= MAX_SAMPLE,
                total == sum_of(raw@),
                -(n * MAX_SAMPLE) <= total <= n * MAX_SAMPLE,
                0 <= i <= n,
                samples@.len() == i,
                forall|j: int| 0 <= j < i ==> #[trigger] samples@[j] == centered_at(raw@, j),
                forall|j: int|
                    0 <= j < i ==> -CENTERED_BOUND <= #[trigger] samples@[j] <= CENTERED_BOUND,
                centered_sum(samples@) == n * sum_of(raw@.subrange(0, i as int)) - i * total,
            decreases n - i,
        {
            let x = raw[i];
            assert(-(MAX_FRAMES * MAX_SAMPLE) <= n * x <= MAX_FRAMES * MAX_SAMPLE) by (nonlinear_arith)
                requires
                    1 <= n <= MAX_FRAMES,
                    -MAX_SAMPLE <= x <= MAX_SAMPLE,
            ;
            let z: i64 = n as i64 * x as i64 - total;
            let ghost before = samples@;
            samples.push(z);
            proof {
                let prefix = raw@.subrange(0, i as int);
                let longer = raw@.subrange(0, i + 1);
                assert(longer.drop_last() =~= prefix);
                assert(samples@.drop_last() =~= before);
                let a = sum_of(prefix);
                assert(n * (a + x) - (i + 1) * total == (n * a - i * total) + (n * x - total))
                    by (nonlinear_arith);
            }
            i += 1;
        }
        proof {
            assert(raw@.subrange(0, n as int) =~= raw@);
            assert(n * total - n * total == 0) by (nonlinear_arith);
            assert(samples@ =~= centered(raw@));
        }
        Signal { samples, sample_rate }
    }

    /// The samples from the first rising edge on: past the leading
    /// non-negative run and the negative run after it. The whole frame when
    /// there is no such edge.
    pub fn aligned_to_rising_edge(&self) -> (r: &[i64])
        ensures
            r@ == self.samples@.subrange(rising_edge(self.samples@), self.samples@.len() as int),
    {
        let n = self.samples.len();
        let mut i: usize = 0;
        while i < n && self.samples[i] >= 0
            invariant
                n == self.samples@.len(),
                0 <= i <= n,
                first_negative_from(self.samples@, i as int) == first_negative_from(
                    self.samples@,
                    0,
                ),
            decreases n - i,
        {
            i += 1;
        }
        let ghost after_positive = i as int;
        while i < n && self.samples[i] < 0
            invariant
                n == self.samples@.len(),
                0 <= i <= n,
                after_positive == first_negative_from(self.samples@, 0),
                first_nonnegative_from(self.samples@, i as int) == first_nonnegative_from(
                    self.samples@,
                    after_positive,
                ),
            decreases n - i,
        {
            i += 1;
        }
        let start = if i < n { i } else { 0 };
        vstd::slice::slice_subrange(self.samples.as_slice(), start, n)
    }

    /// Whether every sample is below 0.05 of full scale in magnitude.
    pub fn is_silence(&self) -> (r: bool)
        requires
            self.wf(),
        ensures
            r == self.spec_is_silence(),
    {
        let n = self.samples.len();
        let limit: i64 = FULL_SCALE * n as i64;
        let mut i: usize = 0;
        while i < n
            invariant
                self.wf(),
                n == self.samples@.len(),
                limit == FULL_SCALE * n,
                0 <= i <= n,
                forall|j: int| 0 <= j < i ==> is_quiet(#[trigger] self.samples@[j] as int, n as int),
            decreases n - i,
        {
            let z = self.samples[i];
            let magnitude: i64 = if z < 0 { -z } else { z };
            if 20 * magnitude >= limit {
                return false;
            }
            i += 1;
        }
        true
    }
}

} // verus!
