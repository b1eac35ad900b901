use vstd::prelude::*;
use crate::signal::{Signal, CENTERED_BOUND, MAX_FRAMES};

verus! {

/// A bound on the magnitude of every correlation value.
pub const CORRELATION_BOUND: i128 = 1208925819614629174706176;

/// One sample of lag, in the units in which refined lags are counted.
pub const LAG_UNIT: i64 = 65536;

/// One sample of position, in the units in which `interpolate` takes its
/// argument; interpolated values are scaled by the same factor.
pub const POSITION_UNIT: i64 = 131072;

/// The largest lag, in `1 / LAG_UNIT` samples, that the search may reach.
pub const MAX_LAG: i64 = 268435456;

/// `x / unit` rounded up, for `x >= 0`.
pub open spec fn ceil_units(x: int, unit: int) -> int {
    if x % unit == 0 {
        x / unit
    } else {
        x / unit + 1
    }
}

/// The curve at position `x / POSITION_UNIT`, linearly interpolated between
/// its neighbouring lags and scaled by `POSITION_UNIT`. Positions before the
/// start read the first value; positions whose ceiling reaches the end read
/// the last.
pub open spec fn interpolated(c: Seq<i128>, x: int) -> int {
    if x < 0 {
        c[0] * POSITION_UNIT
    } else if ceil_units(x, POSITION_UNIT as int) >= c.len() {
        c[c.len() - 1] * POSITION_UNIT
    } else {
        let k = x / POSITION_UNIT as int;
        let r = x % POSITION_UNIT as int;
        if r == 0 {
            c[k] * POSITION_UNIT
        } else {
            c[k] * (POSITION_UNIT - r) + c[k + 1] * r
        }
    }
}

/// Term `i` of the harmonic score of a lag of `period / LAG_UNIT` samples:
/// the interpolated curve at `i` half periods, weighted by `i` and signed
/// `+` for even `i`, `-` for odd `i`.
pub open spec fn harmonic_term(c: Seq<i128>, period: int, i: int) -> int {
    let t = i * interpolated(c, i * period);
    if i % 2 == 0 {
        t
    } else {
        -t
    }
}

/// The sum of the harmonic terms `1..n` of a lag. It is the score of that lag
/// scaled by `2 * POSITION_UNIT`.
pub open spec fn harmonic_score(c: Seq<i128>, period: int, n: int) -> int
    decreases n,
{
    if n <= 1 {
        0
    } else {
        harmonic_score(c, period, n - 1) + harmonic_term(c, period, n - 1)
    }
}

/// How many half periods the score of a lag covers: twice the curve's length
/// over the lag rounded up to whole samples.
pub open spec fn data_points(len: int, lag: int) -> int {
    2 * len / ceil_units(lag, LAG_UNIT as int)
}

/// The bisection search for the best lag in `[low, high]`, in
/// `1 / LAG_UNIT` samples: keep the half towards the bound that scores
/// higher, until the bracket is narrower than one step between the points
/// the score samples; then take its midpoint.
pub open spec fn refined_lag(c: Seq<i128>, low: int, high: int) -> int
    decreases high - low,
{
    let mid = (low + high) / 2;
    let n = data_points(c.len() as int, high);
    if high - low < 2 || (high - low) * n < LAG_UNIT {
        mid
    } else if harmonic_score(c, high, n) > harmonic_score(c, low, n) {
        refined_lag(c, mid, high)
    } else {
        refined_lag(c, low, mid)
    }
}

/// Whether the curve at a lag exceeds twice its own harmonic score, which
/// marks the peak as noise rather than a period.
pub open spec fn is_noise_at(c: Seq<i128>, lag: int) -> bool {
    interpolated(c, 2 * lag) > harmonic_score(c, lag, data_points(c.len() as int, lag))
}

/// The first lag at or after `k` whose value is negative, or the length.
pub open spec fn first_negative_lag(c: Seq<i128>, k: int) -> int
    decreases c.len() - k,
{
    if k < 0 || k >= c.len() {
        c.len() as int
    } else if c[k] < 0 {
        k
    } else {
        first_negative_lag(c, k + 1)
    }
}

/// Scanning lags `from..m`: the first lag holding the largest value above
/// zero, with that value; `(from, 0)` when no value is above zero.
pub open spec fn peak_scan(c: Seq<i128>, from: int, m: int) -> (int, int)
    decreases m - from,
{
    if m <= from {
        (from, 0)
    } else {
        let (i, v) = peak_scan(c, from, m - 1);
        if c[m - 1] > v {
            (m - 1, c[m - 1] as int)
        } else {
            (i, v)
        }
    }
}

/// The refined fundamental lag of a curve, in `1 / LAG_UNIT` samples, or
/// `None` when the curve never goes negative or its peak is noise. The search
/// starts from a one-sample bracket around the highest peak after the curve
/// first goes negative.
pub open spec fn fundamental_lag(c: Seq<i128>) -> Option<int> {
    let start = first_negative_lag(c, 0);
    if start >= c.len() {
        None
    } else {
        let peak = peak_scan(c, start, c.len() as int).0;
        let lag = refined_lag(c, peak * LAG_UNIT - LAG_UNIT / 2, peak * LAG_UNIT + LAG_UNIT / 2);
        if is_noise_at(c, lag) {
            None
        } else {
            Some(lag)
        }
    }
}

/// A frequency in Hz, held exactly as the fraction `numer / denom`.
#[derive(Clone, Copy, Debug, PartialEq, Eq, Structural)]
pub struct Frequency {
    pub numer: u64,
    pub denom: u64,
}

/// The pitch detected in a frame of `sample_rate` Hz whose mean-removed
/// samples are `samples` and whose curve is `c`: none for a silent frame,
/// else `sample_rate` over the fundamental lag.
pub open spec fn detected_frequency(samples: Seq<i64>, sample_rate: int, c: Seq<i128>) -> Option<
    Frequency,
> {
    if crate::signal::is_silent(samples) {
        None
    } else {
        match fundamental_lag(c) {
            Some(lag) => Some(Frequency { numer: (sample_rate * LAG_UNIT) as u64, denom: lag as u64 }),
            None => None,
        }
    }
}

/// A bound on every interpolated value of a well-formed curve.
pub open spec fn interpolated_bound() -> int {
    CORRELATION_BOUND * POSITION_UNIT
}

proof fn lemma_blend_bound(a: int, b: int, r: int)
    requires
        -CORRELATION_BOUND <= a <= CORRELATION_BOUND,
        -CORRELATION_BOUND <= b <= CORRELATION_BOUND,
        0 < r < POSITION_UNIT,
    ensures
        -interpolated_bound() <= a * (POSITION_UNIT - r) + b * r <= interpolated_bound(),
        -interpolated_bound() <= a * (POSITION_UNIT - r) <= interpolated_bound(),
        -interpolated_bound() <= b * r <= interpolated_bound(),
{
    assert(-interpolated_bound() <= a * (POSITION_UNIT - r) + b * r <= interpolated_bound())
        by (nonlinear_arith)
        requires
            -CORRELATION_BOUND <= a <= CORRELATION_BOUND,
            -CORRELATION_BOUND <= b <= CORRELATION_BOUND,
            0 < r < POSITION_UNIT,
    ;
    assert(-interpolated_bound() <= a * (POSITION_UNIT - r) <= interpolated_bound())
        by (nonlinear_arith)
        requires
            -CORRELATION_BOUND <= a <= CORRELATION_BOUND,
            0 < r < POSITION_UNIT,
    ;
    assert(-interpolated_bound() <= b * r <= interpolated_bound()) by (nonlinear_arith)
        requires
            -CORRELATION_BOUND <= b <= CORRELATION_BOUND,
            0 < r < POSITION_UNIT,
    ;
}

proof fn lemma_interpolated_bound(c: Seq<i128>, x: int)
    requires
        1 <= c.len(),
        forall|k: int| 0 <= k < c.len() ==> -CORRELATION_BOUND <= #[trigger] c[k] <= CORRELATION_BOUND,
    ensures
        -interpolated_bound() <= interpolated(c, x) <= interpolated_bound(),
{
    if x >= 0 && ceil_units(x, POSITION_UNIT as int) < c.len() {
        let k = x / POSITION_UNIT as int;
        let r = x % POSITION_UNIT as int;
        if r != 0 {
            lemma_blend_bound(c[k] as int, c[k + 1] as int, r);
        }
    }
}

/// `sum(lo <= i < hi) xs[i] * xs[i]`.
pub open spec fn square_sum(xs: Seq<i64>, lo: int, hi: int) -> int
    decreases hi - lo,
{
    if hi <= lo {
        0
    } else {
        square_sum(xs, lo, hi - 1) + xs[hi - 1] * xs[hi - 1]
    }
}

proof fn lemma_square_sum_split(xs: Seq<i64>, a: int, b: int, c: int)
    requires
        a <= b <= c,
    ensures
        square_sum(xs, a, c) == square_sum(xs, a, b) + square_sum(xs, b, c),
        square_sum(xs, b, c) >= 0,
    decreases c - b,
{
    if b < c {
        lemma_square_sum_split(xs, a, b, c - 1);
        let x = xs[c - 1] as int;
        assert(x * x >= 0) by (nonlinear_arith);
    }
}

proof fn lemma_lag_sum_within_squares(xs: Seq<i64>, k: int, m: int)
    requires
        0 <= k,
        0 <= m,
    ensures
        2 * lag_product_sum(xs, k, m) <= square_sum(xs, 0, m) + square_sum(xs, k, k + m),
        -(2 * lag_product_sum(xs, k, m)) <= square_sum(xs, 0, m) + square_sum(xs, k, k + m),
    decreases m,
{
    if m > 0 {
        lemma_lag_sum_within_squares(xs, k, m - 1);
        let a = xs[m - 1] as int;
        let b = xs[m - 1 + k] as int;
        assert(2 * (a * b) <= a * a + b * b && -(2 * (a * b)) <= a * a + b * b) by (nonlinear_arith);
    }
}

proof fn lemma_energy_is_square_sum(xs: Seq<i64>, m: int)
    requires
        0 <= m,
    ensures
        lag_product_sum(xs, 0, m) == square_sum(xs, 0, m),
    decreases m,
{
    if m > 0 {
        lemma_energy_is_square_sum(xs, m - 1);
    }
}

/// The zero-lag value, the frame's energy, bounds the autocorrelation at
/// every lag in magnitude.
pub proof fn energy_bounds_every_lag(xs: Seq<i64>, k: int)
    requires
        0 <= k < xs.len(),
    ensures
        -autocorrelation_at(xs, 0) <= autocorrelation_at(xs, k) <= autocorrelation_at(xs, 0),
{
    let n = xs.len() as int;
    let m = n - k;
    lemma_lag_sum_within_squares(xs, k, m);
    lemma_energy_is_square_sum(xs, n);
    lemma_square_sum_split(xs, 0, m, n);
    lemma_square_sum_split(xs, 0, k, n);
    lemma_square_sum_split(xs, 0, 0, k);
    assert(autocorrelation_at(xs, k) == lag_product_sum(xs, k, m));
}

/// Interpolating halfway between two adjacent lags gives the mean of their
/// values (both sides scaled by `POSITION_UNIT`).
pub proof fn interpolate_midpoint_is_mean(c: Seq<i128>, k: int)
    requires
        0 <= k,
        k + 1 < c.len(),
    ensures
        interpolated(c, k * POSITION_UNIT + POSITION_UNIT / 2) == (c[k] + c[k + 1]) * (
        POSITION_UNIT / 2),
{
    let x = k * POSITION_UNIT + POSITION_UNIT / 2;
    vstd::arithmetic::div_mod::lemma_fundamental_div_mod_converse(
        x,
        POSITION_UNIT as int,
        k,
        POSITION_UNIT / 2,
    );
    assert(x / POSITION_UNIT as int == k);
    assert(x % POSITION_UNIT as int == 65536);
    assert(ceil_units(x, POSITION_UNIT as int) == k + 1);
    assert(interpolated(c, x) == c[k] * 65536 + c[k + 1] * 65536);
}

/// `sum(i < m) xs[i] * xs[i + k]`.
pub open spec fn lag_product_sum(xs: Seq<i64>, k: int, m: int) -> int
    decreases m,
{
    if m <= 0 {
        0
    } else {
        lag_product_sum(xs, k, m - 1) + xs[m - 1] * xs[m - 1 + k]
    }
}

/// The autocorrelation of `xs` at lag `k`: the sum of the products of each
/// sample with the one `k` places ahead, over the overlapping region.
pub open spec fn autocorrelation_at(xs: Seq<i64>, k: int) -> int {
    lag_product_sum(xs, k, xs.len() - k)
}

/// The autocorrelation curve of `xs`, one value per lag `0..xs.len()`.
pub open spec fn autocorrelation_curve(xs: Seq<i64>) -> Seq<i128> {
    Seq::new(xs.len(), |k: int| autocorrelation_at(xs, k) as i128)
}

/// Whether `c` is the autocorrelation of `xs` at every lag `0..xs.len()`.
pub open spec fn is_autocorrelation_of(c: Seq<i128>, xs: Seq<i64>) -> bool {
    &&& c.len() == xs.len()
    &&& forall|k: int| 0 <= k < c.len() ==> #[trigger] c[k] == autocorrelation_at(xs, k)
}

proof fn lemma_product_bound(a: int, b: int)
    requires
        -CENTERED_BOUND <= a <= CENTERED_BOUND,
        -CENTERED_BOUND <= b <= CENTERED_BOUND,
    ensures
        -(CENTERED_BOUND * CENTERED_BOUND) <= a * b <= CENTERED_BOUND * CENTERED_BOUND,
{
    assert(-(CENTERED_BOUND * CENTERED_BOUND) <= a * b <= CENTERED_BOUND * CENTERED_BOUND)
        by (nonlinear_arith)
        requires
            -CENTERED_BOUND <= a <= CENTERED_BOUND,
            -CENTERED_BOUND <= b <= CENTERED_BOUND,
    ;
}

proof fn lemma_lag_product_sum_bound(xs: Seq<i64>, k: int, m: int)
    requires
        0 <= k,
        0 <= m,
        m + k <= xs.len(),
        forall|i: int| 0 <= i < xs.len() ==> -CENTERED_BOUND <= #[trigger] xs[i] <= CENTERED_BOUND,
    ensures
        -(m * (CENTERED_BOUND * CENTERED_BOUND)) <= lag_product_sum(xs, k, m) <= m * (
        CENTERED_BOUND * CENTERED_BOUND),
    decreases m,
{
    if m > 0 {
        lemma_lag_product_sum_bound(xs, k, m - 1);
        lemma_product_bound(xs[m - 1] as int, xs[m - 1 + k] as int);
    }
}

proof fn lemma_energy_nonnegative(xs: Seq<i64>, m: int)
    requires
        0 <= m <= xs.len(),
    ensures
        lag_product_sum(xs, 0, m) >= 0,
    decreases m,
{
    if m > 0 {
        lemma_energy_nonnegative(xs, m - 1);
        let x = xs[m - 1] as int;
        assert(x * x >= 0) by (nonlinear_arith);
    }
}

proof fn lemma_autocorrelation_wf(c: Seq<i128>, xs: Seq<i64>)
    requires
        is_autocorrelation_of(c, xs),
        1 <= xs.len() <= MAX_FRAMES,
        forall|i: int| 0 <= i < xs.len() ==> -CENTERED_BOUND <= #[trigger] xs[i] <= CENTERED_BOUND,
    ensures
        forall|k: int| 0 <= k < c.len() ==> -CORRELATION_BOUND <= #[trigger] c[k] <= CORRELATION_BOUND,
        c[0] >= 0,
{
    assert forall|k: int| 0 <= k < c.len() implies -CORRELATION_BOUND <= #[trigger] c[k]
        <= CORRELATION_BOUND by {
        let m = xs.len() - k;
        lemma_lag_product_sum_bound(xs, k, m);
        assert(m * (CENTERED_BOUND * CENTERED_BOUND) <= MAX_FRAMES * (CENTERED_BOUND
            * CENTERED_BOUND)) by (nonlinear_arith)
            requires
                0 <= m <= MAX_FRAMES,
        ;
    }
    lemma_energy_nonnegative(xs, xs.len() as int);
}

/// The autocorrelation of a frame at every lag `0..xs.len()`, by the direct
/// sliding dot product.
pub fn autocorrelation(xs: &[i64]) -> (c: Vec<i128>)
    requires
        xs@.len() <= MAX_FRAMES,
        forall|i: int| 0 <= i < xs@.len() ==> -CENTERED_BOUND <= #[trigger] xs@[i] <= CENTERED_BOUND,
    ensures
        is_autocorrelation_of(c@, xs@),
{
    let n = xs.len();
    let mut c: Vec<i128> = Vec::new();
    let mut k: usize = 0;
    while k < n
        invariant
            n == xs@.len(),
            n <= MAX_FRAMES,
            forall|i: int| 0 <= i < n ==> -CENTERED_BOUND <= #[trigger] xs@[i] <= CENTERED_BOUND,
            0 <= k <= n,
            c@.len() == k,
            forall|j: int| 0 <= j < k ==> #[trigger] c@[j] == autocorrelation_at(xs@, j),
        decreases n - k,
    {
        let mut acc: i128 = 0;
        let mut i: usize = 0;
        while i < n - k
            invariant
                n == xs@.len(),
                n <= MAX_FRAMES,
                forall|j: int| 0 <= j < n ==> -CENTERED_BOUND <= #[trigger] xs@[j] <= CENTERED_BOUND,
                0 <= k < n,
                0 <= i <= n - k,
                acc == lag_product_sum(xs@, k as int, i as int),
            decreases n - k - i,
        {
            proof {
                lemma_lag_product_sum_bound(xs@, k as int, i as int);
                lemma_product_bound(xs@[i as int] as int, xs@[i + k] as int);
                assert(i * (CENTERED_BOUND * CENTERED_BOUND) <= MAX_FRAMES * (CENTERED_BOUND
                    * CENTERED_BOUND)) by (nonlinear_arith)
                    requires
                        i <= MAX_FRAMES,
                ;
            }
            acc = acc + xs[i] as i128 * xs[i + k] as i128;
            i += 1;
        }
        c.push(acc);
        k += 1;
    }
    c
}

/// The autocorrelation curve of one frame, one value per lag.
#[derive(Clone, Debug)]
pub struct Correlation {
    pub value: Vec<i128>,
}

impl Correlation {
    /// The curve is non-empty, no longer than a frame, and within the bounds
    /// that keep its arithmetic exact.
    pub open spec fn wf(&self) -> bool {
        &&& 1 <= self.value@.len() <= MAX_FRAMES
        &&& forall|k: int|
            0 <= k < self.value@.len() ==> -CORRELATION_BOUND <= #[trigger] self.value@[k]
                <= CORRELATION_BOUND
    }

    /// The curve at position `x / POSITION_UNIT` by linear interpolation,
    /// scaled by `POSITION_UNIT`.
    pub fn interpolate(&self, x: i64) -> (r: i128)
        requires
            self.wf(),
        ensures
            r == interpolated(self.value@, x as int),
            -interpolated_bound() <= r <= interpolated_bound(),
    {
        proof {
            lemma_interpolated_bound(self.value@, x as int);
        }
        let n = self.value.len();
        let unit = POSITION_UNIT as i128;
        if x < 0 {
            return self.value[0] * unit;
        }
        let k = x / POSITION_UNIT;
        let r = x % POSITION_UNIT;
        let ceiling = if r == 0 { k } else { k + 1 };
        if ceiling >= n as i64 {
            self.value[n - 1] * unit
        } else if r == 0 {
            self.value[k as usize] * unit
        } else {
            proof {
                lemma_blend_bound(self.value@[k as int] as int, self.value@[k + 1] as int, r as int);
            }
            self.value[k as usize] * (POSITION_UNIT - r) as i128 + self.value[k as usize + 1] * r as i128
        }
    }

    /// The harmonic score of a lag of `period / LAG_UNIT` samples over the
    /// half periods `1..data_points`, scaled by `2 * POSITION_UNIT`.
    pub fn score_guess(&self, period: i64, data_points: usize) -> (r: i128)
        requires
            self.wf(),
            0 < period <= MAX_LAG,
            data_points <= 2 * MAX_FRAMES,
        ensures
            r == harmonic_score(self.value@, period as int, data_points as int),
    {
        let ghost bound = 2 * MAX_FRAMES * interpolated_bound();
        let mut acc: i128 = 0;
        let mut i: usize = 1;
        while i < data_points
            invariant
                self.wf(),
                0 < period <= MAX_LAG,
                data_points <= 2 * MAX_FRAMES,
                bound == 2 * MAX_FRAMES * interpolated_bound(),
                1 <= i,
                i <= data_points || i == 1,
                acc == harmonic_score(self.value@, period as int, i as int),
                -(i * bound) <= acc <= i * bound,
            decreases data_points - i,
        {
            assert(i * period <= 2 * MAX_FRAMES * MAX_LAG) by (nonlinear_arith)
                requires
                    i <= 2 * MAX_FRAMES,
                    0 < period <= MAX_LAG,
            ;
            let v = self.interpolate(i as i64 * period);
            assert(-bound <= i * v <= bound) by (nonlinear_arith)
                requires
                    1 <= i <= 2 * MAX_FRAMES,
                    -interpolated_bound() <= v <= interpolated_bound(),
                    bound == 2 * MAX_FRAMES * interpolated_bound(),
            ;
            assert(interpolated_bound() == 158456325028528675187087900672);
            assert(bound == 1298074214633706907132624082305024);
            assert(i * bound <= 2 * MAX_FRAMES * bound) by (nonlinear_arith)
                requires
                    i <= 2 * MAX_FRAMES,
                    bound >= 0,
            ;
            assert((i + 1) * bound <= 2 * MAX_FRAMES * bound) by (nonlinear_arith)
                requires
                    i + 1 <= 2 * MAX_FRAMES,
                    bound >= 0,
            ;
            assert((i + 1) * bound == i * bound + bound) by (nonlinear_arith);
            let t = i as i128 * v;
            if i % 2 == 0 {
                acc = acc + t;
            } else {
                acc = acc - t;
            }
            i += 1;
        }
        acc
    }

    /// The bisection search of `refined_lag` over `[low, high]`.
    pub fn refine_fundamentals(&self, low: i64, high: i64) -> (r: i64)
        requires
            self.wf(),
            0 < low < high <= MAX_LAG,
        ensures
            r == refined_lag(self.value@, low as int, high as int),
            low <= r <= high,
    {
        let n = self.value.len();
        let mut lo = low;
        let mut hi = high;
        loop
            invariant
                self.wf(),
                n == self.value@.len(),
                0 < low <= lo < hi <= high <= MAX_LAG,
                refined_lag(self.value@, lo as int, hi as int) == refined_lag(
                    self.value@,
                    low as int,
                    high as int,
                ),
            decreases hi - lo,
        {
            let mid = (lo + hi) / 2;
            let whole = hi / LAG_UNIT;
            let ceiling = if hi % LAG_UNIT == 0 { whole } else { whole + 1 };
            let points = 2 * n / (ceiling as usize);
            assert(points <= 2 * n) by (nonlinear_arith)
                requires
                    ceiling >= 1,
                    points == (2 * n) / (ceiling as int),
            ;
            let range = hi - lo;
            assert(range * points <= MAX_LAG * (2 * MAX_FRAMES)) by (nonlinear_arith)
                requires
                    0 < range <= MAX_LAG,
                    0 <= points <= 2 * MAX_FRAMES,
            ;
            if range < 2 || range as i128 * (points as i128) < LAG_UNIT as i128 {
                return mid;
            }
            let low_guess = self.score_guess(lo, points);
            let high_guess = self.score_guess(hi, points);
            if high_guess > low_guess {
                lo = mid;
            } else {
                hi = mid;
            }
        }
    }

    /// Whether the curve at `fundamental / LAG_UNIT` samples exceeds twice
    /// its harmonic score there.
    pub fn is_noise(&self, fundamental: i64) -> (r: bool)
        requires
            self.wf(),
            0 < fundamental <= MAX_LAG,
        ensures
            r == is_noise_at(self.value@, fundamental as int),
    {
        let n = self.value.len();
        let value_at_point = self.interpolate(2 * fundamental);
        let whole = fundamental / LAG_UNIT;
        let ceiling = if fundamental % LAG_UNIT == 0 { whole } else { whole + 1 };
        let points = 2 * n / (ceiling as usize);
        assert(points <= 2 * n) by (nonlinear_arith)
            requires
                ceiling >= 1,
                points == (2 * n) / (ceiling as int),
        ;
        let score = self.score_guess(fundamental, points);
        value_at_point > score
    }

    /// The fundamental frequency of the signal this curve was computed from,
    /// or `None` for a silent frame, a curve that never goes negative, or a
    /// peak that the harmonic score marks as noise.
    pub fn find_fundamental_frequency(&self, signal: &Signal) -> (r: Option<Frequency>)
        requires
            signal.wf(),
            is_autocorrelation_of(self.value@, signal.samples@),
        ensures
            r == detected_frequency(signal.samples@, signal.sample_rate as int, self.value@),
            signal.spec_is_silence() ==> r is None,
    {
        if signal.is_silence() {
            return None;
        }
        let n = self.value.len();
        proof {
            lemma_autocorrelation_wf(self.value@, signal.samples@);
        }
        let mut start: usize = 0;
        while start < n && self.value[start] >= 0
            invariant
                n == self.value@.len(),
                0 <= start <= n,
                first_negative_lag(self.value@, start as int) == first_negative_lag(self.value@, 0),
            decreases n - start,
        {
            start += 1;
        }
        if start >= n {
            return None;
        }
        let mut peak: usize = start;
        let mut peak_value: i128 = 0;
        let mut j: usize = start;
        while j < n
            invariant
                n == self.value@.len(),
                0 <= start < n,
                start <= j <= n,
                start <= peak < n,
                (peak as int, peak_value as int) == peak_scan(self.value@, start as int, j as int),
            decreases n - j,
        {
            if self.value[j] > peak_value {
                peak = j;
                peak_value = self.value[j];
            }
            j += 1;
        }
        assert(start >= 1);
        let center = peak as i64 * LAG_UNIT;
        let lag = self.refine_fundamentals(center - LAG_UNIT / 2, center + LAG_UNIT / 2);
        if self.is_noise(lag) {
            None
        } else {
            Some(Frequency { numer: signal.sample_rate as u64 * LAG_UNIT as u64, denom: lag as u64 })
        }
    }

    /// The autocorrelation of the signal's mean-removed samples.
    pub fn from_signal(signal: &Signal) -> (c: Correlation)
        requires
            signal.wf(),
        ensures
            is_autocorrelation_of(c.value@, signal.samples@),
            c.value@ == autocorrelation_curve(signal.samples@),
            signal.samples@.len() >= 1 ==> c.wf(),
    {
        let value = autocorrelation(signal.samples.as_slice());
        proof {
            assert(value@ =~= autocorrelation_curve(signal.samples@));
            if signal.samples@.len() >= 1 {
                lemma_autocorrelation_wf(value@, signal.samples@);
            }
        }
        Correlation { value }
    }
}

} // verus!
