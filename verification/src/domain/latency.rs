//! Round-trip latency estimation from a loopback capture split into one
//! chunk per emitted impulse (the meter emits one per window).
//!
//! Samples are handled as the raw IEEE-754 bit patterns of `f32` values
//! (`f32::to_bits`).  The estimator only ever compares sample magnitudes,
//! and for non-NaN `f32` values the order of magnitudes is exactly the order
//! of their bit patterns with the sign bit cleared; NaN samples (magnitude
//! bits above those of infinity) never compare greater than anything and are
//! skipped.  The conversion of the resulting lag to milliseconds happens
//! where the sample rate is known.
use vstd::prelude::*;
use vstd::relations::{sorted_by, total_ordering};
use vstd::seq_lib::{lemma_sorted_unique, to_multiset_update};

use crate::domain::error::DomainError;

verus! {

/// Minimum lag (in samples) to skip at the start of each chunk when searching
/// for the peak.  Skipping the first few samples avoids DC/click artifacts that
/// could be mistaken for an impulse echo.
pub const DEFAULT_MIN_LAG_SAMPLES: usize = 16;

/// Maximum number of impulses (chunks) supported by [`measure_latency_lag`].
pub const MAX_IMPULSES: usize = 8;

/// Bit pattern of the `f32` value `1e-6`: a chunk whose strongest sample is
/// quieter than this is treated as silent.
pub const PEAK_FLOOR_BITS: u32 = 0x3586_37bd;

/// Mask that clears the sign bit of an `f32` bit pattern.
pub const MAGNITUDE_MASK: u32 = 0x7fff_ffff;

/// Bit pattern of `f32::INFINITY`; magnitudes above it are NaN.
pub const INFINITY_BITS: u32 = 0x7f80_0000;

/// Magnitude of a sample: its bit pattern with the sign bit cleared.
pub open spec fn magnitude(bits: u32) -> u32 {
    bits & 0x7fff_ffffu32
}

/// The sample is a number (finite or infinite), not a NaN.
pub open spec fn is_number(bits: u32) -> bool {
    magnitude(bits) <= 0x7f80_0000u32
}

/// The sample is a number at least as loud as the silence floor.
pub open spec fn is_audible(bits: u32) -> bool {
    is_number(bits) && magnitude(bits) >= PEAK_FLOOR_BITS
}

/// `lag` is the first position, within the search window `[lo, chunk.len())`,
/// of the strongest non-NaN sample of `chunk`.
pub open spec fn is_first_peak(chunk: Seq<u32>, lo: int, lag: int) -> bool {
    &&& lo <= lag < chunk.len()
    &&& is_number(chunk[lag])
    &&& forall|j: int|
        lo <= j < chunk.len() && is_number(#[trigger] chunk[j]) ==> magnitude(chunk[j])
            <= magnitude(chunk[lag])
    &&& forall|j: int|
        lo <= j < lag && is_number(#[trigger] chunk[j]) ==> magnitude(chunk[j]) < magnitude(
            chunk[lag],
        )
}

/// No sample of the search window `[lo, chunk.len())` is audible.
pub open spec fn chunk_silent(chunk: Seq<u32>, lo: int) -> bool {
    forall|j: int| lo <= j < chunk.len() ==> !is_audible(#[trigger] chunk[j])
}

/// The peak lag of a chunk (meaningful when the chunk is not silent).
pub open spec fn chunk_lag(chunk: Seq<u32>, lo: int) -> int {
    choose|lag: int| is_first_peak(chunk, lo, lag)
}

/// Chunk `k` of the loopback, each chunk `chunk_len` samples long.
pub open spec fn chunk_of(s: Seq<u32>, chunk_len: int, k: int) -> Seq<u32> {
    s.subrange(k * chunk_len, k * chunk_len + chunk_len)
}

/// The peak lag of each of the `n` chunks, in chunk order.
pub open spec fn chunk_lags(s: Seq<u32>, n: int, chunk_len: int, lo: int) -> Seq<int> {
    Seq::new(n as nat, |k: int| chunk_lag(chunk_of(s, chunk_len, k), lo))
}

/// Some chunk among the first `n` is silent.
pub open spec fn any_chunk_silent(s: Seq<u32>, n: int, chunk_len: int, lo: int) -> bool {
    exists|k: int| 0 <= k < n && chunk_silent(#[trigger] chunk_of(s, chunk_len, k), lo)
}

/// Median of an ascending sequence: the middle element, or the (floored)
/// mean of the two middle elements for an even length.
pub open spec fn median_of(sorted: Seq<int>) -> int {
    let n = sorted.len() as int;
    if n % 2 == 1 {
        sorted[n / 2]
    } else {
        (sorted[n / 2 - 1] + sorted[n / 2]) / 2
    }
}

/// Agreement tolerance around a median lag: a tenth of it, at least 2 samples.
pub open spec fn tolerance_for(median: int) -> int {
    if median / 10 >= 2 {
        median / 10
    } else {
        2
    }
}

/// Distance between two integers.
pub open spec fn distance(a: int, b: int) -> int {
    if a >= b {
        a - b
    } else {
        b - a
    }
}

/// Number of elements of `s` within `tol` of `m`.
pub open spec fn count_close(s: Seq<int>, m: int, tol: int) -> nat
    decreases s.len(),
{
    if s.len() == 0 {
        0
    } else {
        count_close(s.drop_last(), m, tol) + if distance(s.last(), m) <= tol {
            1nat
        } else {
            0nat
        }
    }
}

/// Strict-majority threshold for `n` chunks.
pub open spec fn required_agreement(n: int) -> int {
    n / 2 + 1
}

/// What the estimator returns, in samples: the median per-chunk peak lag
/// minus the ring latency (saturating at zero), provided a strict majority
/// of chunks agree with the median.
pub open spec fn spec_measure_lag(s: Seq<u32>, n: int, lo: int, ring: int) -> Result<
    int,
    DomainError,
> {
    if n <= 0 || n > MAX_IMPULSES {
        Err(DomainError::LoopbackTooShort)
    } else if (s.len() as int) / n <= lo {
        Err(DomainError::LoopbackTooShort)
    } else if any_chunk_silent(s, n, (s.len() as int) / n, lo) {
        Err(DomainError::LatencyNoPeak)
    } else {
        let sorted = chunk_lags(s, n, (s.len() as int) / n, lo).sort();
        let m = median_of(sorted);
        if count_close(sorted, m, tolerance_for(m)) < required_agreement(n) {
            Err(DomainError::LatencyNoPeak)
        } else if m > ring {
            Ok(m - ring)
        } else {
            Ok(0)
        }
    }
}

/// Two first peaks of the same window are the same position.
pub proof fn lemma_first_peak_unique(chunk: Seq<u32>, lo: int, a: int, b: int)
    requires
        is_first_peak(chunk, lo, a),
        is_first_peak(chunk, lo, b),
    ensures
        a == b,
{
    assert(magnitude(chunk[a]) <= magnitude(chunk[b]));
    assert(magnitude(chunk[b]) <= magnitude(chunk[a]));
    if a < b {
        assert(magnitude(chunk[a]) < magnitude(chunk[b]));
    } else if b < a {
        assert(magnitude(chunk[b]) < magnitude(chunk[a]));
    }
}

/// Locate the first strongest sample in `loopback[start + lo .. start + chunk_len]`.
/// Returns `None` when the chunk is silent.
fn chunk_peak(loopback: &[u32], start: usize, chunk_len: usize, lo: usize) -> (r: Option<usize>)
    requires
        start + chunk_len <= loopback@.len(),
        lo < chunk_len,
    ensures
        r is None <==> chunk_silent(loopback@.subrange(start as int, start + chunk_len), lo as int),
        r matches Some(l) ==> is_first_peak(
            loopback@.subrange(start as int, start + chunk_len),
            lo as int,
            l as int,
        ),
{
    let ghost c = loopback@.subrange(start as int, start + chunk_len);
    let total = loopback.len();
    let mut best_lag: usize = lo;
    let mut best_amp: u32 = 0;
    let mut lag: usize = lo;
    while lag < chunk_len
        invariant
            lo <= lag <= chunk_len,
            total == loopback@.len(),
            start + chunk_len <= loopback@.len(),
            c == loopback@.subrange(start as int, start + chunk_len),
            forall|j: int|
                lo <= j < lag && is_number(#[trigger] c[j]) ==> magnitude(c[j]) <= best_amp,
            best_amp > 0 ==> {
                &&& lo <= best_lag < lag
                &&& is_number(c[best_lag as int])
                &&& magnitude(c[best_lag as int]) == best_amp
                &&& forall|j: int|
                    lo <= j < best_lag && is_number(#[trigger] c[j]) ==> magnitude(c[j])
                        < best_amp
            },
        decreases chunk_len - lag,
    {
        let bits = loopback[start + lag];
        assert(c[lag as int] == bits);
        let a = bits & MAGNITUDE_MASK;
        if a <= INFINITY_BITS && a > best_amp {
            best_amp = a;
            best_lag = lag;
        }
        lag = lag + 1;
    }
    if best_amp < PEAK_FLOOR_BITS {
        assert forall|j: int| lo <= j < c.len() implies !is_audible(#[trigger] c[j]) by {}
        None
    } else {
        assert(is_audible(c[best_lag as int]));
        Some(best_lag)
    }
}

/// Integer view of a sequence of lags.
pub open spec fn as_ints(v: Seq<usize>) -> Seq<int> {
    v.map_values(|x: usize| x as int)
}

/// Sort lags ascending in place (insertion sort; at most [`MAX_IMPULSES`] entries).
fn sort_lags(v: &mut Vec<usize>)
    ensures
        final(v)@.len() == old(v)@.len(),
        as_ints(final(v)@).to_multiset() == as_ints(old(v)@).to_multiset(),
        sorted_by(as_ints(final(v)@), |x: int, y: int| x <= y),
{
    let n = v.len();
    let ghost orig = as_ints(v@);
    let mut i: usize = 1;
    if n == 0 {
        assert(as_ints(v@) =~= orig);
        return;
    }
    while i < n
        invariant
            1 <= i <= n,
            v@.len() == n,
            as_ints(v@).to_multiset() == orig.to_multiset(),
            forall|a: int, b: int| 0 <= a < b < i ==> #[trigger] v@[a] <= #[trigger] v@[b],
        decreases n - i,
    {
        let mut j: usize = i;
        while j > 0 && v[j - 1] > v[j]
            invariant
                0 <= j <= i < n,
                v@.len() == n,
                as_ints(v@).to_multiset() == orig.to_multiset(),
                forall|a: int, b: int|
                    0 <= a < b <= i && a != j && b != j ==> #[trigger] v@[a] <= #[trigger] v@[b],
                forall|b: int| j < b <= i ==> v@[j as int] <= #[trigger] v@[b],
            decreases j,
        {
            let x = v[j - 1];
            let y = v[j];
            let ghost before = v@;
            v.set(j - 1, y);
            v.set(j, x);
            proof {
                broadcast use vstd::multiset::group_multiset_axioms;
                let bi = as_ints(before);
                let mid = bi.update(j - 1, y as int);
                assert(as_ints(v@) =~= mid.update(j as int, x as int));
                to_multiset_update(bi, j - 1, y as int);
                to_multiset_update(mid, j as int, x as int);
                assert(bi[j - 1] == x as int);
                assert(mid[j as int] == y as int);
                assert(bi.contains(x as int));
                vstd::seq_lib::to_multiset_contains(bi, x as int);
                assert(bi.to_multiset().count(x as int) > 0);
                assert(bi.to_multiset().insert(y as int).remove(x as int).insert(x as int).remove(
                    y as int,
                ) =~= bi.to_multiset());
            }
            j = j - 1;
        }
        i = i + 1;
    }
}

/// Any ascending sequence holding the same multiset of lags is their sort.
proof fn lemma_sorted_is_sort(v: Seq<int>, lags: Seq<int>)
    requires
        sorted_by(v, |x: int, y: int| x <= y),
        v.to_multiset() == lags.to_multiset(),
    ensures
        v == lags.sort(),
{
    let leq = |x: int, y: int| x <= y;
    assert(total_ordering(leq));
    lags.lemma_sort_ensures();
    lemma_sorted_unique(v, lags.sort(), leq);
}

/// Compute round-trip latency, in samples, from a multi-impulse loopback capture.
///
/// The loopback is split into `n_impulses` equal chunks; in each chunk the
/// strongest sample at or after `min_lag_samples` gives that chunk's lag.  The
/// median lag is accepted when a strict majority of chunks lie within
/// `max(median / 10, 2)` samples of it, and `ring_latency_samples` is then
/// subtracted from it (saturating at zero).
///
/// # Errors
///
/// * [`DomainError::LoopbackTooShort`] — `n_impulses` is 0 or above
///   [`MAX_IMPULSES`], or the chunk length does not exceed `min_lag_samples`.
/// * [`DomainError::LatencyNoPeak`] — some chunk is silent, or the chunk lags
///   disagree.
pub fn measure_latency_lag(
    loopback: &[u32],
    n_impulses: usize,
    min_lag_samples: usize,
    ring_latency_samples: usize,
) -> (r: Result<usize, DomainError>)
    ensures
        match spec_measure_lag(
            loopback@,
            n_impulses as int,
            min_lag_samples as int,
            ring_latency_samples as int,
        ) {
            Ok(lag) => r == Ok::<usize, DomainError>(lag as usize),
            Err(e) => r == Err::<usize, DomainError>(e),
        },
{
    let ghost s = loopback@;
    if n_impulses == 0 || n_impulses > MAX_IMPULSES {
        return Err(DomainError::LoopbackTooShort);
    }
    let chunk_len = loopback.len() / n_impulses;
    if chunk_len <= min_lag_samples {
        return Err(DomainError::LoopbackTooShort);
    }
    let ghost n = n_impulses as int;
    let ghost cl = chunk_len as int;
    let ghost lo = min_lag_samples as int;
    proof {
        assert(n * cl <= s.len()) by (nonlinear_arith)
            requires
                cl == (s.len() as int) / n,
                n > 0,
        ;
    }
    let total = loopback.len();
    let mut lags: Vec<usize> = Vec::new();
    let mut k: usize = 0;
    while k < n_impulses
        invariant
            s == loopback@,
            total == s.len(),
            0 < n_impulses <= MAX_IMPULSES,
            n == n_impulses,
            cl == chunk_len,
            lo == min_lag_samples,
            cl == (s.len() as int) / n,
            n * cl <= s.len(),
            lo < cl,
            0 <= k <= n_impulses,
            lags@.len() == k,
            forall|i: int|
                0 <= i < k ==> #[trigger] lags@[i] as int == chunk_lag(chunk_of(s, cl, i), lo)
                    && lo <= lags@[i] < cl,
            forall|i: int| 0 <= i < k ==> !chunk_silent(#[trigger] chunk_of(s, cl, i), lo),
        decreases n_impulses - k,
    {
        proof {
            assert(k * cl + cl <= n * cl) by (nonlinear_arith)
                requires
                    k < n,
                    cl >= 0,
            ;
        }
        let start = k * chunk_len;
        let peak = chunk_peak(loopback, start, chunk_len, min_lag_samples);
        assert(chunk_of(s, cl, k as int) =~= s.subrange(start as int, start + chunk_len));
        match peak {
            None => {
                assert(any_chunk_silent(s, n, cl, lo));
                return Err(DomainError::LatencyNoPeak);
            },
            Some(lag) => {
                proof {
                    let c = chunk_of(s, cl, k as int);
                    let chosen = chunk_lag(c, lo);
                    assert(is_first_peak(c, lo, chosen));
                    lemma_first_peak_unique(c, lo, chosen, lag as int);
                }
                lags.push(lag);
            },
        }
        k = k + 1;
    }
    let ghost lag_seq = chunk_lags(s, n, cl, lo);
    assert(!any_chunk_silent(s, n, cl, lo));
    assert(as_ints(lags@) =~= lag_seq);
    sort_lags(&mut lags);
    proof {
        lemma_sorted_is_sort(as_ints(lags@), lag_seq);
    }
    let ghost sorted = lag_seq.sort();
    assert(forall|i: int| 0 <= i < n ==> #[trigger] sorted[i] == lags@[i] as int);
    assert forall|i: int| 0 <= i < n implies lo <= #[trigger] lags@[i] < cl by {
        lag_seq.lemma_sort_ensures();
        assert(sorted.to_multiset().count(sorted[i]) > 0) by {
            vstd::seq_lib::to_multiset_contains(sorted, sorted[i]);
            assert(sorted.contains(sorted[i]));
        }
        assert(lag_seq.to_multiset().count(sorted[i]) > 0);
        vstd::seq_lib::to_multiset_contains(lag_seq, sorted[i]);
        let w = choose|w: int| 0 <= w < n && lag_seq[w] == sorted[i];
        assert(lag_seq[w] == chunk_lag(chunk_of(s, cl, w), lo));
    }
    let median: usize = if n_impulses % 2 == 1 {
        lags[n_impulses / 2]
    } else {
        proof {
            assert(2 * cl <= n * cl) by (nonlinear_arith)
                requires
                    n >= 2,
                    cl >= 0,
            ;
        }
        (lags[n_impulses / 2 - 1] + lags[n_impulses / 2]) / 2
    };
    assert(median as int == median_of(sorted));
    let tenth = median / 10;
    let tolerance: usize = if tenth >= 2 {
        tenth
    } else {
        2
    };
    let mut agreeing: usize = 0;
    let mut i: usize = 0;
    while i < n_impulses
        invariant
            0 <= i <= n_impulses,
            lags@.len() == n_impulses,
            sorted.len() == n_impulses,
            forall|j: int| 0 <= j < n ==> #[trigger] sorted[j] == lags@[j] as int,
            n == n_impulses,
            agreeing == count_close(sorted.take(i as int), median as int, tolerance as int),
            agreeing <= i,
        decreases n_impulses - i,
    {
        let l = lags[i];
        assert(sorted.take(i + 1).drop_last() =~= sorted.take(i as int));
        let diff = if l >= median {
            l - median
        } else {
            median - l
        };
        if diff <= tolerance {
            agreeing = agreeing + 1;
        }
        i = i + 1;
    }
    assert(sorted.take(n) =~= sorted);
    let required = n_impulses / 2 + 1;
    if agreeing < required {
        return Err(DomainError::LatencyNoPeak);
    }
    if median > ring_latency_samples {
        Ok(median - ring_latency_samples)
    } else {
        Ok(0)
    }
}

/// Number of elements of `s` equal to `v`.
pub open spec fn count_eq(s: Seq<int>, v: int) -> nat
    decreases s.len(),
{
    if s.len() == 0 {
        0
    } else {
        count_eq(s.drop_last(), v) + if s.last() == v {
            1nat
        } else {
            0nat
        }
    }
}

proof fn lemma_count_eq_is_multiset_count(s: Seq<int>, v: int)
    ensures
        count_eq(s, v) == s.to_multiset().count(v),
    decreases s.len(),
{
    broadcast use vstd::multiset::group_multiset_axioms;
    broadcast use vstd::seq_lib::group_to_multiset_ensures;
    if s.len() == 0 {
        assert(s.to_multiset().len() == 0);
    } else {
        let p = s.drop_last();
        lemma_count_eq_is_multiset_count(p, v);
        assert(s =~= p.push(s.last()));
        vstd::seq_lib::to_multiset_build(p, s.last());
    }
}

proof fn lemma_count_eq_bound(s: Seq<int>, v: int)
    ensures
        count_eq(s, v) <= s.len(),
    decreases s.len(),
{
    if s.len() > 0 {
        lemma_count_eq_bound(s.drop_last(), v);
    }
}

/// When no two elements both differ from `v`, at most one element differs.
proof fn lemma_count_eq_one_outlier(s: Seq<int>, v: int)
    requires
        forall|i: int, j: int| 0 <= i < j < s.len() ==> s[i] == v || s[j] == v,
    ensures
        count_eq(s, v) + 1 >= s.len(),
    decreases s.len(),
{
    if s.len() > 0 {
        let p = s.drop_last();
        assert forall|i: int, j: int| 0 <= i < j < p.len() implies p[i] == v || p[j] == v by {
            assert(p[i] == s[i] && p[j] == s[j]);
        }
        lemma_count_eq_one_outlier(p, v);
        if s.last() != v {
            assert forall|i: int| 0 <= i < p.len() implies p[i] == v by {
                assert(p[i] == s[i]);
                assert(s[i] == v || s[s.len() - 1] == v);
            }
            lemma_count_eq_all(p, v);
        }
    }
}

/// When every element equals `v`, all of them are counted.
proof fn lemma_count_eq_all(s: Seq<int>, v: int)
    requires
        forall|i: int| 0 <= i < s.len() ==> s[i] == v,
    ensures
        count_eq(s, v) == s.len(),
    decreases s.len(),
{
    if s.len() > 0 {
        let p = s.drop_last();
        assert forall|i: int| 0 <= i < p.len() implies p[i] == v by {
            assert(p[i] == s[i]);
        }
        lemma_count_eq_all(p, v);
    }
}

/// An element that differs from `v` is not counted.
proof fn lemma_count_eq_miss_one(s: Seq<int>, v: int, i: int)
    requires
        0 <= i < s.len(),
        s[i] != v,
    ensures
        count_eq(s, v) + 1 <= s.len(),
    decreases s.len(),
{
    let p = s.drop_last();
    lemma_count_eq_bound(p, v);
    if i < s.len() - 1 {
        assert(p[i] == s[i]);
        lemma_count_eq_miss_one(p, v, i);
    }
}

/// Two elements that differ from `v` are not counted.
proof fn lemma_count_eq_miss_two(s: Seq<int>, v: int, i: int, j: int)
    requires
        0 <= i < j < s.len(),
        s[i] != v,
        s[j] != v,
    ensures
        count_eq(s, v) + 2 <= s.len(),
    decreases s.len(),
{
    let p = s.drop_last();
    assert(p[i] == s[i]);
    if j == s.len() - 1 {
        lemma_count_eq_miss_one(p, v, i);
    } else {
        assert(p[j] == s[j]);
        lemma_count_eq_miss_two(p, v, i, j);
    }
}

/// Every element equal to `m` is within any non-negative tolerance of it.
proof fn lemma_count_close_covers_equal(s: Seq<int>, m: int, tol: int)
    requires
        tol >= 0,
    ensures
        count_close(s, m, tol) >= count_eq(s, m),
    decreases s.len(),
{
    if s.len() > 0 {
        lemma_count_close_covers_equal(s.drop_last(), m, tol);
    }
}

/// The chunk lags form a sequence of length `n` whose sort has the same
/// number of copies of every value.
proof fn lemma_sorted_lags(lags: Seq<int>, v: int)
    ensures
        lags.sort().len() == lags.len(),
        count_eq(lags.sort(), v) == count_eq(lags, v),
        sorted_by(lags.sort(), |x: int, y: int| x <= y),
{
    lags.lemma_sort_ensures();
    vstd::seq_lib::to_multiset_len(lags);
    vstd::seq_lib::to_multiset_len(lags.sort());
    lemma_count_eq_is_multiset_count(lags, v);
    lemma_count_eq_is_multiset_count(lags.sort(), v);
}

/// With at most one element different from `v`, every interior position of
/// the ascending order holds `v`.
proof fn lemma_interior_is_majority(sorted: Seq<int>, v: int, i: int)
    requires
        sorted_by(sorted, |x: int, y: int| x <= y),
        count_eq(sorted, v) + 1 >= sorted.len(),
        1 <= i <= sorted.len() - 2,
    ensures
        sorted[i] == v,
{
    let n = sorted.len() as int;
    let leq = |x: int, y: int| x <= y;
    if sorted[i] < v {
        assert(leq(sorted[0], sorted[i]));
        lemma_count_eq_miss_two(sorted, v, 0, i);
    } else if sorted[i] > v {
        assert(leq(sorted[i], sorted[n - 1]));
        lemma_count_eq_miss_two(sorted, v, i, n - 1);
    }
}

/// A single noise-dominated chunk does not corrupt the estimate.
///
/// With at least three chunks (and at most [`MAX_IMPULSES`]), none of them
/// silent, and no two chunks whose peak lags both differ from `lag`, the
/// estimate is `lag` minus the ring latency, saturating at zero.
pub proof fn lemma_single_outlier_tolerated(s: Seq<u32>, n: int, lo: int, ring: int, lag: int)
    requires
        3 <= n <= MAX_IMPULSES,
        (s.len() as int) / n > lo,
        !any_chunk_silent(s, n, (s.len() as int) / n, lo),
        forall|i: int, j: int|
            0 <= i < j < n ==> #[trigger] chunk_lags(s, n, (s.len() as int) / n, lo)[i] == lag
                || #[trigger] chunk_lags(s, n, (s.len() as int) / n, lo)[j] == lag,
    ensures
        spec_measure_lag(s, n, lo, ring) == if lag > ring {
            Ok::<int, DomainError>(lag - ring)
        } else {
            Ok::<int, DomainError>(0)
        },
{
    let lags = chunk_lags(s, n, (s.len() as int) / n, lo);
    let sorted = lags.sort();
    lemma_count_eq_one_outlier(lags, lag);
    lemma_sorted_lags(lags, lag);
    let m = median_of(sorted);
    if n % 2 == 1 {
        lemma_interior_is_majority(sorted, lag, n / 2);
    } else {
        lemma_interior_is_majority(sorted, lag, n / 2 - 1);
        lemma_interior_is_majority(sorted, lag, n / 2);
    }
    assert(m == lag);
    lemma_count_close_covers_equal(sorted, m, tolerance_for(m));
}

/// Unanimous chunks give their common lag minus the ring latency, saturating
/// at zero, for any admissible number of chunks.
pub proof fn lemma_unanimous_chunks(s: Seq<u32>, n: int, lo: int, ring: int, lag: int)
    requires
        1 <= n <= MAX_IMPULSES,
        (s.len() as int) / n > lo,
        !any_chunk_silent(s, n, (s.len() as int) / n, lo),
        forall|i: int| 0 <= i < n ==> #[trigger] chunk_lags(s, n, (s.len() as int) / n, lo)[i] == lag,
    ensures
        spec_measure_lag(s, n, lo, ring) == if lag > ring {
            Ok::<int, DomainError>(lag - ring)
        } else {
            Ok::<int, DomainError>(0)
        },
{
    let lags = chunk_lags(s, n, (s.len() as int) / n, lo);
    let sorted = lags.sort();
    lemma_count_eq_all(lags, lag);
    lemma_sorted_lags(lags, lag);
    assert forall|i: int| 0 <= i < n implies sorted[i] == lag by {
        if sorted[i] != lag {
            lemma_count_eq_miss_one(sorted, lag, i);
        }
    }
    let m = median_of(sorted);
    assert(m == lag);
    lemma_count_close_covers_equal(sorted, m, tolerance_for(m));
}


/// Every element of `s` within `tol` of `m` is counted.
proof fn lemma_count_close_all(s: Seq<int>, m: int, tol: int)
    requires
        forall|i: int| 0 <= i < s.len() ==> distance(#[trigger] s[i], m) <= tol,
    ensures
        count_close(s, m, tol) == s.len(),
    decreases s.len(),
{
    if s.len() > 0 {
        let p = s.drop_last();
        assert forall|i: int| 0 <= i < p.len() implies distance(#[trigger] p[i], m) <= tol by {
            assert(p[i] == s[i]);
        }
        lemma_count_close_all(p, m, tol);
    }
}

/// Agreement law: with 1 to [`MAX_IMPULSES`] chunks, none silent, whose peak
/// lags all lie within `max(m / 10, 2)` samples of their median `m`, the
/// estimate is `m` minus the ring latency, saturating at zero.
pub proof fn lemma_agreeing_chunks_accepted(s: Seq<u32>, n: int, lo: int, ring: int)
    requires
        1 <= n <= MAX_IMPULSES,
        (s.len() as int) / n > lo,
        !any_chunk_silent(s, n, (s.len() as int) / n, lo),
        ({
            let lags = chunk_lags(s, n, (s.len() as int) / n, lo);
            let m = median_of(lags.sort());
            let t = if m / 10 >= 2 {
                m / 10
            } else {
                2
            };
            forall|i: int| 0 <= i < n ==> m - t <= #[trigger] lags[i] <= m + t
        }),
    ensures
        ({
            let m = median_of(chunk_lags(s, n, (s.len() as int) / n, lo).sort());
            spec_measure_lag(s, n, lo, ring) == if m > ring {
                Ok::<int, DomainError>(m - ring)
            } else {
                Ok::<int, DomainError>(0)
            }
        }),
{
    broadcast use vstd::seq_lib::to_multiset_contains;
    let lags = chunk_lags(s, n, (s.len() as int) / n, lo);
    let sorted = lags.sort();
    let m = median_of(sorted);
    let t = tolerance_for(m);
    lags.lemma_sort_ensures();
    vstd::seq_lib::to_multiset_len(lags);
    vstd::seq_lib::to_multiset_len(sorted);
    assert forall|i: int| 0 <= i < sorted.len() implies distance(#[trigger] sorted[i], m) <= t by {
        let x = sorted[i];
        assert(sorted.contains(x));
        assert(sorted.to_multiset().count(x) > 0);
        assert(lags.to_multiset().count(x) > 0);
        assert(lags.contains(x));
        let j = choose|j: int| 0 <= j < lags.len() && lags[j] == x;
        assert(m - t <= lags[j] <= m + t);
    }
    lemma_count_close_all(sorted, m, t);
}


/// Removing one element takes it out of the count exactly when it is close.
proof fn lemma_count_close_remove(s: Seq<int>, m: int, tol: int, j: int)
    requires
        0 <= j < s.len(),
    ensures
        count_close(s, m, tol) == count_close(s.remove(j), m, tol) + if distance(s[j], m) <= tol {
            1int
        } else {
            0int
        },
    decreases s.len(),
{
    if j == s.len() - 1 {
        assert(s.remove(j) =~= s.drop_last());
    } else {
        let p = s.drop_last();
        lemma_count_close_remove(p, m, tol, j);
        assert(s.remove(j).drop_last() =~= p.remove(j));
        assert(s.remove(j).last() == s.last());
        assert(p[j] == s[j]);
    }
}

/// The count of close elements does not depend on their order.
proof fn lemma_count_close_permutation(a: Seq<int>, b: Seq<int>, m: int, tol: int)
    requires
        a.to_multiset() == b.to_multiset(),
    ensures
        count_close(a, m, tol) == count_close(b, m, tol),
    decreases a.len(),
{
    broadcast use vstd::seq_lib::to_multiset_contains;
    broadcast use vstd::multiset::group_multiset_axioms;
    vstd::seq_lib::to_multiset_len(a);
    vstd::seq_lib::to_multiset_len(b);
    if a.len() > 0 {
        let x = a.last();
        let p = a.drop_last();
        assert(a =~= p.push(x));
        vstd::seq_lib::to_multiset_build(p, x);
        assert(a.contains(x));
        assert(b.to_multiset().count(x) > 0);
        assert(b.contains(x));
        let j = choose|j: int| 0 <= j < b.len() && b[j] == x;
        vstd::seq_lib::to_multiset_remove(b, j);
        assert(p.to_multiset() =~= b.remove(j).to_multiset());
        lemma_count_close_permutation(p, b.remove(j), m, tol);
        lemma_count_close_remove(b, m, tol, j);
    }
}

/// Disagreement law: with 1 to [`MAX_IMPULSES`] chunks, none silent, fewer
/// than `n / 2 + 1` of whose peak lags lie within `max(m / 10, 2)` samples of
/// their median `m`, the capture is rejected as having no clear peak.
pub proof fn lemma_disagreeing_chunks_rejected(s: Seq<u32>, n: int, lo: int, ring: int)
    requires
        1 <= n <= MAX_IMPULSES,
        (s.len() as int) / n > lo,
        !any_chunk_silent(s, n, (s.len() as int) / n, lo),
        ({
            let lags = chunk_lags(s, n, (s.len() as int) / n, lo);
            let m = median_of(lags.sort());
            let t = if m / 10 >= 2 {
                m / 10
            } else {
                2
            };
            count_close(lags, m, t) < n / 2 + 1
        }),
    ensures
        spec_measure_lag(s, n, lo, ring) == Err::<int, DomainError>(DomainError::LatencyNoPeak),
{
    let lags = chunk_lags(s, n, (s.len() as int) / n, lo);
    let sorted = lags.sort();
    let m = median_of(sorted);
    lags.lemma_sort_ensures();
    lemma_count_close_permutation(sorted, lags, m, tolerance_for(m));
}

} // verus!
