//! Mathematical model of the palette discovery algorithm: histograms as
//! 256-bucket count sequences, segment assignment by threshold vectors,
//! weighted means, and the fixed-point threshold iteration.

use vstd::prelude::*;
use vstd::arithmetic::div_mod::{lemma_div_is_ordered, lemma_div_multiples_vanish};
use vstd::arithmetic::mul::lemma_mul_inequality;

verus! {

/// Iteration cap for the threshold fixed-point loop; exceeding it is
/// reported as non-convergence rather than looping forever.
pub const ITER_CAP: usize = 512;

/// Number of pixels with luminance `k` among the first `n` entries of `s`.
pub open spec fn count_below(s: Seq<u8>, k: int, n: int) -> nat
    decreases n,
{
    if n <= 0 {
        0
    } else {
        count_below(s, k, n - 1) + (if s[n - 1] == k {
            1nat
        } else {
            0nat
        })
    }
}

/// The histogram of a luminance sequence: 256 buckets of occurrence counts.
pub open spec fn hist_of(s: Seq<u8>) -> Seq<nat> {
    Seq::new(256, |k: int| count_below(s, k, s.len() as int))
}

/// Sum of the counts of the first `n` buckets.
pub open spec fn total_below(c: Seq<nat>, n: int) -> int
    decreases n,
{
    if n <= 0 {
        0
    } else {
        total_below(c, n - 1) + c[n - 1]
    }
}

/// Total count held by a histogram.
pub open spec fn total(c: Seq<nat>) -> int {
    total_below(c, 256)
}

/// Sum of `k * count(k)` over the first `n` buckets.
pub open spec fn weighted_below(c: Seq<nat>, n: int) -> int
    decreases n,
{
    if n <= 0 {
        0
    } else {
        weighted_below(c, n - 1) + (n - 1) * c[n - 1]
    }
}

/// Luminance-weighted sum of a histogram.
pub open spec fn weighted(c: Seq<nat>) -> int {
    weighted_below(c, 256)
}

/// Occurrence-weighted mean luminance of a histogram, 0 when it is empty.
pub open spec fn mean_of(c: Seq<nat>) -> int {
    if total(c) == 0 {
        0
    } else {
        weighted(c) / total(c)
    }
}

/// Whether bucket `k` belongs to segment `i` under threshold vector `t`:
/// luminance 0 is force-assigned to segment 1; any other luminance belongs
/// to segment `i` exactly when `t[i-1] < k <= t[i]`.
pub open spec fn in_segment(t: Seq<int>, i: int, k: int) -> bool {
    if k == 0 {
        i == 1
    } else {
        t[i - 1] < k && k <= t[i]
    }
}

/// The sub-histogram of the buckets assigned to segment `i`.
pub open spec fn seg_counts(c: Seq<nat>, t: Seq<int>, i: int) -> Seq<nat> {
    Seq::new(256, |k: int| if in_segment(t, i, k) {
        c[k]
    } else {
        0
    })
}

/// Weighted mean of segment `i`, 0 when the segment is empty.
pub open spec fn seg_mean(c: Seq<nat>, t: Seq<int>, i: int) -> int {
    mean_of(seg_counts(c, t, i))
}

/// Initial thresholds: a uniform partition of [0, 256] into `m` bins.
pub open spec fn init_t(m: int) -> Seq<int> {
    Seq::new((m + 1) as nat, |i: int| i * 256 / m)
}

/// One re-thresholding pass: interior thresholds move to the midpoint of the
/// two adjacent segment means; the outer bounds stay fixed.
pub open spec fn next_t(c: Seq<nat>, t: Seq<int>, m: int) -> Seq<int> {
    Seq::new((m + 1) as nat, |i: int| if i == 0 || i == m {
        t[i]
    } else {
        (seg_mean(c, t, i) + seg_mean(c, t, i + 1)) / 2
    })
}

/// Iterate `next_t` until a fixed point, or report `None` when `fuel`
/// iterations were not enough.
pub open spec fn solve_iter(c: Seq<nat>, t: Seq<int>, m: int, fuel: nat) -> Option<Seq<int>>
    decreases fuel,
{
    if fuel == 0 {
        None
    } else {
        let t2 = next_t(c, t, m);
        if t2 == t {
            Some(t)
        } else {
            solve_iter(c, t2, m, (fuel - 1) as nat)
        }
    }
}

/// The palette of a histogram: the segment means at the converged threshold
/// vector, in segment order; `None` when the iteration does not converge
/// within the cap.
pub open spec fn palette_of(c: Seq<nat>, m: int) -> Option<Seq<int>> {
    match solve_iter(c, init_t(m), m, ITER_CAP as nat) {
        Some(t) => Some(Seq::new(m as nat, |j: int| seg_mean(c, t, j + 1))),
        None => None,
    }
}

/// Absolute difference of two integers.
pub open spec fn absdiff(a: int, b: int) -> int {
    if a >= b {
        a - b
    } else {
        b - a
    }
}

/// Index of the entry of `p` nearest to `v` among the first `n`, the
/// earliest such entry on ties.
pub open spec fn best_idx(p: Seq<int>, v: int, n: int) -> int
    decreases n,
{
    if n <= 1 {
        0
    } else {
        let b = best_idx(p, v, n - 1);
        if absdiff(p[n - 1], v) < absdiff(p[b], v) {
            n - 1
        } else {
            b
        }
    }
}

/// The entry of `p` nearest to `v`, the earliest on ties.
pub open spec fn nearest(p: Seq<int>, v: int) -> int {
    p[best_idx(p, v, p.len() as int)]
}

/// A `u8` sequence seen as a sequence of integers.
pub open spec fn as_ints(p: Seq<u8>) -> Seq<int> {
    p.map_values(|x: u8| x as int)
}

/// No luminance occurs more often than the length of the prefix examined.
pub proof fn lemma_count_below_le(s: Seq<u8>, k: int, n: int)
    requires
        0 <= n,
    ensures
        count_below(s, k, n) <= n,
    decreases n,
{
    if n > 0 {
        lemma_count_below_le(s, k, n - 1);
    }
}

/// Bucket sums are non-negative.
pub proof fn lemma_total_below_nonneg(c: Seq<nat>, n: int)
    ensures
        total_below(c, n) >= 0,
    decreases n,
{
    if n > 0 {
        lemma_total_below_nonneg(c, n - 1);
    }
}

/// The weighted sum of the first `n` buckets is bounded by `(n-1)` times
/// their total count, and is non-negative.
pub proof fn lemma_weighted_below_bounds(c: Seq<nat>, n: int)
    requires
        0 <= n <= 256,
    ensures
        0 <= weighted_below(c, n),
        weighted_below(c, n) <= 255 * total_below(c, n),
    decreases n,
{
    if n > 0 {
        lemma_weighted_below_bounds(c, n - 1);
        lemma_mul_inequality(n - 1, 255, c[n - 1] as int);
    }
}

/// Every histogram mean lies in the luminance range [0, 255].
pub proof fn lemma_mean_of_range(c: Seq<nat>)
    ensures
        0 <= mean_of(c) <= 255,
{
    lemma_weighted_below_bounds(c, 256);
    lemma_total_below_nonneg(c, 256);
    if total(c) != 0 {
        lemma_div_is_ordered(weighted(c), 255 * total(c), total(c));
        lemma_div_multiples_vanish(255, total(c));
        vstd::arithmetic::div_mod::lemma_div_pos_is_pos(weighted(c), total(c));
    }
}

/// Every segment mean lies in [0, 255].
pub proof fn lemma_seg_mean_range(c: Seq<nat>, t: Seq<int>, i: int)
    ensures
        0 <= seg_mean(c, t, i) <= 255,
{
    lemma_mean_of_range(seg_counts(c, t, i));
}

/// A histogram whose buckets are all empty sums to zero.
pub proof fn lemma_total_below_all_zero(c: Seq<nat>, n: int)
    requires
        forall|k: int| 0 <= k < n ==> c[k] == 0,
    ensures
        total_below(c, n) == 0,
    decreases n,
{
    if n > 0 {
        lemma_total_below_all_zero(c, n - 1);
    }
}

/// When every populated bucket among the first `n` lies in [lo, hi], the
/// weighted sum lies between `lo` and `hi` times the total.
pub proof fn lemma_weighted_in_range(c: Seq<nat>, lo: int, hi: int, n: int)
    requires
        forall|k: int| 0 <= k < n && c[k] > 0 ==> lo <= k && k <= hi,
    ensures
        lo * total_below(c, n) <= weighted_below(c, n),
        weighted_below(c, n) <= hi * total_below(c, n),
    decreases n,
{
    if n > 0 {
        lemma_weighted_in_range(c, lo, hi, n - 1);
        vstd::arithmetic::mul::lemma_mul_is_distributive_add(lo, total_below(c, n - 1), c[n - 1] as int);
        vstd::arithmetic::mul::lemma_mul_is_distributive_add(hi, total_below(c, n - 1), c[n - 1] as int);
        if c[n - 1] > 0 {
            lemma_mul_inequality(lo, n - 1, c[n - 1] as int);
            lemma_mul_inequality(n - 1, hi, c[n - 1] as int);
        }
    }
}

/// A non-empty histogram whose mass lies entirely in [lo, hi] has its mean
/// in [lo, hi] as well.
pub proof fn lemma_mean_range_of_bounded(c: Seq<nat>, lo: int, hi: int)
    requires
        forall|k: int| 0 <= k < 256 && c[k] > 0 ==> lo <= k && k <= hi,
        total(c) > 0,
    ensures
        lo <= mean_of(c) <= hi,
{
    lemma_weighted_in_range(c, lo, hi, 256);
    lemma_div_is_ordered(lo * total(c), weighted(c), total(c));
    lemma_div_is_ordered(weighted(c), hi * total(c), total(c));
    lemma_div_multiples_vanish(lo, total(c));
    lemma_div_multiples_vanish(hi, total(c));
}

/// In a histogram with all mass at luminance `l`, the partial sums reduce
/// to that single bucket.
pub proof fn lemma_spike_sums(c: Seq<nat>, l: int, n: int)
    requires
        0 <= l,
        forall|k: int| 0 <= k < n && k != l ==> c[k] == 0,
    ensures
        total_below(c, n) == if l < n {
            c[l] as int
        } else {
            0
        },
        weighted_below(c, n) == if l < n {
            l * c[l]
        } else {
            0
        },
    decreases n,
{
    if n > 0 {
        lemma_spike_sums(c, l, n - 1);
    }
}

/// `best_idx` always points into the prefix it examined.
pub proof fn lemma_best_idx_range(p: Seq<int>, v: int, n: int)
    requires
        n >= 1,
    ensures
        0 <= best_idx(p, v, n) < n,
    decreases n,
{
    if n > 1 {
        lemma_best_idx_range(p, v, n - 1);
    }
}

/// The entry at `best_idx` has minimal distance to `v` over the prefix.
pub proof fn lemma_best_idx_min(p: Seq<int>, v: int, n: int)
    requires
        n >= 1,
    ensures
        forall|j: int| 0 <= j < n ==> absdiff(p[best_idx(p, v, n)], v) <= absdiff(#[trigger] p[j], v),
    decreases n,
{
    if n > 1 {
        lemma_best_idx_min(p, v, n - 1);
    }
}

} // verus!
