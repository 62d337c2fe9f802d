//! The library's laws: properties of palette discovery and remapping that
//! hold beyond the individual function contracts, proved once and for all.

use vstd::prelude::*;
use vstd::arithmetic::div_mod::{
    lemma_div_is_ordered, lemma_div_multiples_vanish, lemma_div_pos_is_pos,
};
use crate::palette::palette_result_ok;
use crate::palette::model::{
    ITER_CAP, absdiff, as_ints, best_idx, hist_of, init_t, lemma_best_idx_min,
    lemma_best_idx_range, lemma_mean_range_of_bounded, lemma_seg_mean_range, lemma_spike_sums,
    lemma_total_below_all_zero, mean_of, nearest, next_t, palette_of, seg_counts, seg_mean,
    solve_iter, total, weighted,
};

verus! {

/// Every palette the solver can produce holds exactly `m` entries, each a
/// valid luminance value in [0, 255].
pub proof fn lemma_palette_levels(c: Seq<nat>, m: int, p: Seq<int>)
    requires
        m >= 1,
        palette_of(c, m) == Some(p),
    ensures
        p.len() == m,
        forall|j: int| 0 <= j < m ==> 0 <= #[trigger] p[j] <= 255,
{
    let st = solve_iter(c, init_t(m), m, ITER_CAP as nat);
    let t = choose|t: Seq<int>| st == Some(t);
    assert(st == Some(t));
    assert(p == Seq::new(m as nat, |j: int| seg_mean(c, t, j + 1)));
    assert forall|j: int| 0 <= j < m implies 0 <= #[trigger] p[j] <= 255 by {
        lemma_seg_mean_range(c, t, j + 1);
    }
}

/// The palette is a function of the luminance data and the level count
/// alone: any two results that meet the success contract for the same data
/// and `m` are equal. This is at once determinism (two calls of the same
/// strategy agree) and representation equivalence (the sparse and dense
/// strategies agree, since both meet the same contract).
pub proof fn lemma_palette_unique(p1: Seq<u8>, p2: Seq<u8>, s: Seq<u8>, m: int)
    requires
        palette_result_ok(p1, s, m),
        palette_result_ok(p2, s, m),
    ensures
        p1 == p2,
{
    assert(as_ints(p1) == as_ints(p2));
    assert forall|i: int| 0 <= i < p1.len() implies p1[i] == p2[i] by {
        assert(as_ints(p1)[i] == p1[i] as int);
        assert(as_ints(p2)[i] == p2[i] as int);
    }
    assert(p1 =~= p2);
}

/// A luminance value that is itself a palette entry remaps to itself.
pub proof fn lemma_nearest_fixes_members(p: Seq<int>, v: int)
    requires
        p.len() >= 1,
        p.contains(v),
    ensures
        nearest(p, v) == v,
{
    let n = p.len() as int;
    lemma_best_idx_range(p, v, n);
    lemma_best_idx_min(p, v, n);
    let j = choose|j: int| 0 <= j < p.len() && p[j] == v;
    assert(absdiff(p[best_idx(p, v, n)], v) <= absdiff(p[j], v));
}

/// Every remapped pixel value is an entry of the palette: the output image
/// holds no luminance outside the computed levels.
pub proof fn lemma_remap_value_in_palette(p: Seq<int>, v: int)
    requires
        p.len() >= 1,
    ensures
        p.contains(nearest(p, v)),
{
    lemma_best_idx_range(p, v, p.len() as int);
    let b = best_idx(p, v, p.len() as int);
    assert(p[b] == nearest(p, v));
}

/// Remapping is idempotent once the palette is fixed: data already produced
/// by a remap is left unchanged by a second remap with the same palette.
pub proof fn lemma_remap_fixed_palette(p: Seq<int>, s: Seq<u8>, q: Seq<u8>)
    requires
        p.len() >= 1,
        q.len() == s.len(),
        forall|j: int| 0 <= j < s.len() ==> #[trigger] q[j] as int == nearest(p, s[j] as int),
    ensures
        forall|j: int| 0 <= j < q.len() ==> nearest(p, #[trigger] q[j] as int) == q[j] as int,
{
    assert forall|j: int| 0 <= j < q.len() implies nearest(p, #[trigger] q[j] as int) == q[j]
        as int by {
        let n = p.len() as int;
        lemma_best_idx_range(p, s[j] as int, n);
        let b = best_idx(p, s[j] as int, n);
        assert(p[b] == q[j] as int);
        assert(p.contains(q[j] as int));
        lemma_nearest_fixes_members(p, q[j] as int);
    }
}

/// Quantisation is idempotent whenever requantising derives the same
/// palette: remapping once-remapped data with that palette reproduces it
/// exactly.
pub proof fn lemma_quantise_idempotent_when_palette_stable(
    p: Seq<int>,
    s: Seq<u8>,
    q1: Seq<u8>,
    q2: Seq<u8>,
)
    requires
        p.len() >= 1,
        q1.len() == s.len(),
        q2.len() == q1.len(),
        forall|j: int| 0 <= j < s.len() ==> #[trigger] q1[j] as int == nearest(p, s[j] as int),
        forall|j: int| 0 <= j < q1.len() ==> #[trigger] q2[j] as int == nearest(p, q1[j] as int),
    ensures
        q2 == q1,
{
    lemma_remap_fixed_palette(p, s, q1);
    assert forall|j: int| 0 <= j < q1.len() implies q2[j] == q1[j] by {
        assert(q2[j] as int == nearest(p, q1[j] as int));
        assert(nearest(p, q1[j] as int) == q1[j] as int);
    }
    assert(q2 =~= q1);
}

/// The initial threshold vector has `m+1` entries and runs from 0 to 256.
pub proof fn lemma_init_t_ends(m: int)
    requires
        m >= 1,
    ensures
        init_t(m).len() == m + 1,
        init_t(m)[0] == 0,
        init_t(m)[m] == 256,
{
    assert(init_t(m)[0] == (0int) * 256 / m);
    lemma_div_multiples_vanish(256, m);
    assert(m * 256 == 256 * m);
    assert(init_t(m)[m] == m * 256 / m);
}

/// One re-thresholding pass never moves the outer bounds.
pub proof fn lemma_next_t_ends(c: Seq<nat>, t: Seq<int>, m: int)
    requires
        m >= 1,
    ensures
        next_t(c, t, m).len() == m + 1,
        next_t(c, t, m)[0] == t[0],
        next_t(c, t, m)[m] == t[m],
{
}

/// Every threshold vector the iteration converges to keeps the outer
/// bounds of the vector it started from.
pub proof fn lemma_solve_iter_ends(c: Seq<nat>, t: Seq<int>, m: int, fuel: nat, r: Seq<int>)
    requires
        m >= 1,
        t.len() == m + 1,
        solve_iter(c, t, m, fuel) == Some(r),
    ensures
        r.len() == m + 1,
        r[0] == t[0],
        r[m] == t[m],
    decreases fuel,
{
    let t2 = next_t(c, t, m);
    if t2 == t {
    } else {
        lemma_next_t_ends(c, t, m);
        lemma_solve_iter_ends(c, t2, m, (fuel - 1) as nat, r);
    }
}

/// The converged thresholds of the solver run from 0 to 256.
pub proof fn lemma_converged_ends(c: Seq<nat>, m: int, r: Seq<int>)
    requires
        m >= 1,
        solve_iter(c, init_t(m), m, ITER_CAP as nat) == Some(r),
    ensures
        r.len() == m + 1,
        r[0] == 0,
        r[m] == 256,
{
    lemma_init_t_ends(m);
    lemma_solve_iter_ends(c, init_t(m), m, ITER_CAP as nat, r);
}

/// The mean of a populated segment lies inside the segment's luminance
/// range: at most its upper threshold, and, for segments past the first,
/// strictly above its lower threshold (the first segment also holds the
/// force-assigned luminance 0).
pub proof fn lemma_seg_mean_bounds(c: Seq<nat>, t: Seq<int>, i: int, m: int)
    requires
        m >= 1,
        t.len() == m + 1,
        t[0] == 0,
        forall|j: int| 0 <= j < m ==> #[trigger] t[j] <= t[j + 1],
        1 <= i <= m,
        total(seg_counts(c, t, i)) > 0,
    ensures
        seg_mean(c, t, i) <= t[i],
        i >= 2 ==> t[i - 1] < seg_mean(c, t, i),
{
    let d = seg_counts(c, t, i);
    if i == 1 {
        lemma_mean_range_of_bounded(d, 0, t[1]);
    } else {
        lemma_mean_range_of_bounded(d, t[i - 1] + 1, t[i]);
    }
}

/// With non-decreasing thresholds and every segment populated, the segment
/// means strictly increase with the segment index.
pub proof fn lemma_means_monotone(c: Seq<nat>, t: Seq<int>, m: int)
    requires
        m >= 1,
        t.len() == m + 1,
        t[0] == 0,
        forall|j: int| 0 <= j < m ==> #[trigger] t[j] <= t[j + 1],
        forall|i: int| 1 <= i <= m ==> total(#[trigger] seg_counts(c, t, i)) > 0,
    ensures
        forall|i: int| 1 <= i < m ==> #[trigger] seg_mean(c, t, i) < seg_mean(c, t, i + 1),
{
    assert forall|i: int| 1 <= i < m implies #[trigger] seg_mean(c, t, i) < seg_mean(
        c,
        t,
        i + 1,
    ) by {
        assert(total(seg_counts(c, t, i)) > 0);
        assert(total(seg_counts(c, t, i + 1)) > 0);
        lemma_seg_mean_bounds(c, t, i, m);
        lemma_seg_mean_bounds(c, t, i + 1, m);
    }
}

/// The threshold-shape law: one solver pass always keeps the outer bounds
/// 0 and 256, and keeps the vector non-decreasing whenever every segment it
/// read is populated.
pub proof fn lemma_next_t_monotone_when_populated(c: Seq<nat>, t: Seq<int>, m: int)
    requires
        m >= 1,
        t.len() == m + 1,
        t[0] == 0,
        t[m] == 256,
        forall|j: int| 0 <= j < m ==> #[trigger] t[j] <= t[j + 1],
        forall|i: int| 1 <= i <= m ==> total(#[trigger] seg_counts(c, t, i)) > 0,
    ensures
        next_t(c, t, m)[0] == 0,
        next_t(c, t, m)[m] == 256,
        forall|i: int| 0 <= i < m ==> #[trigger] next_t(c, t, m)[i] <= next_t(c, t, m)[i + 1],
{
    let nt = next_t(c, t, m);
    lemma_means_monotone(c, t, m);
    assert forall|i: int| 0 <= i < m implies #[trigger] nt[i] <= nt[i + 1] by {
        if i == 0 && i + 1 == m {
        } else if i == 0 {
            lemma_seg_mean_range(c, t, 1);
            lemma_seg_mean_range(c, t, 2);
            lemma_div_pos_is_pos(seg_mean(c, t, 1) + seg_mean(c, t, 2), 2);
        } else if i + 1 == m {
            lemma_seg_mean_range(c, t, m - 1);
            lemma_seg_mean_range(c, t, m);
            lemma_div_is_ordered(seg_mean(c, t, m - 1) + seg_mean(c, t, m), 510, 2);
        } else {
            lemma_div_is_ordered(
                seg_mean(c, t, i) + seg_mean(c, t, i + 1),
                seg_mean(c, t, i + 1) + seg_mean(c, t, i + 2),
                2,
            );
        }
    }
}

/// Every segment mean of an all-empty histogram is zero, whatever the
/// thresholds.
proof fn lemma_zero_hist_seg_mean(c: Seq<nat>, t: Seq<int>, i: int)
    requires
        forall|k: int| 0 <= k < 256 ==> c[k] == 0,
    ensures
        seg_mean(c, t, i) == 0,
{
    let d = seg_counts(c, t, i);
    assert(forall|k: int| 0 <= k < 256 ==> d[k] == 0);
    lemma_total_below_all_zero(d, 256);
}

/// A zero-area image yields the all-zero palette for every level count,
/// without faulting: the iteration still converges.
pub proof fn lemma_empty_image_palette(m: int)
    requires
        m >= 1,
    ensures
        palette_of(hist_of(Seq::<u8>::empty()), m) == Some(Seq::new(m as nat, |j: int| 0int)),
{
    let c = hist_of(Seq::<u8>::empty());
    assert forall|k: int| 0 <= k < 256 implies c[k] == 0 by {
        assert(c[k] == crate::palette::model::count_below(Seq::<u8>::empty(), k, 0));
    }
    let t0 = init_t(m);
    lemma_init_t_ends(m);
    let t1 = next_t(c, t0, m);
    assert forall|i: int| 0 < i < m implies t1[i] == 0 by {
        lemma_zero_hist_seg_mean(c, t0, i);
        lemma_zero_hist_seg_mean(c, t0, i + 1);
    }
    let zeros = Seq::new(m as nat, |j: int| 0int);
    if t1 == t0 {
        assert(solve_iter(c, t0, m, ITER_CAP as nat) == Some(t0));
        assert forall|j: int| 0 <= j < m implies #[trigger] seg_mean(c, t0, j + 1) == 0 by {
            lemma_zero_hist_seg_mean(c, t0, j + 1);
        }
        assert(Seq::new(m as nat, |j: int| seg_mean(c, t0, j + 1)) =~= zeros);
    } else {
        let t2 = next_t(c, t1, m);
        assert forall|i: int| 0 <= i < m + 1 implies t2[i] == t1[i] by {
            if 0 < i < m {
                lemma_zero_hist_seg_mean(c, t1, i);
                lemma_zero_hist_seg_mean(c, t1, i + 1);
            }
        }
        assert(t2 =~= t1);
        assert(solve_iter(c, t0, m, ITER_CAP as nat) == solve_iter(
            c,
            t1,
            m,
            (ITER_CAP - 1) as nat,
        ));
        assert(solve_iter(c, t1, m, (ITER_CAP - 1) as nat) == Some(t1));
        assert forall|j: int| 0 <= j < m implies #[trigger] seg_mean(c, t1, j + 1) == 0 by {
            lemma_zero_hist_seg_mean(c, t1, j + 1);
        }
        assert(Seq::new(m as nat, |j: int| seg_mean(c, t1, j + 1)) =~= zeros);
    }
}

/// With a single level, the palette is the mean of the whole histogram:
/// the iteration converges immediately, and the one segment is the whole
/// luminance range.
pub proof fn lemma_single_level_palette(c: Seq<nat>)
    requires
        c.len() == 256,
    ensures
        palette_of(c, 1) == Some(seq![mean_of(c)]),
{
    let t0 = init_t(1);
    lemma_init_t_ends(1);
    let t1 = next_t(c, t0, 1);
    assert(t1 =~= t0);
    assert(solve_iter(c, t0, 1, ITER_CAP as nat) == Some(t0));
    assert(seg_counts(c, t0, 1) =~= c);
    assert(Seq::new(1nat, |j: int| seg_mean(c, t0, j + 1)) =~= seq![mean_of(c)]);
}

/// A single-colour histogram with one level yields exactly that colour:
/// the one palette entry equals the sole populated luminance.
pub proof fn lemma_single_colour_palette(c: Seq<nat>, l: int)
    requires
        c.len() == 256,
        0 <= l < 256,
        c[l] > 0,
        forall|k: int| 0 <= k < 256 && k != l ==> c[k] == 0,
    ensures
        palette_of(c, 1) == Some(seq![l]),
{
    lemma_single_level_palette(c);
    lemma_spike_sums(c, l, 256);
    assert(total(c) == c[l] as int);
    assert(weighted(c) == l * c[l]);
    lemma_div_multiples_vanish(l, c[l] as int);
    assert(l * (c[l] as int) == (c[l] as int) * l) by {
        vstd::arithmetic::mul::lemma_mul_is_commutative(l, c[l] as int);
    }
    assert(mean_of(c) == l);
    assert(seq![mean_of(c)] =~= seq![l]);
}

} // verus!

