//! The shared threshold solver: the fixed-point iteration over segment
//! means, written once against the `Buckets` capability contract.

use vstd::prelude::*;
use vstd::arithmetic::div_mod::{lemma_div_is_ordered, lemma_div_multiples_vanish};
use vstd::arithmetic::mul::lemma_mul_inequality;
use crate::Error;
use crate::GreyImage;
use crate::palette::Buckets;
use crate::palette::model::{
    ITER_CAP, as_ints, count_below, hist_of, in_segment, init_t, lemma_count_below_le,
    lemma_seg_mean_range, next_t, palette_of, seg_counts, seg_mean, solve_iter,
};
verus! {

/// An executable threshold vector seen as a sequence of integers.
pub open spec fn view_t(t: Seq<usize>) -> Seq<int> {
    t.map_values(|x: usize| x as int)
}

/// Two threshold vectors with equal integer views are equal.
proof fn lemma_view_t_injective(x: Seq<usize>, y: Seq<usize>)
    requires
        view_t(x) == view_t(y),
    ensures
        x == y,
{
    assert(view_t(x).len() == x.len());
    assert(view_t(y).len() == y.len());
    assert(x.len() == y.len());
    assert forall|i: int| 0 <= i < x.len() implies x[i] == y[i] by {
        assert(view_t(x)[i] == x[i] as int);
        assert(view_t(y)[i] == y[i] as int);
    }
    assert(x =~= y);
}

/// The uniform initial partition of [0, 256] into `m` bins.
fn init_thresholds(m: usize) -> (t: Vec<usize>)
    requires
        m >= 1,
    ensures
        t@.len() == m + 1,
        view_t(t@) == init_t(m as int),
        t@[0] == 0,
        t@[m as int] == 256,
{
    let mut t: Vec<usize> = Vec::new();
    let mut i: usize = 0;
    while i < m
        invariant
            m >= 1,
            i <= m,
            t@.len() == i,
            forall|j: int| 0 <= j < i ==> t@[j] == j * 256 / (m as int),
        decreases m - i,
    {
        let v128: u128 = ((i as u128) * 256) / (m as u128);
        proof {
            lemma_div_is_ordered((i as int) * 256, (m as int) * 256, m as int);
            lemma_div_multiples_vanish(256, m as int);
            lemma_mul_inequality(i as int, m as int, 256);
            assert((i as int) * 256 / (m as int) <= 256);
            vstd::arithmetic::div_mod::lemma_div_pos_is_pos((i as int) * 256, m as int);
        }
        let v: usize = v128 as usize;
        t.push(v);
        i = i + 1;
    }
    t.push(256);
    proof {
        lemma_div_multiples_vanish(256, m as int);
        assert((m as int) * 256 == 256 * (m as int));
        assert((m as int) * 256 / (m as int) == 256);
        assert(view_t(t@) =~= init_t(m as int));
        assert(t@[0] as int == (0int) * 256 / (m as int));
    }
    t
}

/// Builds the sub-histogram of the buckets assigned to segment `i` under
/// the threshold vector `t`.
fn segment_of<B: Buckets>(hist: &B, t: &Vec<usize>, i: usize, m: usize) -> (s: B)
    requires
        hist.wf(),
        t@.len() == m + 1,
        1 <= i <= m,
    ensures
        s.wf(),
        s.counts() == seg_counts(hist.counts(), view_t(t@), i as int),
{
    proof {
        hist.lemma_wf();
    }
    let mut s = B::empty();
    let mut k: usize = 0;
    while k < 256
        invariant
            hist.wf(),
            s.wf(),
            t@.len() == m + 1,
            1 <= i <= m,
            k <= 256,
            s.counts().len() == 256,
            hist.counts().len() == 256,
            forall|j: int|
                0 <= j < 256 ==> #[trigger] s.counts()[j] == (if j < k && in_segment(
                    view_t(t@),
                    i as int,
                    j,
                ) {
                    hist.counts()[j]
                } else {
                    0nat
                }),
        decreases 256 - k,
    {
        let inseg: bool = if k == 0 {
            i == 1
        } else {
            t[i - 1] < k && k <= t[i]
        };
        proof {
            assert(inseg == in_segment(view_t(t@), i as int, k as int));
        }
        if inseg {
            let c = hist.count(k as u8);
            s.set(k as u8, c);
        }
        k = k + 1;
    }
    proof {
        assert(s.counts() =~= seg_counts(hist.counts(), view_t(t@), i as int));
    }
    s
}

/// Computes the weighted mean of every segment 1..=m under `t`.
fn averages_of<B: Buckets>(hist: &B, t: &Vec<usize>, m: usize) -> (a: Vec<u8>)
    requires
        hist.wf(),
        t@.len() == m + 1,
        m >= 1,
    ensures
        a@.len() == m,
        forall|j: int|
            0 <= j < m ==> #[trigger] a@[j] as int == seg_mean(hist.counts(), view_t(t@), j + 1),
{
    let mut a: Vec<u8> = Vec::new();
    let mut i: usize = 0;
    while i < m
        invariant
            hist.wf(),
            t@.len() == m + 1,
            m >= 1,
            i <= m,
            a@.len() == i,
            forall|j: int|
                0 <= j < i ==> #[trigger] a@[j] as int == seg_mean(
                    hist.counts(),
                    view_t(t@),
                    j + 1,
                ),
        decreases m - i,
    {
        let s = segment_of(hist, t, i + 1, m);
        let mv = s.mean();
        proof {
            lemma_seg_mean_range(hist.counts(), view_t(t@), i + 1);
        }
        a.push(mv as u8);
        i = i + 1;
    }
    a
}

/// One re-thresholding pass: each interior threshold becomes the midpoint of
/// the two adjacent segment means; the outer bounds stay as they are.
fn rethreshold(t: &Vec<usize>, a: &Vec<u8>, m: usize) -> (t2: Vec<usize>)
    requires
        t@.len() == m + 1,
        a@.len() == m,
        m >= 1,
    ensures
        t2@.len() == m + 1,
        t2@[0] == t@[0],
        t2@[m as int] == t@[m as int],
        forall|i: int|
            1 <= i < m ==> #[trigger] t2@[i] as int == (a@[i - 1] as int + a@[i] as int) / 2,
{
    let mut t2: Vec<usize> = Vec::new();
    t2.push(t[0]);
    let mut i: usize = 1;
    while i < m
        invariant
            t@.len() == m + 1,
            a@.len() == m,
            m >= 1,
            1 <= i <= m,
            t2@.len() == i,
            t2@[0] == t@[0],
            forall|j: int|
                1 <= j < i ==> #[trigger] t2@[j] as int == (a@[j - 1] as int + a@[j] as int) / 2,
        decreases m - i,
    {
        let mid: usize = (a[i - 1] as usize + a[i] as usize) / 2;
        t2.push(mid);
        i = i + 1;
    }
    t2.push(t[m]);
    t2
}

/// Element-wise equality of two threshold vectors.
fn vecs_equal(x: &Vec<usize>, y: &Vec<usize>) -> (r: bool)
    requires
        x@.len() == y@.len(),
    ensures
        r <==> x@ == y@,
{
    let mut i: usize = 0;
    while i < x.len()
        invariant
            x@.len() == y@.len(),
            i <= x@.len(),
            forall|j: int| 0 <= j < i ==> x@[j] == y@[j],
        decreases x@.len() - i,
    {
        if x[i] != y[i] {
            proof {
                assert(x@[i as int] != y@[i as int]);
            }
            return false;
        }
        i = i + 1;
    }
    proof {
        assert(x@ =~= y@);
    }
    true
}

/// Runs the threshold iteration to its fixed point: returns the converged
/// threshold vector together with the segment means computed at it, or
/// reports non-convergence once the iteration cap is exhausted.
pub fn solve<B: Buckets>(hist: &B, m: usize) -> (r: Result<(Vec<usize>, Vec<u8>), Error>)
    requires
        hist.wf(),
        m >= 1,
    ensures
        match r {
            Ok((t, a)) => {
                &&& solve_iter(hist.counts(), init_t(m as int), m as int, ITER_CAP as nat)
                    == Some(view_t(t@))
                &&& t@.len() == m + 1
                &&& t@[0] == 0
                &&& t@[m as int] == 256
                &&& a@.len() == m
                &&& forall|j: int|
                    0 <= j < m ==> #[trigger] a@[j] as int == seg_mean(
                        hist.counts(),
                        view_t(t@),
                        j + 1,
                    )
            },
            Err(e) => e == Error::NonConvergence && solve_iter(
                hist.counts(),
                init_t(m as int),
                m as int,
                ITER_CAP as nat,
            ) == None::<Seq<int>>,
        },
{
    let mut t = init_thresholds(m);
    let mut iters: usize = 0;
    while iters < ITER_CAP
        invariant
            hist.wf(),
            m >= 1,
            iters <= ITER_CAP,
            t@.len() == m + 1,
            t@[0] == 0,
            t@[m as int] == 256,
            solve_iter(hist.counts(), init_t(m as int), m as int, ITER_CAP as nat) == solve_iter(
                hist.counts(),
                view_t(t@),
                m as int,
                (ITER_CAP - iters) as nat,
            ),
        decreases ITER_CAP - iters,
    {
        let a = averages_of(hist, &t, m);
        let t2 = rethreshold(&t, &a, m);
        proof {
            assert(view_t(t2@) =~= next_t(hist.counts(), view_t(t@), m as int));
        }
        if vecs_equal(&t2, &t) {
            proof {
                assert(view_t(t2@) == view_t(t@));
                assert(next_t(hist.counts(), view_t(t@), m as int) == view_t(t@));
                assert(solve_iter(
                    hist.counts(),
                    view_t(t@),
                    m as int,
                    (ITER_CAP - iters) as nat,
                ) == Some(view_t(t@)));
            }
            return Ok((t, a));
        }
        proof {
            if view_t(t2@) == view_t(t@) {
                lemma_view_t_injective(t2@, t@);
            }
            assert(next_t(hist.counts(), view_t(t@), m as int) != view_t(t@));
            assert(solve_iter(hist.counts(), view_t(t@), m as int, (ITER_CAP - iters) as nat)
                == solve_iter(
                hist.counts(),
                view_t(t2@),
                m as int,
                (ITER_CAP - iters - 1) as nat,
            ));
        }
        t = t2;
        iters = iters + 1;
    }
    Err(Error::NonConvergence)
}

/// Builds a histogram of the image's luminance values under any strategy.
pub fn histogram_of<B: Buckets>(img: &GreyImage) -> (h: B)
    ensures
        h.wf(),
        h.counts() == hist_of(img.lums()),
{
    let data = img.luminances();
    let mut h = B::empty();
    proof {
        h.lemma_wf();
    }
    let mut i: usize = 0;
    while i < data.len()
        invariant
            h.wf(),
            data@ == img.lums(),
            i <= data@.len(),
            h.counts().len() == 256,
            forall|k: int| 0 <= k < 256 ==> #[trigger] h.counts()[k] == count_below(
                data@,
                k,
                i as int,
            ),
        decreases data@.len() - i,
    {
        let v = data[i];
        proof {
            lemma_count_below_le(data@, v as int, i as int);
        }
        h.increment(v);
        i = i + 1;
        proof {
            assert forall|k: int| 0 <= k < 256 implies #[trigger] h.counts()[k] == count_below(
                data@,
                k,
                i as int,
            ) by {
                assert(count_below(data@, k, i as int) == count_below(data@, k, i - 1) + (
                if data@[i - 1] == k {
                    1nat
                } else {
                    0nat
                }));
            }
            h.lemma_wf();
        }
    }
    proof {
        assert(h.counts() =~= hist_of(data@));
    }
    h
}

/// Drives palette discovery for one strategy: validates `m`, builds the
/// histogram, solves, and returns the converged segment means.
pub fn palette_with<B: Buckets>(img: &GreyImage, m: usize) -> (r: Result<Vec<u8>, Error>)
    ensures
        crate::palette::palette_contract(r, img.lums(), m as int),
{
    if m == 0 {
        return Err(Error::InvalidArgument);
    }
    let hist: B = histogram_of(img);
    match solve(&hist, m) {
        Ok((t, a)) => {
            proof {
                let c = hist_of(img.lums());
                assert(as_ints(a@) =~= Seq::new(
                    m as nat,
                    |j: int| seg_mean(c, view_t(t@), j + 1),
                ));
            }
            Ok(a)
        },
        Err(e) => Err(e),
    }
}

} // verus!
