//! Palette discovery: the histogram capability contract, the shared
//! threshold solver, and the two histogram strategies.

pub mod model;
pub mod solver;
pub mod v1;
pub mod v2;

pub use v1::V1;
pub use v2::V2;

use vstd::prelude::*;
use crate::Error;
use crate::GreyImage;
use crate::palette::model::{as_ints, hist_of, mean_of, palette_of};

verus! {

/// Capability contract shared by the histogram strategies: a total mapping
/// from luminance value to occurrence count, with bucket overwrite, bucket
/// lookup, per-pixel increment, and the occurrence-weighted mean.
pub trait Buckets: Sized {
    /// The abstract contents: one count per luminance value in [0, 256).
    spec fn counts(&self) -> Seq<nat>;

    /// Structural well-formedness of the representation.
    spec fn wf(&self) -> bool;

    /// A well-formed histogram has exactly 256 buckets, each count
    /// representable as a machine word.
    proof fn lemma_wf(&self)
        requires
            self.wf(),
        ensures
            self.counts().len() == 256,
            forall|k: int| 0 <= k < 256 ==> #[trigger] self.counts()[k] <= u64::MAX;

    /// A histogram with every count zero.
    fn empty() -> (r: Self)
        ensures
            r.wf(),
            r.counts() == Seq::new(256, |k: int| 0nat);

    /// Sets bucket `k` to `v`.
    fn set(&mut self, k: u8, v: u64)
        requires
            old(self).wf(),
        ensures
            final(self).wf(),
            final(self).counts() == old(self).counts().update(k as int, v as nat);

    /// The count held by bucket `k`.
    fn count(&self, k: u8) -> (r: u64)
        requires
            self.wf(),
        ensures
            r as nat == self.counts()[k as int];

    /// Records one more pixel of luminance `k`.
    fn increment(&mut self, k: u8)
        requires
            old(self).wf(),
            old(self).counts()[k as int] < u64::MAX,
        ensures
            final(self).wf(),
            final(self).counts() == old(self).counts().update(
                k as int,
                (old(self).counts()[k as int] + 1) as nat,
            );

    /// The occurrence-weighted mean luminance over all buckets, 0 when the
    /// histogram is empty.
    fn mean(&self) -> (r: u64)
        requires
            self.wf(),
        ensures
            r as int == mean_of(self.counts());
}

/// What a successful palette computation returns for luminance data `s` and
/// level count `m`: exactly the converged segment means, in segment order.
pub open spec fn palette_result_ok(p: Seq<u8>, s: Seq<u8>, m: int) -> bool {
    &&& m >= 1
    &&& p.len() == m
    &&& palette_of(hist_of(s), m) == Some(as_ints(p))
}

/// Full contract of palette discovery over luminance data `s`: success and
/// each error are each pinned to exactly the inputs that produce them.
pub open spec fn palette_contract(r: Result<Vec<u8>, Error>, s: Seq<u8>, m: int) -> bool {
    match r {
        Ok(p) => palette_result_ok(p@, s, m),
        Err(Error::InvalidArgument) => m == 0,
        Err(Error::NonConvergence) => m >= 1 && palette_of(hist_of(s), m) == None::<Seq<int>>,
    }
}

/// A palette discovery strategy: builds a histogram of the image and drives
/// the threshold solver to convergence.
pub trait Palette {
    /// Computes the `m`-level palette of `img`.
    fn palette(img: &GreyImage, m: usize) -> (r: Result<Vec<u8>, Error>)
        ensures
            palette_contract(r, img.lums(), m as int);
}

} // verus!
