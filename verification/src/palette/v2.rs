//! Dense histogram strategy: a fixed-size buffer covering the whole
//! luminance range, indexed directly by luminance value.

use vstd::prelude::*;
use vstd::std_specs::vec::vec_index_mut;
use vstd::arithmetic::div_mod::lemma_div_is_ordered;
use vstd::arithmetic::mul::lemma_mul_inequality;
use crate::Error;
use crate::GreyImage;
use crate::palette::{Buckets, Palette};
use crate::palette::model::{lemma_mean_of_range, total_below, weighted_below};
use crate::palette::solver::palette_with;

verus! {

/// A dense luminance histogram: one count per luminance value.
pub struct Histogram {
    buckets: Vec<u64>,
}

impl Histogram {
    /// The occurrence-weighted mean luminance over all buckets, 0 when the
    /// histogram is empty.
    pub fn mean(&self) -> (r: u64)
        requires
            self.wf(),
        ensures
            r as int == crate::palette::model::mean_of(self.counts()),
    {
        let mut sum: u128 = 0;
        let mut tot: u128 = 0;
        let mut k: usize = 0;
        while k < 256
            invariant
                self.buckets@.len() == 256,
                k <= 256,
                sum == weighted_below(self.counts(), k as int),
                tot == total_below(self.counts(), k as int),
                tot <= (k as int) * (u64::MAX as int),
                sum <= 255 * tot,
            decreases 256 - k,
        {
            let c = self.buckets[k];
            proof {
                assert(c as nat == self.counts()[k as int]);
                lemma_mul_inequality(k as int, 255, c as int);
            }
            sum = sum + (k as u128) * (c as u128);
            tot = tot + (c as u128);
            k = k + 1;
        }
        if tot == 0 {
            0
        } else {
            proof {
                lemma_mean_of_range(self.counts());
                lemma_div_is_ordered(sum as int, 255 * (tot as int), tot as int);
            }
            (sum / tot) as u64
        }
    }
}

impl Buckets for Histogram {
    closed spec fn counts(&self) -> Seq<nat> {
        Seq::new(256, |k: int| self.buckets@[k] as nat)
    }

    closed spec fn wf(&self) -> bool {
        self.buckets@.len() == 256
    }

    proof fn lemma_wf(&self) {
    }

    fn empty() -> (r: Self) {
        let mut buckets: Vec<u64> = Vec::new();
        let mut i: usize = 0;
        while i < 256
            invariant
                i <= 256,
                buckets@.len() == i,
                forall|j: int| 0 <= j < i ==> #[trigger] buckets@[j] == 0u64,
            decreases 256 - i,
        {
            buckets.push(0);
            i = i + 1;
        }
        let r = Histogram { buckets };
        proof {
            assert(r.counts() =~= Seq::new(256, |k: int| 0nat));
        }
        r
    }

    fn set(&mut self, k: u8, v: u64) {
        let slot = vec_index_mut(&mut self.buckets, k as usize);
        *slot = v;
        proof {
            assert(self.counts() =~= old(self).counts().update(k as int, v as nat));
        }
    }

    fn count(&self, k: u8) -> (r: u64) {
        self.buckets[k as usize]
    }

    fn increment(&mut self, k: u8) {
        let c = self.buckets[k as usize];
        let slot = vec_index_mut(&mut self.buckets, k as usize);
        *slot = c + 1;
        proof {
            assert(self.counts() =~= old(self).counts().update(
                k as int,
                (old(self).counts()[k as int] + 1) as nat,
            ));
        }
    }

    fn mean(&self) -> (r: u64) {
        Histogram::mean(self)
    }
}

/// The dense, fixed-buffer palette strategy.
pub struct V2 {}

impl Palette for V2 {
    fn palette(img: &GreyImage, m: usize) -> (r: Result<Vec<u8>, Error>) {
        palette_with::<Histogram>(img, m)
    }
}

} // verus!
