//! Sparse histogram strategy: only observed luminance values are
//! materialised, in a hash map from luminance to count.

use vstd::prelude::*;
use std::collections::HashMap;
use vstd::arithmetic::div_mod::lemma_div_is_ordered;
use vstd::arithmetic::mul::lemma_mul_inequality;
use crate::Error;
use crate::GreyImage;
use crate::palette::{Buckets, Palette};
use crate::palette::model::{lemma_mean_of_range, total_below, weighted_below};
use crate::palette::solver::palette_with;

verus! {

broadcast use vstd::std_specs::hash::group_hash_axioms;

/// A sparse luminance histogram: absent keys mean a count of zero.
pub struct Histogram {
    map: HashMap<u8, u64>,
}

impl Histogram {
    /// The occurrence-weighted mean luminance over all buckets, 0 when the
    /// histogram is empty.
    pub fn mean(&self) -> (r: u64)
        requires
            self.wf(),
        ensures
            r as int == crate::palette::model::mean_of(self.counts()),
    {
        let mut sum: u128 = 0;
        let mut tot: u128 = 0;
        let mut k: usize = 0;
        while k < 256
            invariant
                k <= 256,
                sum == weighted_below(self.counts(), k as int),
                tot == total_below(self.counts(), k as int),
                tot <= (k as int) * (u64::MAX as int),
                sum <= 255 * tot,
            decreases 256 - k,
        {
            let c = match self.map.get(&(k as u8)) {
                Some(v) => *v,
                None => 0,
            };
            proof {
                assert(((k as int) as u8) as int == k as int);
                assert(c as nat == self.counts()[k as int]);
                lemma_mul_inequality(k as int, 255, c as int);
            }
            sum = sum + (k as u128) * (c as u128);
            tot = tot + (c as u128);
            k = k + 1;
        }
        if tot == 0 {
            0
        } else {
            proof {
                lemma_mean_of_range(self.counts());
                lemma_div_is_ordered(sum as int, 255 * (tot as int), tot as int);
            }
            (sum / tot) as u64
        }
    }
}

impl Buckets for Histogram {
    closed spec fn counts(&self) -> Seq<nat> {
        Seq::new(
            256,
            |k: int| if self.map@.contains_key(k as u8) {
                self.map@[k as u8] as nat
            } else {
                0nat
            },
        )
    }

    closed spec fn wf(&self) -> bool {
        true
    }

    proof fn lemma_wf(&self) {
    }

    fn empty() -> (r: Self) {
        let r = Histogram { map: HashMap::new() };
        proof {
            assert(r.counts() =~= Seq::new(256, |k: int| 0nat));
        }
        r
    }

    fn set(&mut self, k: u8, v: u64) {
        self.map.insert(k, v);
        proof {
            assert forall|j: int| 0 <= j < 256 implies #[trigger] self.counts()[j] == old(
                self,
            ).counts().update(k as int, v as nat)[j] by {
                assert((k as int) as u8 == k);
            }
            assert(self.counts() =~= old(self).counts().update(k as int, v as nat));
        }
    }

    fn count(&self, k: u8) -> (r: u64) {
        match self.map.get(&k) {
            Some(v) => *v,
            None => 0,
        }
    }

    fn increment(&mut self, k: u8) {
        let c = self.count(k);
        self.map.insert(k, c + 1);
        proof {
            assert forall|j: int| 0 <= j < 256 implies #[trigger] self.counts()[j] == old(
                self,
            ).counts().update(k as int, (old(self).counts()[k as int] + 1) as nat)[j] by {
                assert((k as int) as u8 == k);
            }
            assert(self.counts() =~= old(self).counts().update(
                k as int,
                (old(self).counts()[k as int] + 1) as nat,
            ));
        }
    }

    fn mean(&self) -> (r: u64) {
        Histogram::mean(self)
    }
}

/// The sparse, map-backed palette strategy.
pub struct V1 {}

impl Palette for V1 {
    fn palette(img: &GreyImage, m: usize) -> (r: Result<Vec<u8>, Error>) {
        palette_with::<Histogram>(img, m)
    }
}

} // verus!
