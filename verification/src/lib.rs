use vstd::prelude::*;

pub mod laws;
pub mod palette;

use crate::palette::{Palette, palette_result_ok};
use crate::palette::model::{as_ints, best_idx, absdiff, hist_of, nearest, palette_of};

verus! {

/// Why a palette request was refused.
#[derive(Clone, Copy, Debug, PartialEq, Eq, Structural)]
pub enum Error {
    /// The requested number of levels was zero.
    InvalidArgument,
    /// The threshold iteration did not reach a fixed point within the cap.
    NonConvergence,
}

/// A greyscale image: its dimensions and one luminance value per pixel,
/// stored in row-major order.
pub struct GreyImage {
    width: usize,
    height: usize,
    data: Vec<u8>,
}

impl GreyImage {
    /// The per-pixel luminance values, in row-major order.
    pub closed spec fn lums(&self) -> Seq<u8> {
        self.data@
    }

    pub closed spec fn spec_width(&self) -> int {
        self.width as int
    }

    pub closed spec fn spec_height(&self) -> int {
        self.height as int
    }

    /// The data holds exactly one luminance value per pixel.
    pub open spec fn wf(&self) -> bool {
        self.lums().len() == self.spec_width() * self.spec_height()
    }

    /// Builds an image from its dimensions and row-major luminance data;
    /// refused when the data length does not match the dimensions.
    pub fn new(width: usize, height: usize, data: Vec<u8>) -> (r: Option<GreyImage>)
        ensures
            match r {
                Some(img) => img.wf() && img.lums() == data@ && img.spec_width() == width
                    && img.spec_height() == height,
                None => data@.len() != width * height,
            },
    {
        let len = data.len();
        match width.checked_mul(height) {
            Some(n) => {
                if len == n {
                    Some(GreyImage { width, height, data })
                } else {
                    None
                }
            },
            None => {
                proof {
                    assert(len <= usize::MAX < width * height);
                }
                None
            },
        }
    }

    pub fn width(&self) -> (r: usize)
        ensures
            r == self.spec_width(),
    {
        self.width
    }

    pub fn height(&self) -> (r: usize)
        ensures
            r == self.spec_height(),
    {
        self.height
    }

    /// Borrows the luminance data.
    pub fn luminances(&self) -> (r: &Vec<u8>)
        ensures
            r@ == self.lums(),
    {
        &self.data
    }
}

/// Full contract of quantisation: on success the output has the input's
/// dimensions and every pixel is remapped to the nearest entry of the
/// image's `m`-level palette (earliest entry on ties); each error is pinned
/// to exactly the inputs that produce it.
pub open spec fn quantise_contract(r: Result<GreyImage, Error>, img: GreyImage, m: int) -> bool {
    match r {
        Ok(q) => {
            &&& m >= 1
            &&& q.wf()
            &&& q.spec_width() == img.spec_width()
            &&& q.spec_height() == img.spec_height()
            &&& q.lums().len() == img.lums().len()
            &&& match palette_of(hist_of(img.lums()), m) {
                Some(pal) => forall|j: int|
                    0 <= j < img.lums().len() ==> #[trigger] q.lums()[j] as int == nearest(
                        pal,
                        img.lums()[j] as int,
                    ),
                None => false,
            }
        },
        Err(Error::InvalidArgument) => m == 0,
        Err(Error::NonConvergence) => m >= 1 && palette_of(hist_of(img.lums()), m)
            == None::<Seq<int>>,
    }
}

/// The palette entry nearest to luminance `v`, the earliest entry on ties.
fn nearest_entry(p: &Vec<u8>, v: u8) -> (r: u8)
    requires
        p@.len() >= 1,
    ensures
        r as int == nearest(as_ints(p@), v as int),
{
    let mut best: u8 = p[0];
    let mut best_diff: u8 = if p[0] >= v {
        p[0] - v
    } else {
        v - p[0]
    };
    let mut n: usize = 1;
    proof {
        assert(as_ints(p@)[0] == p@[0] as int);
    }
    while n < p.len()
        invariant
            p@.len() >= 1,
            1 <= n <= p@.len(),
            best as int == as_ints(p@)[best_idx(as_ints(p@), v as int, n as int)],
            best_diff as int == absdiff(
                as_ints(p@)[best_idx(as_ints(p@), v as int, n as int)],
                v as int,
            ),
        decreases p@.len() - n,
    {
        let e = p[n];
        let d: u8 = if e >= v {
            e - v
        } else {
            v - e
        };
        proof {
            assert(as_ints(p@)[n as int] == p@[n as int] as int);
        }
        if d < best_diff {
            best = e;
            best_diff = d;
        }
        n = n + 1;
    }
    best
}

/// Quantises `img` to `m` grey levels: discovers the palette with strategy
/// `P` and remaps every pixel to its nearest palette entry.
pub fn quantise<P: Palette>(img: &GreyImage, m: usize) -> (r: Result<GreyImage, Error>)
    requires
        img.wf(),
    ensures
        quantise_contract(r, *img, m as int),
{
    match P::palette(img, m) {
        Err(e) => Err(e),
        Ok(p) => {
            let data = img.luminances();
            let mut out: Vec<u8> = Vec::new();
            let mut j: usize = 0;
            while j < data.len()
                invariant
                    palette_result_ok(p@, img.lums(), m as int),
                    p@.len() >= 1,
                    data@ == img.lums(),
                    j <= data@.len(),
                    out@.len() == j,
                    forall|i: int|
                        0 <= i < j ==> #[trigger] out@[i] as int == nearest(
                            as_ints(p@),
                            data@[i] as int,
                        ),
                decreases data@.len() - j,
            {
                let e = nearest_entry(&p, data[j]);
                out.push(e);
                j = j + 1;
            }
            Ok(GreyImage { width: img.width, height: img.height, data: out })
        },
    }
}

} // verus!
