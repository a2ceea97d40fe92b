use vstd::prelude::*;

verus! {

/// One picture element, three channels.
#[derive(Clone, Copy, PartialEq, Eq, Structural, Debug)]
pub struct Pixel {
    pub r: u8,
    pub g: u8,
    pub b: u8,
}

/// A rendered page: a row-major pixel buffer of the given dimensions.
pub struct RasterImage {
    pub width: usize,
    pub height: usize,
    pub pixels: Vec<Pixel>,
}

impl RasterImage {
    /// The buffer holds exactly one pixel per coordinate.
    pub open spec fn wf(self) -> bool {
        self.pixels@.len() == self.width * self.height
    }

    /// Two rasters can be compared pixel by pixel only at equal dimensions.
    pub open spec fn comparable(self, other: RasterImage) -> bool {
        self.width == other.width && self.height == other.height
    }

    /// The pixel at column `x` of row `y`.
    pub open spec fn pixel_at(self, x: int, y: int) -> Pixel {
        self.pixels@[y * self.width + x]
    }
}

/// Number of positions in `0..n` of the flat buffers at which they differ.
pub open spec fn diff_count_upto(a: Seq<Pixel>, b: Seq<Pixel>, n: int) -> int
    decreases n,
{
    if n <= 0 {
        0
    } else {
        diff_count_upto(a, b, n - 1) + if a[n - 1] == b[n - 1] {
            0int
        } else {
            1int
        }
    }
}

/// Number of pixel positions at which two equal-size rasters differ.
pub open spec fn diff_count(a: RasterImage, b: RasterImage) -> int {
    diff_count_upto(a.pixels@, b.pixels@, a.pixels@.len() as int)
}

/// Whether any pixel of row `y` differs between the two rasters.
pub open spec fn row_differs(a: RasterImage, b: RasterImage, y: int) -> bool {
    exists|x: int| 0 <= x < a.width && a.pixel_at(x, y) != b.pixel_at(x, y)
}

/// Row-major indexing stays inside the buffer of a well-formed raster.
pub proof fn lemma_flat_index(w: int, h: int, x: int, y: int)
    requires
        0 <= x < w,
        0 <= y < h,
    ensures
        0 <= y * w,
        y * w + x < w * h,
{
    assert(y * w >= 0 && y * w + x < w * h) by (nonlinear_arith)
        requires
            0 <= x < w,
            0 <= y < h,
    ;
}

/// Decides whether row `y` of the two comparable rasters differs anywhere.
pub fn row_differs_at(a: &RasterImage, b: &RasterImage, y: usize) -> (r: bool)
    requires
        a.wf(),
        b.wf(),
        a.comparable(*b),
        y < a.height,
    ensures
        r == row_differs(*a, *b, y as int),
{
    let n = a.pixels.len();
    let mut x: usize = 0;
    while x < a.width
        invariant
            0 <= x <= a.width,
            y < a.height,
            a.wf(),
            b.wf(),
            a.comparable(*b),
            n == a.pixels@.len(),
            forall|t: int| 0 <= t < x ==> a.pixel_at(t, y as int) == b.pixel_at(t, y as int),
        decreases a.width - x,
    {
        proof {
            lemma_flat_index(a.width as int, a.height as int, x as int, y as int);
        }
        let k = y * a.width + x;
        let pa = a.pixels[k];
        let pb = b.pixels[k];
        if pa.r != pb.r || pa.g != pb.g || pa.b != pb.b {
            proof {
                assert(a.pixel_at(x as int, y as int) != b.pixel_at(x as int, y as int));
            }
            return true;
        }
        x = x + 1;
    }
    false
}

/// The count never exceeds the number of positions considered.
pub proof fn lemma_diff_count_upto_bound(a: Seq<Pixel>, b: Seq<Pixel>, n: int)
    ensures
        0 <= diff_count_upto(a, b, n) <= if n <= 0 {
            0int
        } else {
            n
        },
    decreases n,
{
    if n > 0 {
        lemma_diff_count_upto_bound(a, b, n - 1);
    }
}

/// Law: a raster compared with itself differs at no position.
pub proof fn lemma_diff_count_self_zero(a: RasterImage)
    ensures
        diff_count(a, a) == 0,
{
    lemma_diff_count_upto_self(a.pixels@, a.pixels@.len() as int);
}

proof fn lemma_diff_count_upto_self(s: Seq<Pixel>, n: int)
    ensures
        diff_count_upto(s, s, n) == 0,
    decreases n,
{
    if n > 0 {
        lemma_diff_count_upto_self(s, n - 1);
    }
}

/// Law: two equal-size rasters that differ at every position differ at
/// exactly `width * height` positions.
pub proof fn lemma_diff_count_all_different(a: RasterImage, b: RasterImage)
    requires
        a.wf(),
        b.wf(),
        a.comparable(b),
        forall|k: int| 0 <= k < a.pixels@.len() ==> a.pixels@[k] != b.pixels@[k],
    ensures
        diff_count(a, b) == a.width * a.height,
{
    lemma_diff_count_upto_all(a.pixels@, b.pixels@, a.pixels@.len() as int);
}

proof fn lemma_diff_count_upto_all(a: Seq<Pixel>, b: Seq<Pixel>, n: int)
    requires
        forall|k: int| 0 <= k < n ==> a[k] != b[k],
    ensures
        diff_count_upto(a, b, n) == if n <= 0 {
            0int
        } else {
            n
        },
    decreases n,
{
    if n > 0 {
        lemma_diff_count_upto_all(a, b, n - 1);
    }
}

} // verus!
