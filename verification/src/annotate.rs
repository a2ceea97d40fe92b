use vstd::prelude::*;

use crate::compare::Comparison;
use crate::segments::DifferenceSegments;

verus! {

/// One engine action of the annotation pass, addressed by the page's live
/// index in the document being edited.
pub enum PageAction {
    /// Delete the page: it is identical to its baseline match.
    Delete { index: usize },
    /// Overlay the page with the highlight bands of its verdict.
    Mark { index: usize, segments: DifferenceSegments },
}

/// Number of `Identical` verdicts among the first `i`: the number of pages
/// already deleted when original page `i` comes up.
pub open spec fn identical_before(comps: Seq<Comparison>, i: int) -> int
    decreases i,
{
    if i <= 0 {
        0
    } else {
        identical_before(comps, i - 1) + if comps[i - 1] is Identical {
            1int
        } else {
            0int
        }
    }
}

/// No more pages can have been deleted than were processed, so the live
/// index of a page never falls below zero.
pub proof fn lemma_identical_before_bound(comps: Seq<Comparison>, i: int)
    requires
        0 <= i,
    ensures
        0 <= identical_before(comps, i) <= i,
    decreases i,
{
    if i > 0 {
        lemma_identical_before_bound(comps, i - 1);
    }
}

/// Law: at the moment original page `i` is processed, its live index is
/// `i + pageShift`, where the shift is minus the number of pages deleted
/// so far — every deletion moves all later pages down by one.
pub open spec fn live_index(comps: Seq<Comparison>, i: int) -> int {
    i - identical_before(comps, i)
}

/// What the planned action for original page `i` must be: identical pages
/// are deleted at their live index, differing pages are marked at their
/// live index with the bands of their verdict.
pub open spec fn action_ok(comps: Seq<Comparison>, i: int, a: PageAction) -> bool {
    match comps[i] {
        Comparison::Identical => a == (PageAction::Delete {
            index: live_index(comps, i) as usize,
        }),
        Comparison::Different(d) => {
            &&& a matches PageAction::Mark { index, segments }
            &&& index as int == live_index(comps, i)
            &&& segments.denom == d.denom
            &&& segments.segments@ == d.segments@
        },
    }
}

/// Plans the whole annotation pass over the verdicts of one document, in
/// original page order, threading the page shift explicitly.
pub fn plan_annotations(comparisons: &Vec<Comparison>) -> (r: Vec<PageAction>)
    ensures
        r@.len() == comparisons@.len(),
        forall|i: int| 0 <= i < r@.len() ==> action_ok(comparisons@, i, #[trigger] r@[i]),
{
    let mut r: Vec<PageAction> = Vec::new();
    let mut deleted: usize = 0;
    let mut i: usize = 0;
    while i < comparisons.len()
        invariant
            0 <= i <= comparisons@.len(),
            r@.len() == i,
            deleted as int == identical_before(comparisons@, i as int),
            deleted <= i,
            forall|t: int| 0 <= t < i ==> action_ok(comparisons@, t, #[trigger] r@[t]),
        decreases comparisons@.len() - i,
    {
        match &comparisons[i] {
            Comparison::Identical => {
                r.push(PageAction::Delete { index: i - deleted });
                deleted = deleted + 1;
            },
            Comparison::Different(d) => {
                r.push(PageAction::Mark { index: i - deleted, segments: d.clone() });
            },
        }
        i = i + 1;
    }
    r
}

/// One overlay picture element, with an opacity channel.
#[derive(Clone, Copy, PartialEq, Eq, Structural, Debug)]
pub struct OverlayPixel {
    pub r: u8,
    pub g: u8,
    pub b: u8,
    pub a: u8,
}

/// The fully opaque red of a highlight bar.
pub open spec fn red() -> OverlayPixel {
    OverlayPixel { r: 255, g: 0, b: 0, a: 255 }
}

/// The fully transparent background of the overlay canvas.
pub open spec fn clear() -> OverlayPixel {
    OverlayPixel { r: 0, g: 0, b: 0, a: 0 }
}

/// A transparent canvas with highlight bars, to be embedded on a page.
pub struct OverlayImage {
    pub width: usize,
    pub height: usize,
    pub pixels: Vec<OverlayPixel>,
}

/// Whether row `y` of a canvas `h` rows tall falls inside the band `seg`
/// over `denom`: rows `floor(h*start)` up to but excluding `floor(h*end)`.
pub open spec fn in_band(seg: (usize, usize), denom: int, h: int, y: int) -> bool {
    seg.0 * h / denom <= y < seg.1 * h / denom
}

/// Whether row `y` falls inside any band of the list.
pub open spec fn row_covered(segs: Seq<(usize, usize)>, denom: int, h: int, y: int) -> bool {
    exists|i: int| 0 <= i < segs.len() && in_band(#[trigger] segs[i], denom, h, y)
}

/// The color owed to canvas position `(x, y)`: the leftmost ten columns of
/// every covered row are painted red; everything else stays transparent.
pub open spec fn overlay_pixel(
    segs: Seq<(usize, usize)>,
    denom: int,
    h: int,
    x: int,
    y: int,
) -> OverlayPixel {
    if x < 10 && row_covered(segs, denom, h, y) {
        red()
    } else {
        clear()
    }
}

proof fn lemma_mul_le(a: int, b: int, c: int)
    requires
        0 <= a <= b,
        0 <= c,
    ensures
        a * c <= b * c,
{
    assert(a * c <= b * c) by (nonlinear_arith)
        requires
            0 <= a <= b,
            0 <= c,
    ;
}

proof fn lemma_row_major(w: int, h: int, x: int, y: int)
    requires
        0 <= x < w,
        0 <= y < h,
    ensures
        (y + 1) * w == y * w + w,
        0 <= y * w + x < w * h,
        y * w + x < (y + 1) * w,
{
    assert((y + 1) * w == y * w + w) by (nonlinear_arith);
    assert(0 <= y * w + x && y * w + x < w * h) by (nonlinear_arith)
        requires
            0 <= x < w,
            0 <= y < h,
    ;
}

/// Decides whether row `y` of an `h`-row canvas falls inside any band.
fn row_covered_at(segments: &DifferenceSegments, h: usize, y: usize) -> (r: bool)
    requires
        segments.wf(),
        h * segments.denom <= usize::MAX,
    ensures
        r == row_covered(segments.segments@, segments.denom as int, h as int, y as int),
{
    let mut covered = false;
    let mut si: usize = 0;
    while si < segments.segments.len()
        invariant
            0 <= si <= segments.segments@.len(),
            segments.wf(),
            h * segments.denom <= usize::MAX,
            covered == exists|i: int|
                0 <= i < si && in_band(
                    #[trigger] segments.segments@[i],
                    segments.denom as int,
                    h as int,
                    y as int,
                ),
        decreases segments.segments@.len() - si,
    {
        let seg = segments.segments[si];
        proof {
            lemma_mul_le(seg.0 as int, segments.denom as int, h as int);
            lemma_mul_le(seg.1 as int, segments.denom as int, h as int);
            assert(segments.denom * h == h * segments.denom) by (nonlinear_arith);
        }
        let rs = (seg.0 * h) / segments.denom;
        let re = (seg.1 * h) / segments.denom;
        if rs <= y && y < re {
            covered = true;
            proof {
                assert(in_band(
                    segments.segments@[si as int],
                    segments.denom as int,
                    h as int,
                    y as int,
                ));
            }
        }
        si = si + 1;
    }
    covered
}

/// Builds the overlay canvas for one differing page: the page dimensions
/// are supersampled five-fold, and each band paints the leftmost ten
/// columns (or the whole width, if narrower) of its rows fully opaque red.
pub fn mark_page_overlay(page_width: usize, page_height: usize, segments: &DifferenceSegments) -> (r:
    OverlayImage)
    requires
        segments.wf(),
        page_width * 5 <= usize::MAX,
        page_height * 5 <= usize::MAX,
        (page_height * 5) * segments.denom <= usize::MAX,
        (page_width * 5) * (page_height * 5) <= usize::MAX,
    ensures
        r.width == page_width * 5,
        r.height == page_height * 5,
        r.pixels@.len() == r.width * r.height,
        forall|x: int, y: int|
            0 <= x < r.width && 0 <= y < r.height ==> r.pixels@[y * r.width + x] == overlay_pixel(
                segments.segments@,
                segments.denom as int,
                r.height as int,
                x,
                y,
            ),
{
    let w = page_width * 5;
    let h = page_height * 5;
    let mut pixels: Vec<OverlayPixel> = Vec::new();
    let mut y: usize = 0;
    while y < h
        invariant
            0 <= y <= h,
            w == page_width * 5,
            h == page_height * 5,
            segments.wf(),
            h * segments.denom <= usize::MAX,
            w * h <= usize::MAX,
            pixels@.len() == y * w,
            forall|xx: int, yy: int|
                0 <= xx < w && 0 <= yy < y ==> pixels@[yy * w + xx] == overlay_pixel(
                    segments.segments@,
                    segments.denom as int,
                    h as int,
                    xx,
                    yy,
                ),
        decreases h - y,
    {
        let covered = row_covered_at(segments, h, y);
        let mut x: usize = 0;
        while x < w
            invariant
                0 <= x <= w,
                0 <= y < h,
                w == page_width * 5,
                h == page_height * 5,
                segments.wf(),
                h * segments.denom <= usize::MAX,
                w * h <= usize::MAX,
                covered == row_covered(segments.segments@, segments.denom as int, h as int, y as int),
                pixels@.len() == y * w + x,
                forall|xx: int, yy: int|
                    0 <= xx < w && 0 <= yy < y ==> pixels@[yy * w + xx] == overlay_pixel(
                        segments.segments@,
                        segments.denom as int,
                        h as int,
                        xx,
                        yy,
                    ),
                forall|xx: int|
                    0 <= xx < x ==> pixels@[y * w + xx] == overlay_pixel(
                        segments.segments@,
                        segments.denom as int,
                        h as int,
                        xx,
                        y as int,
                    ),
            decreases w - x,
        {
            proof {
                lemma_row_major(w as int, h as int, x as int, y as int);
            }
            let p = if covered && x < 10 {
                OverlayPixel { r: 255, g: 0, b: 0, a: 255 }
            } else {
                OverlayPixel { r: 0, g: 0, b: 0, a: 0 }
            };
            pixels.push(p);
            proof {
                assert forall|xx: int, yy: int|
                    0 <= xx < w && 0 <= yy < y implies pixels@[yy * w + xx] == overlay_pixel(
                    segments.segments@,
                    segments.denom as int,
                    h as int,
                    xx,
                    yy,
                ) by {
                    lemma_row_major(w as int, h as int, xx, yy);
                    lemma_mul_le(yy + 1, y as int, w as int);
                }
            }
            x = x + 1;
        }
        proof {
            assert((y + 1) * w == y * w + w) by (nonlinear_arith);
        }
        y = y + 1;
    }
    proof {
        assert(y * w == w * h) by (nonlinear_arith)
            requires
                y == h,
        ;
    }
    OverlayImage { width: w, height: h, pixels }
}

} // verus!
