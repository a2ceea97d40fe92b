use vstd::prelude::*;

use crate::matcher::PageSimilarity;
use crate::matcher::find_min_similarity;
use crate::matcher::is_best_at;
use crate::raster::RasterImage;
use crate::raster::diff_count;
use crate::raster::lemma_diff_count_upto_bound;
use crate::raster::row_differs;
use crate::raster::row_differs_at;
use crate::segments::DifferenceSegments;
use crate::segments::denom_for;
use crate::segments::segments_for_rows;
use crate::segments::segments_of_hits;

verus! {

/// The verdict for one revised page: identical to its best baseline match,
/// or different with the vertical bands that differ.
pub enum Comparison {
    Identical,
    Different(DifferenceSegments),
}

/// The per-row "differs" flags of two comparable rasters, top row first.
pub open spec fn row_flags(a: RasterImage, b: RasterImage) -> Seq<bool> {
    Seq::new(a.height as nat, |y: int| row_differs(a, b, y))
}

impl Comparison {
    /// A `Different` verdict carrying the single conventional full-page band.
    pub open spec fn is_full_page_different(self) -> bool {
        self matches Comparison::Different(d) && d.is_full_page()
    }

    /// A `Different` verdict carrying exactly the encoded differing rows of
    /// the two rendered pages, normalized over their row count.
    pub open spec fn is_segments_for(self, a: RasterImage, b: RasterImage) -> bool {
        self matches Comparison::Different(d) && {
            &&& d.denom as nat == denom_for(a.height as nat)
            &&& d.segments@ == segments_of_hits(row_flags(a, b))
            &&& d.wf()
        }
    }

    /// The verdict for one match result: no comparable baseline page
    /// means a full-page difference; distance zero means identical; a
    /// positive distance gets its differing rows encoded as bands.
    pub fn from_similarity(
        sim: &PageSimilarity,
        img_a: Option<&RasterImage>,
        img_b: Option<&RasterImage>,
    ) -> (r: Comparison)
        requires
            (sim matches PageSimilarity::Similar(_, n) && n > 0) ==> {
                &&& img_a matches Some(a) && a.wf()
                &&& img_b matches Some(b) && b.wf()
                &&& img_a matches Some(a) && img_b matches Some(b) && a.comparable(*b)
            },
        ensures
            sim is Different ==> r.is_full_page_different(),
            (sim matches PageSimilarity::Similar(_, n) && n == 0) ==> r is Identical,
            (sim matches PageSimilarity::Similar(_, n) && n > 0) ==> (img_a matches Some(a)
                && img_b matches Some(b) && r.is_segments_for(*a, *b)),
    {
        match *sim {
            PageSimilarity::Different => Comparison::Different(DifferenceSegments::full_page()),
            PageSimilarity::Similar(_index, s) => {
                if s == 0 {
                    Comparison::Identical
                } else {
                    let a = img_a.unwrap();
                    let b = img_b.unwrap();
                    let mut flags: Vec<bool> = Vec::new();
                    let mut y: usize = 0;
                    while y < a.height
                        invariant
                            0 <= y <= a.height,
                            a.wf(),
                            b.wf(),
                            a.comparable(*b),
                            flags@.len() == y,
                            forall|t: int|
                                0 <= t < y ==> flags@[t] == row_differs(*a, *b, t),
                        decreases a.height - y,
                    {
                        let differs = row_differs_at(a, b, y);
                        flags.push(differs);
                        y = y + 1;
                    }
                    proof {
                        assert(flags@ =~= row_flags(*a, *b));
                    }
                    Comparison::Different(segments_for_rows(&flags))
                }
            },
        }
    }
}

/// What one revised page's verdict owes to a loaded baseline document: a
/// full-page difference when no baseline page is comparable; `Identical`
/// when the best match is at distance zero; otherwise the encoded bands
/// against the unique best-matching baseline page.
pub open spec fn verdict_ok(a: RasterImage, pages: Seq<RasterImage>, c: Comparison) -> bool {
    &&& (forall|k: int| 0 <= k < pages.len() ==> !a.comparable(#[trigger] pages[k]))
        ==> c.is_full_page_different()
    &&& forall|j: int|
        #[trigger] is_best_at(a, pages, j) && diff_count(a, pages[j]) == 0 ==> c is Identical
    &&& forall|j: int|
        #[trigger] is_best_at(a, pages, j) && diff_count(a, pages[j]) != 0 ==> c.is_segments_for(
            a,
            pages[j],
        )
    &&& match c {
        Comparison::Different(d) => d.wf(),
        Comparison::Identical => true,
    }
}

/// At most one baseline page is the best match: ties are broken towards
/// the lowest index, and a strictly closer page forbids any later winner.
pub proof fn lemma_best_at_unique(a: RasterImage, pages: Seq<RasterImage>, j1: int, j2: int)
    requires
        is_best_at(a, pages, j1),
        is_best_at(a, pages, j2),
    ensures
        j1 == j2,
{
    if j1 < j2 {
        assert(diff_count(a, pages[j2]) < diff_count(a, pages[j1]));
        assert(diff_count(a, pages[j1]) <= diff_count(a, pages[j2]));
    } else if j2 < j1 {
        assert(diff_count(a, pages[j1]) < diff_count(a, pages[j2]));
        assert(diff_count(a, pages[j2]) <= diff_count(a, pages[j1]));
    }
}

/// Compares a whole revised document against a baseline document. A
/// baseline that failed to load entirely (`None`) makes every revised page
/// a full-page difference; otherwise each revised page gets the verdict of
/// its best baseline match.
pub fn compare_documents(revised: &Vec<RasterImage>, baseline: &Option<Vec<RasterImage>>) -> (r:
    Vec<Comparison>)
    requires
        forall|k: int| 0 <= k < revised@.len() ==> (#[trigger] revised@[k]).wf(),
        baseline matches Some(b) ==> {
            &&& forall|k: int| 0 <= k < b@.len() ==> (#[trigger] b@[k]).wf()
            &&& b@.len() <= u16::MAX as int
        },
    ensures
        r@.len() == revised@.len(),
        baseline is None ==> forall|i: int|
            0 <= i < r@.len() ==> (#[trigger] r@[i]).is_full_page_different(),
        baseline matches Some(b) ==> forall|i: int|
            0 <= i < r@.len() ==> verdict_ok(revised@[i], b@, #[trigger] r@[i]),
{
    let mut r: Vec<Comparison> = Vec::new();
    match baseline {
        None => {
            let mut i: usize = 0;
            while i < revised.len()
                invariant
                    r@.len() == i,
                    0 <= i <= revised@.len(),
                    forall|t: int|
                        0 <= t < i ==> (#[trigger] r@[t]).is_full_page_different(),
                decreases revised@.len() - i,
            {
                r.push(Comparison::Different(DifferenceSegments::full_page()));
                i = i + 1;
            }
        },
        Some(b) => {
            let mut i: usize = 0;
            while i < revised.len()
                invariant
                    r@.len() == i,
                    0 <= i <= revised@.len(),
                    forall|k: int| 0 <= k < revised@.len() ==> (#[trigger] revised@[k]).wf(),
                    forall|k: int| 0 <= k < b@.len() ==> (#[trigger] b@[k]).wf(),
                    b@.len() <= u16::MAX as int,
                    forall|t: int| 0 <= t < i ==> verdict_ok(revised@[t], b@, #[trigger] r@[t]),
                decreases revised@.len() - i,
            {
                let sim = find_min_similarity(&revised[i], b);
                let c = match sim {
                    PageSimilarity::Different => Comparison::from_similarity(&sim, None, None),
                    PageSimilarity::Similar(j, _s) => Comparison::from_similarity(
                        &sim,
                        Some(&revised[i]),
                        Some(&b[j as usize]),
                    ),
                };
                proof {
                    let a = revised@[i as int];
                    match sim {
                        PageSimilarity::Different => {
                            assert forall|j2: int|
                                #[trigger] is_best_at(a, b@, j2) implies false by {
                                assert(!a.comparable(b@[j2]));
                            }
                        },
                        PageSimilarity::Similar(j, s) => {
                            assert(is_best_at(a, b@, j as int));
                            assert(a.comparable(b@[j as int]));
                            assert forall|j2: int|
                                #[trigger] is_best_at(a, b@, j2) implies j2 == j as int by {
                                lemma_best_at_unique(a, b@, j as int, j2);
                            }
                            lemma_diff_count_upto_bound(
                                a.pixels@,
                                b@[j as int].pixels@,
                                a.pixels@.len() as int,
                            );
                        },
                    }
                    assert(verdict_ok(a, b@, c));
                }
                r.push(c);
                i = i + 1;
            }
        },
    }
    r
}

} // verus!
