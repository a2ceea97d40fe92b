use vstd::prelude::*;

use crate::raster::RasterImage;
use crate::raster::diff_count;
use crate::raster::lemma_diff_count_upto_bound;

verus! {

/// Distance between one revised page and one baseline page: either the
/// dimensions differ, or the number of differing pixel positions.
#[derive(Clone, Copy, PartialEq, Eq, Structural, Debug)]
pub enum Similiarity {
    Different,
    Similar(usize),
}

/// The total order on distances: `Different` is worse than any pixel
/// count; among counts, the lower one is closer.
pub open spec fn similarity_order(a: Similiarity, b: Similiarity) -> core::cmp::Ordering {
    match (a, b) {
        (Similiarity::Different, Similiarity::Different) => core::cmp::Ordering::Equal,
        (Similiarity::Different, Similiarity::Similar(_)) => core::cmp::Ordering::Greater,
        (Similiarity::Similar(_), Similiarity::Different) => core::cmp::Ordering::Less,
        (Similiarity::Similar(s), Similiarity::Similar(o)) => if s < o {
            core::cmp::Ordering::Less
        } else if s == o {
            core::cmp::Ordering::Equal
        } else {
            core::cmp::Ordering::Greater
        },
    }
}

impl Similiarity {
    /// Explicit total-order comparison; `Different` ranks above every count.
    pub fn cmp(&self, other: &Self) -> (r: core::cmp::Ordering)
        ensures
            r == similarity_order(*self, *other),
    {
        match (self, other) {
            (Similiarity::Different, Similiarity::Different) => core::cmp::Ordering::Equal,
            (Similiarity::Different, Similiarity::Similar(_)) => core::cmp::Ordering::Greater,
            (Similiarity::Similar(_), Similiarity::Different) => core::cmp::Ordering::Less,
            (Similiarity::Similar(s), Similiarity::Similar(o)) => {
                if s < o {
                    core::cmp::Ordering::Less
                } else if s == o {
                    core::cmp::Ordering::Equal
                } else {
                    core::cmp::Ordering::Greater
                }
            },
        }
    }
}

/// Law: the distance comparison is a total order — it is reflexive,
/// antisymmetric, and transitive, and `Different` never ranks below a
/// pixel count.
pub proof fn lemma_similarity_order_total(a: Similiarity, b: Similiarity, c: Similiarity)
    ensures
        similarity_order(a, a) == core::cmp::Ordering::Equal,
        (similarity_order(a, b) == core::cmp::Ordering::Less) <==> (similarity_order(b, a)
            == core::cmp::Ordering::Greater),
        (similarity_order(a, b) != core::cmp::Ordering::Greater && similarity_order(b, c)
            != core::cmp::Ordering::Greater) ==> similarity_order(a, c)
            != core::cmp::Ordering::Greater,
        a is Different ==> similarity_order(a, b) != core::cmp::Ordering::Less,
{
}

/// Computes the pixel distance of two rendered pages: `Different` when the
/// dimensions differ, otherwise the exact count of differing positions.
pub fn compare_images(img_a: &RasterImage, img_b: &RasterImage) -> (r: Similiarity)
    requires
        img_a.wf(),
        img_b.wf(),
    ensures
        !img_a.comparable(*img_b) ==> r == Similiarity::Different,
        img_a.comparable(*img_b) ==> (r matches Similiarity::Similar(c) && c as int == diff_count(
            *img_a,
            *img_b,
        )),
{
    if img_a.width != img_b.width || img_a.height != img_b.height {
        return Similiarity::Different;
    }
    let n = img_a.pixels.len();
    let mut count: usize = 0;
    let mut k: usize = 0;
    while k < n
        invariant
            0 <= k <= n,
            n == img_a.pixels@.len(),
            img_b.pixels@.len() == n,
            count == crate::raster::diff_count_upto(img_a.pixels@, img_b.pixels@, k as int),
            count <= k,
        decreases n - k,
    {
        let pa = img_a.pixels[k];
        let pb = img_b.pixels[k];
        if pa.r != pb.r || pa.g != pb.g || pa.b != pb.b {
            count = count + 1;
        }
        k = k + 1;
    }
    Similiarity::Similar(count)
}

/// The best-matching baseline page for a revised page: index `j` is in
/// range and comparable, no comparable page is strictly closer, and every
/// comparable page before `j` is strictly farther (first-encountered wins
/// ties, so the lowest index is preferred).
pub open spec fn is_best_at(a: RasterImage, pages: Seq<RasterImage>, j: int) -> bool {
    &&& 0 <= j < pages.len()
    &&& a.comparable(pages[j])
    &&& forall|k: int|
        0 <= k < pages.len() && a.comparable(#[trigger] pages[k]) ==> diff_count(a, pages[j])
            <= diff_count(a, pages[k])
    &&& forall|k: int|
        0 <= k < j && a.comparable(#[trigger] pages[k]) ==> diff_count(a, pages[j]) < diff_count(
            a,
            pages[k],
        )
}

/// The match result for one revised page: either no baseline page is
/// dimensionally comparable, or the closest baseline page and its distance.
#[derive(Clone, Copy, PartialEq, Eq, Structural, Debug)]
pub enum PageSimilarity {
    Different,
    Similar(u16, usize),
}

/// Searches every baseline page for the minimum pixel distance to the
/// revised page. Page indices are 16 bits wide, as in the document engine.
pub fn find_min_similarity(img_a: &RasterImage, pages: &Vec<RasterImage>) -> (r: PageSimilarity)
    requires
        img_a.wf(),
        forall|k: int| 0 <= k < pages@.len() ==> (#[trigger] pages@[k]).wf(),
        pages@.len() <= u16::MAX as int,
    ensures
        (r is Different) <==> (forall|k: int|
            0 <= k < pages@.len() ==> !img_a.comparable(#[trigger] pages@[k])),
        r matches PageSimilarity::Similar(j, c) ==> {
            &&& is_best_at(*img_a, pages@, j as int)
            &&& c as int == diff_count(*img_a, pages@[j as int])
        },
{
    let mut best: Option<(u16, usize)> = None;
    let mut i: usize = 0;
    while i < pages.len()
        invariant
            0 <= i <= pages@.len(),
            pages@.len() <= u16::MAX as int,
            img_a.wf(),
            forall|k: int| 0 <= k < pages@.len() ==> (#[trigger] pages@[k]).wf(),
            best is None <==> (forall|k: int|
                0 <= k < i ==> !img_a.comparable(#[trigger] pages@[k])),
            best matches Some((j, c)) ==> {
                &&& (j as int) < (i as int)
                &&& img_a.comparable(pages@[j as int])
                &&& c as int == diff_count(*img_a, pages@[j as int])
                &&& forall|k: int|
                    0 <= k < i && img_a.comparable(#[trigger] pages@[k]) ==> c as int <= diff_count(
                        *img_a,
                        pages@[k],
                    )
                &&& forall|k: int|
                    0 <= k < j as int && img_a.comparable(#[trigger] pages@[k]) ==> (c as int)
                        < diff_count(*img_a, pages@[k])
            },
        decreases pages@.len() - i,
    {
        let sim = compare_images(img_a, &pages[i]);
        proof {
            lemma_diff_count_upto_bound(
                img_a.pixels@,
                pages@[i as int].pixels@,
                img_a.pixels@.len() as int,
            );
        }
        match sim {
            Similiarity::Similar(c) => {
                match best {
                    None => {
                        best = Some(((i as u16), c));
                    },
                    Some((_, bc)) => {
                        if c < bc {
                            best = Some(((i as u16), c));
                        }
                    },
                }
            },
            Similiarity::Different => {},
        }
        i = i + 1;
    }
    match best {
        Some((j, c)) => PageSimilarity::Similar(j, c),
        None => PageSimilarity::Different,
    }
}

} // verus!
