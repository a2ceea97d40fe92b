use vstd::prelude::*;

verus! {

/// Vertical bands of a page that differ, in increasing row order.
///
/// Each band `(s, e)` stands for the closed fraction interval
/// `s/denom .. e/denom` of the page height; `denom` is shared by every band
/// of one list. A band produced from rows `s..=e` of an image with `r` rows
/// uses `denom == r - 1` (or `1` when the image has a single row), so the
/// bounds always lie in `[0, 1]` of the page height.
pub struct DifferenceSegments {
    /// Band bounds as numerators over `denom`.
    pub segments: Vec<(usize, usize)>,
    /// Common denominator of the band bounds; at least 1.
    pub denom: usize,
}

impl DifferenceSegments {
    /// Bounds lie in `[0, denom]`, each band is ordered internally, and
    /// bands are strictly ordered and disjoint among themselves.
    pub open spec fn wf(self) -> bool {
        &&& self.denom >= 1
        &&& forall|i: int|
            0 <= i < self.segments@.len() ==> (#[trigger] self.segments@[i]).0
                <= self.segments@[i].1 <= self.denom
        &&& forall|i: int, j: int|
            0 <= i < j < self.segments@.len() ==> (#[trigger] self.segments@[i]).1 < (
            #[trigger] self.segments@[j]).0
    }

    /// The single band covering the whole page, used when no baseline page
    /// is comparable at all.
    pub open spec fn is_full_page(self) -> bool {
        &&& self.denom == 1
        &&& self.segments@ =~= seq![(0usize, 1usize)]
    }

    /// Builds the conventional full-page band list.
    pub fn full_page() -> (r: DifferenceSegments)
        ensures
            r.is_full_page(),
            r.wf(),
    {
        let mut segments: Vec<(usize, usize)> = Vec::new();
        segments.push((0, 1));
        DifferenceSegments { segments, denom: 1 }
    }
}

impl Clone for DifferenceSegments {
    /// An exact copy: same bands, same denominator.
    fn clone(&self) -> (r: Self)
        ensures
            r.segments@ == self.segments@,
            r.denom == self.denom,
    {
        let mut segments: Vec<(usize, usize)> = Vec::new();
        let mut i: usize = 0;
        while i < self.segments.len()
            invariant
                0 <= i <= self.segments@.len(),
                segments@ == self.segments@.subrange(0, i as int),
            decreases self.segments@.len() - i,
        {
            segments.push(self.segments[i]);
            proof {
                assert(segments@ =~= self.segments@.subrange(0, i + 1));
            }
            i = i + 1;
        }
        proof {
            assert(segments@ =~= self.segments@);
        }
        DifferenceSegments { segments, denom: self.denom }
    }
}

/// Run-length encoder turning a stream of per-row "differs" flags into
/// ordered bands. Rows are fed in strictly increasing position order.
pub struct DifferenceSegementsBuilder {
    /// Bands already closed, in the order they were closed.
    pub segments: DifferenceSegments,
    /// The band still open, as `(start, last hit position)`, if any.
    pub current_segment: Option<(usize, usize)>,
}

impl DifferenceSegementsBuilder {
    /// A builder with no bands and no open band, for bounds over `denom`.
    pub fn build(denom: usize) -> (r: Self)
        requires
            denom >= 1,
        ensures
            r.segments.segments@ =~= Seq::<(usize, usize)>::empty(),
            r.segments.denom == denom,
            r.current_segment is None,
    {
        DifferenceSegementsBuilder {
            segments: DifferenceSegments { segments: Vec::new(), denom },
            current_segment: None,
        }
    }

    /// Feeds one row: a hit opens a band or extends the open one to
    /// `position`; a miss closes the open band, if any.
    pub fn step(&mut self, position: usize, hit: bool)
        ensures
            final(self).segments.denom == old(self).segments.denom,
            match (old(self).current_segment, hit) {
                (None, false) => {
                    &&& final(self).segments.segments@ == old(self).segments.segments@
                    &&& final(self).current_segment is None
                },
                (None, true) => {
                    &&& final(self).segments.segments@ == old(self).segments.segments@
                    &&& final(self).current_segment == Some((position, position))
                },
                (Some(c), true) => {
                    &&& final(self).segments.segments@ == old(self).segments.segments@
                    &&& final(self).current_segment == Some((c.0, position))
                },
                (Some(c), false) => {
                    &&& final(self).segments.segments@ == old(self).segments.segments@.push(c)
                    &&& final(self).current_segment is None
                },
            },
    {
        match self.current_segment {
            Some(v) => {
                if hit {
                    self.current_segment = Some((v.0, position));
                } else {
                    self.segments.segments.push(v);
                    self.current_segment = None;
                }
            },
            None => {
                if hit {
                    self.current_segment = Some((position, position));
                }
            },
        }
    }

    /// Flushes the open band, if any, and returns the finished band list.
    pub fn finish(self) -> (r: DifferenceSegments)
        ensures
            r.denom == self.segments.denom,
            r.segments@ == match self.current_segment {
                Some(c) => self.segments.segments@.push(c),
                None => self.segments.segments@,
            },
    {
        let mut this = self;
        match this.current_segment {
            Some(v) => {
                this.segments.segments.push(v);
                this.segments
            },
            None => this.segments,
        }
    }
}

/// Denominator used to normalize row indices of an image with `rows` rows:
/// positions are `row / (rows - 1)`, except that a single-row image places
/// its only row at position zero.
pub open spec fn denom_for(rows: nat) -> nat {
    if rows <= 1 {
        1nat
    } else {
        (rows - 1) as nat
    }
}

/// Builder state after feeding the first `n` flags of `hits`, each at its
/// own index as position: the closed bands and the open band.
pub open spec fn row_segments_state(hits: Seq<bool>, n: int) -> (Seq<(usize, usize)>, Option<
    (usize, usize),
>)
    decreases n,
{
    if n <= 0 {
        (Seq::empty(), None)
    } else {
        let prev = row_segments_state(hits, n - 1);
        let pos = (n - 1) as usize;
        match (prev.1, hits[n - 1]) {
            (None, false) => prev,
            (None, true) => (prev.0, Some((pos, pos))),
            (Some(c), true) => (prev.0, Some((c.0, pos))),
            (Some(c), false) => (prev.0.push(c), None),
        }
    }
}

/// The bands encoded from a full stream of per-row "differs" flags.
pub open spec fn segments_of_hits(hits: Seq<bool>) -> Seq<(usize, usize)> {
    let st = row_segments_state(hits, hits.len() as int);
    match st.1 {
        None => st.0,
        Some(c) => st.0.push(c),
    }
}

/// Well-formedness of an intermediate builder state over rows `0..n`:
/// closed bands are ordered, disjoint and end before `n`; the open band,
/// if any, starts after every closed band and also ends before `n`.
pub open spec fn state_wf(st: (Seq<(usize, usize)>, Option<(usize, usize)>), n: int) -> bool {
    &&& forall|i: int| 0 <= i < st.0.len() ==> (#[trigger] st.0[i]).0 <= st.0[i].1 < n
    &&& forall|i: int, j: int|
        0 <= i < j < st.0.len() ==> (#[trigger] st.0[i]).1 < (#[trigger] st.0[j]).0
    &&& match st.1 {
        Some(c) => {
            &&& c.0 <= c.1 < n
            &&& forall|i: int| 0 <= i < st.0.len() ==> (#[trigger] st.0[i]).1 < c.0
        },
        None => true,
    }
}

proof fn lemma_row_segments_state_wf(hits: Seq<bool>, n: int)
    requires
        0 <= n <= hits.len(),
        hits.len() <= usize::MAX,
    ensures
        state_wf(row_segments_state(hits, n), n),
    decreases n,
{
    if n > 0 {
        lemma_row_segments_state_wf(hits, n - 1);
    }
}

/// The encoded bands of any flag stream are well-formed over the stream's
/// normalizing denominator.
pub proof fn lemma_segments_of_hits_wf(hits: Seq<bool>, denom: nat)
    requires
        denom == denom_for(hits.len()),
        hits.len() <= usize::MAX,
    ensures
        forall|i: int|
            0 <= i < segments_of_hits(hits).len() ==> (#[trigger] segments_of_hits(hits)[i]).0
                <= segments_of_hits(hits)[i].1 <= denom,
        forall|i: int, j: int|
            0 <= i < j < segments_of_hits(hits).len() ==> (#[trigger] segments_of_hits(
                hits,
            )[i]).1 < (#[trigger] segments_of_hits(hits)[j]).0,
{
    lemma_row_segments_state_wf(hits, hits.len() as int);
}

/// Encodes a full stream of per-row "differs" flags: `hits[r]` says whether
/// row `r` of the rendered page pair differs. Returns the ordered bands
/// normalized over the stream's denominator.
pub fn segments_for_rows(hits: &Vec<bool>) -> (r: DifferenceSegments)
    ensures
        r.denom == denom_for(hits@.len()),
        r.segments@ == segments_of_hits(hits@),
        r.wf(),
{
    let denom: usize = if hits.len() <= 1 {
        1
    } else {
        hits.len() - 1
    };
    let mut builder = DifferenceSegementsBuilder::build(denom);
    let mut i: usize = 0;
    while i < hits.len()
        invariant
            0 <= i <= hits@.len(),
            denom == denom_for(hits@.len()),
            builder.segments.denom == denom,
            (builder.segments.segments@, builder.current_segment) == row_segments_state(
                hits@,
                i as int,
            ),
        decreases hits@.len() - i,
    {
        builder.step(i, hits[i]);
        i = i + 1;
    }
    let r = builder.finish();
    proof {
        lemma_segments_of_hits_wf(hits@, denom as nat);
        assert forall|i: int|
            0 <= i < r.segments@.len() implies (#[trigger] r.segments@[i]).0 <= r.segments@[i].1
            <= r.denom by {
            assert(r.segments@[i] == segments_of_hits(hits@)[i]);
        }
        assert forall|i: int, j: int|
            0 <= i < j < r.segments@.len() implies (#[trigger] r.segments@[i]).1 < (
        #[trigger] r.segments@[j]).0 by {
            assert(r.segments@[i] == segments_of_hits(hits@)[i]);
            assert(r.segments@[j] == segments_of_hits(hits@)[j]);
        }
    }
    r
}

/// Law: an all-differing row stream yields exactly one band, spanning from
/// the first row to the last.
pub proof fn lemma_all_hits_full_range(hits: Seq<bool>)
    requires
        1 <= hits.len() <= usize::MAX,
        forall|i: int| 0 <= i < hits.len() ==> hits[i],
    ensures
        segments_of_hits(hits) =~= seq![(0usize, (hits.len() - 1) as usize)],
{
    lemma_all_hits_state(hits, hits.len() as int);
}

proof fn lemma_all_hits_state(hits: Seq<bool>, n: int)
    requires
        1 <= n <= hits.len(),
        hits.len() <= usize::MAX,
        forall|i: int| 0 <= i < hits.len() ==> hits[i],
    ensures
        row_segments_state(hits, n) == (Seq::<(usize, usize)>::empty(), Some(
            (0usize, (n - 1) as usize),
        )),
    decreases n,
{
    if n > 1 {
        lemma_all_hits_state(hits, n - 1);
    } else {
        assert(row_segments_state(hits, 0) == (Seq::<(usize, usize)>::empty(), Option::<
            (usize, usize),
        >::None));
    }
}

/// Law: an all-identical row stream yields no bands at all.
pub proof fn lemma_no_hits_no_segments(hits: Seq<bool>)
    requires
        forall|i: int| 0 <= i < hits.len() ==> !hits[i],
    ensures
        segments_of_hits(hits) =~= Seq::<(usize, usize)>::empty(),
{
    lemma_no_hits_state(hits, hits.len() as int);
}

proof fn lemma_no_hits_state(hits: Seq<bool>, n: int)
    requires
        0 <= n <= hits.len(),
        forall|i: int| 0 <= i < hits.len() ==> !hits[i],
    ensures
        row_segments_state(hits, n) == (Seq::<(usize, usize)>::empty(), Option::<
            (usize, usize),
        >::None),
    decreases n,
{
    if n > 0 {
        lemma_no_hits_state(hits, n - 1);
    }
}

} // verus!
