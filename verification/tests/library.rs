use pdf_diff::annotate::{mark_page_overlay, plan_annotations, PageAction};
use pdf_diff::batch::{diff_file_name, fresh_diff_file_name, has_difference};
use pdf_diff::compare::{compare_documents, Comparison};
use pdf_diff::detector::{find_updated_files, is_pdf_extension, DirEntry, FsNode};
use pdf_diff::matcher::{compare_images, find_min_similarity, PageSimilarity, Similiarity};
use pdf_diff::raster::{Pixel, RasterImage};
use pdf_diff::segments::{segments_for_rows, DifferenceSegementsBuilder};
use std::cmp::Ordering;

fn solid(width: usize, height: usize, r: u8, g: u8, b: u8) -> RasterImage {
    RasterImage {
        width,
        height,
        pixels: vec![Pixel { r, g, b }; width * height],
    }
}

#[test]
fn segment_builder_two_bands() {
    // Hits (false,true,true,false,true) over five evenly spaced rows:
    // one band over rows 1..=2 (positions 2-3, i.e. 1/4..2/4) and one
    // single-point band at row 4 (position 5, i.e. 4/4).
    let hits = vec![false, true, true, false, true];
    let segs = segments_for_rows(&hits);
    assert_eq!(segs.denom, 4);
    assert_eq!(segs.segments, vec![(1, 2), (4, 4)]);
}

#[test]
fn segment_builder_all_hits() {
    let segs = segments_for_rows(&vec![true, true, true, true, true]);
    assert_eq!(segs.denom, 4);
    assert_eq!(segs.segments, vec![(0, 4)]);
}

#[test]
fn segment_builder_no_hits() {
    let segs = segments_for_rows(&vec![false, false, false]);
    assert_eq!(segs.denom, 2);
    assert_eq!(segs.segments, vec![]);
}

#[test]
fn segment_builder_single_row() {
    // A single-row image must not divide by zero: its only row sits at
    // position zero over denominator one.
    let segs = segments_for_rows(&vec![true]);
    assert_eq!(segs.denom, 1);
    assert_eq!(segs.segments, vec![(0, 0)]);
}

#[test]
fn segment_builder_stepwise() {
    let mut builder = DifferenceSegementsBuilder::build(4);
    builder.step(0, false);
    builder.step(1, true);
    builder.step(2, true);
    builder.step(3, false);
    builder.step(4, true);
    let segs = builder.finish();
    assert_eq!(segs.segments, vec![(1, 2), (4, 4)]);
}

#[test]
fn pixel_comparator_self_is_zero() {
    let a = solid(3, 2, 10, 20, 30);
    let b = solid(3, 2, 10, 20, 30);
    assert_eq!(compare_images(&a, &b), Similiarity::Similar(0));
}

#[test]
fn pixel_comparator_dimension_mismatch_is_incomparable() {
    let a = solid(3, 2, 10, 20, 30);
    let b = solid(2, 3, 10, 20, 30);
    assert_eq!(compare_images(&a, &b), Similiarity::Different);
}

#[test]
fn pixel_comparator_disjoint_counts_all() {
    let a = solid(4, 3, 255, 0, 0);
    let b = solid(4, 3, 0, 0, 255);
    assert_eq!(compare_images(&a, &b), Similiarity::Similar(12));
}

#[test]
fn similarity_order_incomparable_is_worst() {
    assert_eq!(
        Similiarity::Different.cmp(&Similiarity::Similar(1_000_000)),
        Ordering::Greater
    );
    assert_eq!(
        Similiarity::Similar(1_000_000).cmp(&Similiarity::Different),
        Ordering::Less
    );
    assert_eq!(
        Similiarity::Different.cmp(&Similiarity::Different),
        Ordering::Equal
    );
    assert_eq!(
        Similiarity::Similar(2).cmp(&Similiarity::Similar(3)),
        Ordering::Less
    );
    assert_eq!(
        Similiarity::Similar(3).cmp(&Similiarity::Similar(3)),
        Ordering::Equal
    );
}

#[test]
fn page_matcher_finds_identical_page() {
    // Revised page identical to baseline page 2 of 5, all others differ.
    let revised = solid(4, 4, 7, 7, 7);
    let baseline = vec![
        solid(4, 4, 1, 1, 1),
        solid(4, 4, 2, 2, 2),
        solid(4, 4, 7, 7, 7),
        solid(4, 4, 3, 3, 3),
        solid(4, 4, 4, 4, 4),
    ];
    assert_eq!(
        find_min_similarity(&revised, &baseline),
        PageSimilarity::Similar(2, 0)
    );
}

#[test]
fn page_matcher_empty_baseline_is_no_match() {
    let revised = solid(4, 4, 7, 7, 7);
    assert_eq!(
        find_min_similarity(&revised, &vec![]),
        PageSimilarity::Different
    );
}

#[test]
fn page_matcher_prefers_lowest_index_on_tie() {
    let revised = solid(2, 1, 0, 0, 0);
    let baseline = vec![solid(2, 1, 0, 0, 1), solid(2, 1, 0, 0, 1)];
    assert_eq!(
        find_min_similarity(&revised, &baseline),
        PageSimilarity::Similar(0, 2)
    );
}

#[test]
fn from_similarity_no_match_is_full_page() {
    let c = Comparison::from_similarity(&PageSimilarity::Different, None, None);
    match c {
        Comparison::Different(d) => {
            assert_eq!(d.denom, 1);
            assert_eq!(d.segments, vec![(0, 1)]);
        }
        Comparison::Identical => panic!("expected a full-page difference"),
    }
}

#[test]
fn from_similarity_zero_distance_is_identical() {
    let c = Comparison::from_similarity(&PageSimilarity::Similar(3, 0), None, None);
    assert!(matches!(c, Comparison::Identical));
}

#[test]
fn page_shift_live_indices() {
    // Verdicts [Identical, Different, Identical, Different]: every
    // deletion shifts the live index of all later pages down by one, so
    // the engine is addressed at live indices [0, 0, 1, 1].
    let full = || {
        Comparison::from_similarity(&PageSimilarity::Different, None, None)
    };
    let verdicts = vec![
        Comparison::Identical,
        full(),
        Comparison::Identical,
        full(),
    ];
    let plan = plan_annotations(&verdicts);
    assert_eq!(plan.len(), 4);
    let indices: Vec<usize> = plan
        .iter()
        .map(|a| match a {
            PageAction::Delete { index } => *index,
            PageAction::Mark { index, .. } => *index,
        })
        .collect();
    assert_eq!(indices, vec![0, 0, 1, 1]);
    assert!(matches!(plan[0], PageAction::Delete { .. }));
    assert!(matches!(plan[1], PageAction::Mark { .. }));
    assert!(matches!(plan[2], PageAction::Delete { .. }));
    assert!(matches!(plan[3], PageAction::Mark { .. }));
}

#[test]
fn end_to_end_three_pages() {
    // Page 0 is identical to baseline page 0; page 1 differs from baseline
    // page 1 only in its lower third; page 2 has no comparable baseline
    // page at all.
    let page0 = solid(4, 6, 9, 9, 9);
    let mut page1 = solid(4, 6, 1, 1, 1);
    for y in 4..6 {
        for x in 0..4 {
            page1.pixels[y * 4 + x] = Pixel { r: 200, g: 0, b: 0 };
        }
    }
    let page2 = solid(3, 5, 1, 1, 1);
    let baseline = vec![solid(4, 6, 9, 9, 9), solid(4, 6, 1, 1, 1)];
    let revised = vec![page0, page1, page2];

    let verdicts = compare_documents(&revised, &Some(baseline));
    assert_eq!(verdicts.len(), 3);
    assert!(matches!(verdicts[0], Comparison::Identical));
    match &verdicts[1] {
        Comparison::Different(d) => {
            assert_eq!(d.denom, 5);
            assert_eq!(d.segments, vec![(4, 5)]);
        }
        Comparison::Identical => panic!("page 1 must differ"),
    }
    match &verdicts[2] {
        Comparison::Different(d) => {
            assert_eq!(d.denom, 1);
            assert_eq!(d.segments, vec![(0, 1)]);
        }
        Comparison::Identical => panic!("page 2 must differ"),
    }

    // The annotated copy keeps two pages: page 0 is deleted, the others
    // are overlaid at live indices 0 and 1.
    let plan = plan_annotations(&verdicts);
    assert!(matches!(plan[0], PageAction::Delete { index: 0 }));
    match &plan[1] {
        PageAction::Mark { index, segments } => {
            assert_eq!(*index, 0);
            assert_eq!(segments.segments, vec![(4, 5)]);
            // Overlay of a 2pt x 2pt page: a 10x10 canvas whose lower
            // fifth (rows 8 and 9) carries the red bar.
            let overlay = mark_page_overlay(2, 2, segments);
            assert_eq!(overlay.width, 10);
            assert_eq!(overlay.height, 10);
            let red = (255, 0, 0, 255);
            let clear = (0, 0, 0, 0);
            let px = |x: usize, y: usize| {
                let p = overlay.pixels[y * overlay.width + x];
                (p.r, p.g, p.b, p.a)
            };
            assert_eq!(px(0, 8), red);
            assert_eq!(px(9, 9), red);
            assert_eq!(px(0, 7), clear);
        }
        PageAction::Delete { .. } => panic!("page 1 must be marked"),
    }
    match &plan[2] {
        PageAction::Mark { index, segments } => {
            assert_eq!(*index, 1);
            // Full-page overlay: every row carries the bar, only the
            // leftmost ten columns are painted.
            let overlay = mark_page_overlay(4, 3, segments);
            assert_eq!(overlay.width, 20);
            assert_eq!(overlay.height, 15);
            let p = overlay.pixels[0];
            assert_eq!((p.r, p.g, p.b, p.a), (255, 0, 0, 255));
            let p = overlay.pixels[14 * 20 + 9];
            assert_eq!((p.r, p.g, p.b, p.a), (255, 0, 0, 255));
            let p = overlay.pixels[14 * 20 + 10];
            assert_eq!((p.r, p.g, p.b, p.a), (0, 0, 0, 0));
        }
        PageAction::Delete { .. } => panic!("page 2 must be marked"),
    }
}

#[test]
fn baseline_load_failure_marks_every_page() {
    let revised = vec![solid(2, 2, 0, 0, 0), solid(2, 2, 1, 1, 1)];
    let verdicts = compare_documents(&revised, &None);
    assert_eq!(verdicts.len(), 2);
    for v in &verdicts {
        match v {
            Comparison::Different(d) => {
                assert_eq!(d.denom, 1);
                assert_eq!(d.segments, vec![(0, 1)]);
            }
            Comparison::Identical => panic!("every page must be different"),
        }
    }
}

#[test]
fn empty_revised_document_yields_no_verdicts() {
    let verdicts = compare_documents(&vec![], &Some(vec![solid(2, 2, 0, 0, 0)]));
    assert!(verdicts.is_empty());
    let verdicts = compare_documents(&vec![], &None);
    assert!(verdicts.is_empty());
    assert!(plan_annotations(&verdicts).is_empty());
}

#[test]
fn update_detector_missing_baseline_flags_any_extension() {
    // The baseline tree misses the file entirely: it is flagged although
    // its extension is not the document extension.
    let current = vec![DirEntry {
        name: b"notes.txt".to_vec(),
        node: FsNode::File { modified: 5 },
    }];
    let baseline: Vec<DirEntry> = vec![];
    let flagged = find_updated_files(&current, Some(&baseline));
    assert_eq!(flagged, vec![vec![b"notes.txt".to_vec()]]);
}

#[test]
fn update_detector_extension_rule_for_present_baseline() {
    let current = vec![
        DirEntry {
            name: b"a.pdf".to_vec(),
            node: FsNode::File { modified: 10 },
        },
        DirEntry {
            name: b"b.txt".to_vec(),
            node: FsNode::File { modified: 10 },
        },
        DirEntry {
            name: b"c.pdf".to_vec(),
            node: FsNode::File { modified: 3 },
        },
    ];
    let baseline = vec![
        DirEntry {
            name: b"a.pdf".to_vec(),
            node: FsNode::File { modified: 5 },
        },
        DirEntry {
            name: b"b.txt".to_vec(),
            node: FsNode::File { modified: 5 },
        },
        DirEntry {
            name: b"c.pdf".to_vec(),
            node: FsNode::File { modified: 5 },
        },
    ];
    // Only the strictly newer file with the document extension is flagged.
    let flagged = find_updated_files(&current, Some(&baseline));
    assert_eq!(flagged, vec![vec![b"a.pdf".to_vec()]]);
}

#[test]
fn update_detector_baseline_is_directory_flags_file() {
    let current = vec![DirEntry {
        name: b"x.txt".to_vec(),
        node: FsNode::File { modified: 1 },
    }];
    let baseline = vec![DirEntry {
        name: b"x.txt".to_vec(),
        node: FsNode::Dir { entries: vec![] },
    }];
    let flagged = find_updated_files(&current, Some(&baseline));
    assert_eq!(flagged, vec![vec![b"x.txt".to_vec()]]);
}

#[test]
fn update_detector_recurses_into_missing_baseline_subtree() {
    let current = vec![DirEntry {
        name: b"sub".to_vec(),
        node: FsNode::Dir {
            entries: vec![DirEntry {
                name: b"deep.txt".to_vec(),
                node: FsNode::File { modified: 1 },
            }],
        },
    }];
    let baseline: Vec<DirEntry> = vec![];
    let flagged = find_updated_files(&current, Some(&baseline));
    assert_eq!(flagged, vec![vec![b"sub".to_vec(), b"deep.txt".to_vec()]]);
}

#[test]
fn update_detector_missing_baseline_root() {
    let current = vec![DirEntry {
        name: b"a.pdf".to_vec(),
        node: FsNode::File { modified: 1 },
    }];
    let flagged = find_updated_files(&current, None);
    assert_eq!(flagged, vec![vec![b"a.pdf".to_vec()]]);
}

#[test]
fn pdf_extension_rules() {
    assert!(is_pdf_extension(&b"a.pdf".to_vec()));
    assert!(is_pdf_extension(&b"report.v2.pdf".to_vec()));
    assert!(!is_pdf_extension(&b".pdf".to_vec()));
    assert!(!is_pdf_extension(&b"pdf".to_vec()));
    assert!(!is_pdf_extension(&b"a.PDF".to_vec()));
    assert!(!is_pdf_extension(&b"a.txt".to_vec()));
}

#[test]
fn has_difference_filters_documents() {
    let full = || Comparison::from_similarity(&PageSimilarity::Different, None, None);
    assert!(!has_difference(&vec![]));
    assert!(!has_difference(&vec![Comparison::Identical, Comparison::Identical]));
    assert!(has_difference(&vec![Comparison::Identical, full()]));
}

#[test]
fn diff_file_name_formats_timestamp() {
    assert_eq!(
        diff_file_name("report.pdf", 1717000000),
        "report.pdf.diff.1717000000.pdf"
    );
    assert_eq!(diff_file_name("a", 0), "a.diff.0.pdf");
    assert_eq!(diff_file_name("a", -5), "a.diff.-5.pdf");
    assert_eq!(diff_file_name("a", 10), "a.diff.10.pdf");
}

#[test]
fn fresh_diff_file_name_uses_marker_and_extension() {
    let name = fresh_diff_file_name("report.pdf");
    assert!(name.starts_with("report.pdf.diff."));
    assert!(name.ends_with(".pdf"));
    let middle = &name["report.pdf.diff.".len()..name.len() - ".pdf".len()];
    assert!(!middle.is_empty());
    assert!(middle.chars().all(|c| c.is_ascii_digit() || c == '-'));
}
