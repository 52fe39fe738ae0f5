//! Tests of the range-growth engine, driven by the Jaro scorer.

use dupfind::engine::{find_duplicates, grow_at_position, grow_ranges, GrowthOutcome};
use dupfind::range::{add_row, comparable, LineRange, Position};
use dupfind::report::filter_leaves;
use strsim::jaro;

/// Normalized similarity of two lines after trimming surrounding
/// whitespace: 1.0 means identical.
fn line_similarity(a: &str, b: &str) -> f64 {
    jaro(a.trim(), b.trim())
}

/// Whether the mean per-line similarity of two equal-length ranges strictly
/// exceeds `thres`.
fn test_ranges(range1: &LineRange, range2: &LineRange, raw_lines: &[&str], thres: f64) -> bool {
    if !comparable(range1, range2) {
        panic!("Invalid ranges {range1:?} and {range2:?}.");
    }
    let n = range1.end - range1.start + 1;
    let mut sim_sum: f64 = 0.0;
    for k in 0..n {
        sim_sum += line_similarity(raw_lines[range1.start + k], raw_lines[range2.start + k]);
    }
    (sim_sum / (n as f64)) > thres
}

#[test]
fn row_addition() {
    assert_eq!(
        add_row(&LineRange { start: 1, end: 2 }, &Position::Start),
        LineRange { start: 0, end: 2 }
    );
    assert_eq!(
        add_row(&LineRange { start: 1, end: 2 }, &Position::End),
        LineRange { start: 1, end: 3 }
    );
}

#[test]
fn testing_similar_ranges() {
    assert!(test_ranges(
        &LineRange { start: 0, end: 1 },
        &LineRange { start: 2, end: 3 },
        &vec!["abc", "def", "abc", "deg"],
        0.8,
    ));
}

#[test]
fn grow_line_ranges() {
    let lines = ["abc", "def", "abc", "deg"];
    let similar = |r1: LineRange, r2: LineRange| test_ranges(&r1, &r2, &lines, 0.8);
    let mut visited: Vec<(LineRange, LineRange)> = Vec::new();

    let _ = grow_at_position(
        LineRange { start: 0, end: 0 },
        LineRange { start: 2, end: 2 },
        similar,
        &mut visited,
        &Position::End,
        4,
    );
    assert_eq!(
        visited,
        vec![(
            LineRange { start: 0, end: 1 },
            LineRange { start: 2, end: 3 }
        )]
    );

    let mut leaves: Vec<(LineRange, LineRange)> = Vec::new();
    visited = Vec::new();

    grow_ranges(
        LineRange { start: 0, end: 0 },
        LineRange { start: 2, end: 2 },
        4,
        similar,
        &mut visited,
        &mut leaves,
    );
    assert_eq!(
        visited,
        vec![(
            LineRange { start: 0, end: 1 },
            LineRange { start: 2, end: 3 }
        )]
    );
    assert_eq!(
        leaves,
        vec![(
            LineRange { start: 0, end: 1 },
            LineRange { start: 2, end: 3 }
        )]
    );
}

#[test]
fn line_similarity_is_symmetric() {
    let samples = [
        ("abc", "def"),
        ("hello world", "hello there"),
        ("  padded  ", "padded"),
        ("", "nonempty"),
        ("deg", "def"),
    ];
    for (a, b) in samples {
        assert_eq!(line_similarity(a, b), line_similarity(b, a));
    }
    assert_eq!(line_similarity("abc", "abc"), 1.0);
    assert_eq!(line_similarity("  spaced out  ", "spaced out"), 1.0);
}

#[test]
fn identical_ranges_always_pass() {
    let lines = ["foo", "bar", "baz", "foo", "bar", "baz"];
    let r1 = LineRange { start: 0, end: 2 };
    let r2 = LineRange { start: 3, end: 5 };
    assert!(test_ranges(&r1, &r2, &lines, 0.0));
    assert!(test_ranges(&r1, &r2, &lines, 0.5));
    assert!(test_ranges(&r1, &r2, &lines, 0.999_999));
}

#[test]
fn mismatched_ranges_are_not_comparable() {
    assert!(!comparable(
        &LineRange { start: 0, end: 1 },
        &LineRange { start: 2, end: 4 }
    ));
    assert!(comparable(
        &LineRange { start: 0, end: 1 },
        &LineRange { start: 2, end: 3 }
    ));
}

#[test]
fn degenerate_adjacent_seed() {
    let similar = |_r1: LineRange, _r2: LineRange| true;
    let mut visited: Vec<(LineRange, LineRange)> = Vec::new();
    let mut leaves: Vec<(LineRange, LineRange)> = Vec::new();
    let out = grow_ranges(
        LineRange { start: 0, end: 0 },
        LineRange { start: 1, end: 1 },
        4,
        similar,
        &mut visited,
        &mut leaves,
    );
    assert_eq!(out, GrowthOutcome::Degenerate);
    assert!(visited.is_empty());
    assert!(leaves.is_empty());
}

#[test]
fn growth_respects_document_bounds() {
    let similar = |_r1: LineRange, _r2: LineRange| true;
    let mut visited: Vec<(LineRange, LineRange)> = Vec::new();
    let mut leaves: Vec<(LineRange, LineRange)> = Vec::new();
    let out = grow_ranges(
        LineRange { start: 1, end: 1 },
        LineRange { start: 4, end: 4 },
        6,
        similar,
        &mut visited,
        &mut leaves,
    );
    assert_eq!(out, GrowthOutcome::Leaf);
    assert_eq!(
        visited,
        vec![
            (
                LineRange { start: 0, end: 1 },
                LineRange { start: 3, end: 4 }
            ),
            (
                LineRange { start: 0, end: 2 },
                LineRange { start: 3, end: 5 }
            ),
        ]
    );
    assert_eq!(
        leaves,
        vec![(
            LineRange { start: 0, end: 2 },
            LineRange { start: 3, end: 5 }
        )]
    );
    for (r1, r2) in visited.iter().chain(leaves.iter()) {
        assert!(r2.end <= 5 && r1.end <= 5);
    }
}

#[test]
fn seed_becomes_leaf_without_growth() {
    let similar = |_r1: LineRange, _r2: LineRange| false;
    let mut visited: Vec<(LineRange, LineRange)> = Vec::new();
    let mut leaves: Vec<(LineRange, LineRange)> = Vec::new();
    let out = grow_ranges(
        LineRange { start: 0, end: 0 },
        LineRange { start: 5, end: 5 },
        10,
        similar,
        &mut visited,
        &mut leaves,
    );
    assert_eq!(out, GrowthOutcome::Leaf);
    assert!(visited.is_empty());
    assert_eq!(
        leaves,
        vec![(
            LineRange { start: 0, end: 0 },
            LineRange { start: 5, end: 5 }
        )]
    );
}

#[test]
fn abort_on_already_visited_pair() {
    let accepted = [
        (
            LineRange { start: 2, end: 3 },
            LineRange { start: 6, end: 7 },
        ),
        (
            LineRange { start: 2, end: 4 },
            LineRange { start: 6, end: 8 },
        ),
    ];
    let similar = |r1: LineRange, r2: LineRange| accepted.contains(&(r1, r2));
    let mut visited: Vec<(LineRange, LineRange)> = Vec::new();
    let mut leaves: Vec<(LineRange, LineRange)> = Vec::new();
    let seed1 = LineRange { start: 3, end: 3 };
    let seed2 = LineRange { start: 7, end: 7 };

    let first = grow_ranges(seed1, seed2, 10, similar, &mut visited, &mut leaves);
    assert_eq!(first, GrowthOutcome::Leaf);
    assert_eq!(visited, accepted.to_vec());
    assert_eq!(leaves, vec![accepted[1]]);

    let second = grow_ranges(seed1, seed2, 10, similar, &mut visited, &mut leaves);
    assert_eq!(second, GrowthOutcome::Aborted);
    assert_eq!(visited, accepted.to_vec());
    assert_eq!(leaves, vec![accepted[1]]);
}

#[test]
fn end_to_end_document_scan() {
    let lines = ["abc", "def", "abc", "deg"];
    let thres = 0.8;
    let (visited, leaves) = find_duplicates(
        4,
        |i: usize, j: usize| line_similarity(lines[i], lines[j]) > thres,
        |r1: LineRange, r2: LineRange| test_ranges(&r1, &r2, &lines, thres),
    );
    assert_eq!(
        visited,
        vec![(
            LineRange { start: 0, end: 1 },
            LineRange { start: 2, end: 3 }
        )]
    );
    assert_eq!(
        leaves,
        vec![(
            LineRange { start: 0, end: 1 },
            LineRange { start: 2, end: 3 }
        )]
    );
}

#[test]
fn filtering_keeps_only_long_leaves() {
    let short = (
        LineRange { start: 0, end: 4 },
        LineRange { start: 10, end: 14 },
    );
    let long = (
        LineRange { start: 20, end: 25 },
        LineRange { start: 30, end: 35 },
    );
    let longer = (
        LineRange { start: 40, end: 49 },
        LineRange { start: 50, end: 59 },
    );
    let leaves = vec![short, long, longer];
    assert_eq!(filter_leaves(&leaves), vec![long, longer]);
    assert_eq!(filter_leaves(&vec![short]), vec![]);
}

#[test]
fn one_failed_side_stops_the_round() {
    // Reject every start-side trial, accept every end-side trial: the run
    // records a leaf as soon as the start side fails, even though the end
    // side could still grow.
    let similar = |r1: LineRange, r2: LineRange| r1.start == 2 && r2.start == 6;
    let mut visited: Vec<(LineRange, LineRange)> = Vec::new();
    let mut leaves: Vec<(LineRange, LineRange)> = Vec::new();
    let out = grow_ranges(
        LineRange { start: 2, end: 2 },
        LineRange { start: 6, end: 6 },
        20,
        similar,
        &mut visited,
        &mut leaves,
    );
    assert_eq!(out, GrowthOutcome::Leaf);
    assert_eq!(
        leaves,
        vec![(
            LineRange { start: 2, end: 3 },
            LineRange { start: 6, end: 7 }
        )]
    );
    assert_eq!(visited, leaves);
}

#[test]
fn growth_runs_to_both_document_edges() {
    let similar = |_r1: LineRange, _r2: LineRange| true;
    let mut visited: Vec<(LineRange, LineRange)> = Vec::new();
    let mut leaves: Vec<(LineRange, LineRange)> = Vec::new();
    let out = grow_ranges(
        LineRange { start: 5, end: 5 },
        LineRange { start: 15, end: 15 },
        21,
        similar,
        &mut visited,
        &mut leaves,
    );
    assert_eq!(out, GrowthOutcome::Leaf);
    assert_eq!(
        leaves,
        vec![(
            LineRange { start: 0, end: 10 },
            LineRange { start: 10, end: 20 }
        )]
    );
    assert_eq!(visited.len(), 10);
    assert_eq!(
        visited[0],
        (
            LineRange { start: 4, end: 5 },
            LineRange { start: 14, end: 15 }
        )
    );
    assert_eq!(
        visited[9],
        (
            LineRange { start: 0, end: 10 },
            LineRange { start: 10, end: 20 }
        )
    );
}
