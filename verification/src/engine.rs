//! The range-growth engine: grows a seed pair of single-line matches
//! outward while the caller-supplied similarity test keeps passing,
//! memoizing every pair it grows to and recording the maximal pairs.

use vstd::prelude::*;

use crate::range::{add_row, range_len, range_wf, spec_add_row, LineRange, Position};

verus! {

/// A candidate pair is well formed inside a document of `n` lines when both
/// ranges run forward, have equal length, and end before line `n`.
pub open spec fn pair_wf(p: (LineRange, LineRange), n: int) -> bool {
    &&& range_wf(p.0)
    &&& range_wf(p.1)
    &&& range_len(p.0) == range_len(p.1)
    &&& p.0.end < n
    &&& p.1.end < n
}

/// Both ranges can be moved one line toward `position` without running past
/// the document's first or last line.
pub open spec fn can_grow(r1: LineRange, r2: LineRange, position: Position, n: int) -> bool {
    match position {
        Position::Start => r1.start >= 1 && r2.start >= 1,
        Position::End => r1.end + 1 < n && r2.end + 1 < n,
    }
}

/// The candidate pair obtained by growing both ranges at `position`.
pub open spec fn trial_pair(r1: LineRange, r2: LineRange, position: Position) -> (
    LineRange,
    LineRange,
) {
    (spec_add_row(r1, position), spec_add_row(r2, position))
}

/// The two ranges touch: a boundary of one lies directly next to a boundary
/// of the other, so the "two" blocks are really segments of a single run.
pub open spec fn adjacent(r1: LineRange, r2: LineRange) -> bool {
    ||| r1.end - r2.start == 1
    ||| r2.start - r1.end == 1
    ||| r1.start - r2.end == 1
    ||| r2.end - r1.start == 1
}

/// Whether `r1` and `r2` are adjacent, comparing boundary distances.
fn is_adjacent(r1: &LineRange, r2: &LineRange) -> (r: bool)
    ensures
        r == adjacent(*r1, *r2),
{
    let d1 = if r1.end >= r2.start {
        r1.end - r2.start
    } else {
        r2.start - r1.end
    };
    let d2 = if r1.start >= r2.end {
        r1.start - r2.end
    } else {
        r2.end - r1.start
    };
    d1 == 1 || d2 == 1
}

/// Whether the memo `v` already holds the candidate pair `p`.
fn contains_pair(v: &Vec<(LineRange, LineRange)>, p: (LineRange, LineRange)) -> (r: bool)
    ensures
        r == v@.contains(p),
{
    let mut k: usize = 0;
    while k < v.len()
        invariant
            k <= v@.len(),
            forall|m: int| 0 <= m < k ==> v@[m] != p,
        decreases v@.len() - k,
    {
        let q = v[k];
        if q.0 == p.0 && q.1 == p.1 {
            assert(v@[k as int] == p);
            return true;
        }
        k += 1;
    }
    false
}

/// A sequence that extends `a` without touching its entries keeps every
/// element `a` contains.
proof fn lemma_prefix_keeps_contains(
    a: Seq<(LineRange, LineRange)>,
    b: Seq<(LineRange, LineRange)>,
    p: (LineRange, LineRange),
)
    requires
        a.len() <= b.len(),
        forall|k: int| 0 <= k < a.len() ==> b[k] == a[k],
        a.contains(p),
    ensures
        b.contains(p),
{
    let k = choose|k: int| 0 <= k < a.len() && a[k] == p;
    assert(b[k] == p);
}

/// Grow `range1` and `range2` at the given `position`.
///
/// Returns `Some((true, out_range1, out_range2))` if the ranges could be
/// grown successfully, where `out_range1` and `out_range2` are the expanded
/// ranges. Otherwise, returns `Some((false, range1, range2))` with the
/// ranges unchanged. If the ranges could be grown successfully but the
/// grown pair was already recorded in `visited`, `None` is returned and
/// `visited` is left unchanged.
pub fn grow_at_position<F: Fn(LineRange, LineRange) -> bool + Copy>(
    range1: LineRange,
    range2: LineRange,
    similar: F,
    visited: &mut Vec<(LineRange, LineRange)>,
    position: &Position,
    n_lines: usize,
) -> (r: Option<(bool, LineRange, LineRange)>)
    requires
        pair_wf((range1, range2), n_lines as int),
        forall|a: LineRange, b: LineRange| #[trigger] call_requires(similar, (a, b)),
    ensures
        r is None ==> can_grow(range1, range2, *position, n_lines as int) && old(
            visited,
        )@.contains(trial_pair(range1, range2, *position)) && final(visited)@ == old(visited)@,
        r is None ==> call_ensures(
            similar,
            (trial_pair(range1, range2, *position).0, trial_pair(range1, range2, *position).1),
            true,
        ),
        r matches Some(t) ==> ({
            let trial = trial_pair(range1, range2, *position);
            &&& t.0 ==> {
                &&& can_grow(range1, range2, *position, n_lines as int)
                &&& (t.1, t.2) == trial
                &&& !old(visited)@.contains(trial)
                &&& final(visited)@ == old(visited)@.push(trial)
                &&& call_ensures(similar, (trial.0, trial.1), true)
            }
            &&& !t.0 ==> t.1 == range1 && t.2 == range2 && final(visited)@ == old(visited)@
            &&& !t.0 && can_grow(range1, range2, *position, n_lines as int) ==> call_ensures(
                similar,
                (trial.0, trial.1),
                false,
            )
            &&& pair_wf((t.1, t.2), n_lines as int)
            &&& range_len(t.1) >= range_len(range1)
        }),
        !can_grow(range1, range2, *position, n_lines as int) ==> (r matches Some(t) && !t.0),
{
    let condition = match position {
        Position::Start => range1.start >= 1 && range2.start >= 1,
        Position::End => range1.end < n_lines - 1 && range2.end < n_lines - 1,
    };
    if condition {
        let trial_range1 = add_row(&range1, position);
        let trial_range2 = add_row(&range2, position);
        if similar(trial_range1, trial_range2) {
            if contains_pair(visited, (trial_range1, trial_range2)) {
                return None;
            }
            visited.push((trial_range1, trial_range2));
            return Some((true, trial_range1, trial_range2));
        }
    }
    Some((false, range1, range2))
}

/// The pair `p` has the shape of a growth descendant of `seed`: each range
/// contains the corresponding seed range, and both ranges have moved their
/// boundaries outward by the same amounts.
pub open spec fn grown_from(p: (LineRange, LineRange), seed: (LineRange, LineRange)) -> bool {
    &&& p.0.start <= seed.0.start
    &&& seed.0.end <= p.0.end
    &&& p.1.start <= seed.1.start
    &&& seed.1.end <= p.1.end
    &&& seed.0.start - p.0.start == seed.1.start - p.1.start
    &&& p.0.end - seed.0.end == p.1.end - seed.1.end
}

/// Terminal outcome of one growth run.
#[derive(Debug, Clone, Copy, PartialEq, Eq, Structural)]
pub enum GrowthOutcome {
    /// The seed grew as far as it could; the maximal pair was recorded as a
    /// leaf.
    Leaf,
    /// Growth reached a pair already discovered from another seed; the run
    /// was discarded and no leaf was recorded.
    Aborted,
    /// The seed ranges were already touching; nothing was attempted.
    Degenerate,
}

/// Starting from `range1` and `range2`, assimilate surrounding lines for as
/// long as the caller-supplied similarity test accepts the grown pair.
///
/// `visited` and `leaves` are modified in place: `visited` records every
/// pair the run successfully grows to, and `leaves` receives the final,
/// no-further-growable pair — unless the run aborts on a pair some earlier
/// seed already discovered, or the seed ranges were adjacent at the outset.
pub fn grow_ranges<F: Fn(LineRange, LineRange) -> bool + Copy>(
    range1: LineRange,
    range2: LineRange,
    n_lines: usize,
    similar: F,
    visited: &mut Vec<(LineRange, LineRange)>,
    leaves: &mut Vec<(LineRange, LineRange)>,
) -> (out: GrowthOutcome)
    requires
        pair_wf((range1, range2), n_lines as int),
        forall|a: LineRange, b: LineRange| #[trigger] call_requires(similar, (a, b)),
    ensures
        old(visited)@.len() <= final(visited)@.len(),
        forall|k: int| 0 <= k < old(visited)@.len() ==> final(visited)@[k] == old(visited)@[k],
        forall|k: int|
            old(visited)@.len() <= k < final(visited)@.len() ==> pair_wf(
                #[trigger] final(visited)@[k],
                n_lines as int,
            ) && range_len(final(visited)@[k].0) > range_len(range1) && grown_from(
                final(visited)@[k],
                (range1, range2),
            ) && !old(visited)@.contains(final(visited)@[k]) && call_ensures(
                similar,
                (final(visited)@[k].0, final(visited)@[k].1),
                true,
            ),
        (forall|k: int, l: int|
            0 <= k < l < old(visited)@.len() ==> old(visited)@[k] != old(visited)@[l]) ==> (forall|
            k: int,
            l: int,
        |
            0 <= k < l < final(visited)@.len() ==> final(visited)@[k] != final(visited)@[l]),
        (out is Degenerate) <==> adjacent(range1, range2),
        out is Degenerate ==> final(visited)@ == old(visited)@,
        out is Aborted ==> exists|p: (LineRange, LineRange)|
            #[trigger] old(visited)@.contains(p) && call_ensures(similar, (p.0, p.1), true)
                && range_len(p.0) > range_len(range1),
        out is Leaf ==> ({
            let leaf = final(leaves)@.last();
            &&& final(leaves)@ == old(leaves)@.push(leaf)
            &&& pair_wf(leaf, n_lines as int)
            &&& range_len(leaf.0) >= range_len(range1)
            &&& grown_from(leaf, (range1, range2))
            &&& ({
                ||| (leaf == (range1, range2) && final(visited)@ == old(visited)@)
                ||| (range_len(leaf.0) > range_len(range1) && final(visited)@.contains(leaf)
                    && !old(visited)@.contains(leaf))
            })
        }),
        !(out is Leaf) ==> final(leaves)@ == old(leaves)@,
        out is Leaf ==> ({
            let leaf = final(leaves)@.last();
            let trial_e = trial_pair(leaf.0, leaf.1, Position::End);
            ||| !can_grow(leaf.0, leaf.1, Position::End, n_lines as int)
            ||| call_ensures(similar, (trial_e.0, trial_e.1), false)
            ||| ({
                let prev1 = (LineRange { start: leaf.0.start, end: (leaf.0.end - 1) as usize });
                let prev2 = (LineRange { start: leaf.1.start, end: (leaf.1.end - 1) as usize });
                let trial_s = trial_pair(prev1, prev2, Position::Start);
                &&& leaf.0.end >= 1
                &&& leaf.1.end >= 1
                &&& (!can_grow(prev1, prev2, Position::Start, n_lines as int) || call_ensures(
                    similar,
                    (trial_s.0, trial_s.1),
                    false,
                ))
            })
        }),
        out is Leaf && final(leaves)@.last() == (range1, range2) ==> ({
            let trial_s = trial_pair(range1, range2, Position::Start);
            let trial_e = trial_pair(range1, range2, Position::End);
            &&& !can_grow(range1, range2, Position::Start, n_lines as int) || call_ensures(
                similar,
                (trial_s.0, trial_s.1),
                false,
            )
            &&& !can_grow(range1, range2, Position::End, n_lines as int) || call_ensures(
                similar,
                (trial_e.0, trial_e.1),
                false,
            )
        }),
{
    if is_adjacent(&range1, &range2) {
        return GrowthOutcome::Degenerate;
    }
    let mut r1 = range1;
    let mut r2 = range2;
    loop
        invariant
            !adjacent(range1, range2),
            pair_wf((r1, r2), n_lines as int),
            range_len(r1) >= range_len(range1),
            grown_from((r1, r2), (range1, range2)),
            forall|a: LineRange, b: LineRange| #[trigger] call_requires(similar, (a, b)),
            old(visited)@.len() <= visited@.len(),
            forall|k: int| 0 <= k < old(visited)@.len() ==> visited@[k] == old(visited)@[k],
            forall|k: int|
                old(visited)@.len() <= k < visited@.len() ==> pair_wf(
                    #[trigger] visited@[k],
                    n_lines as int,
                ) && range_len(visited@[k].0) > range_len(range1) && range_len(visited@[k].0)
                    <= range_len(r1) && grown_from(visited@[k], (range1, range2)) && !old(
                    visited,
                )@.contains(visited@[k]) && call_ensures(
                    similar,
                    (visited@[k].0, visited@[k].1),
                    true,
                ),
            (forall|k: int, l: int|
                0 <= k < l < old(visited)@.len() ==> old(visited)@[k] != old(visited)@[l]) ==> (
            forall|k: int, l: int|
                0 <= k < l < visited@.len() ==> visited@[k] != visited@[l]),
            ({
                ||| (r1 == range1 && r2 == range2 && visited@ == old(visited)@)
                ||| (range_len(r1) > range_len(range1) && visited@.contains((r1, r2))
                    && !old(visited)@.contains((r1, r2)))
            }),
            leaves@ == old(leaves)@,
        decreases n_lines as int - range_len(r1),
    {
        let mut grew_both = true;
        let ghost pre_start = visited@;
        match grow_at_position(r1, r2, similar, visited, &Position::Start, n_lines) {
            Some((grew, out_range1, out_range2)) => {
                proof {
                    if grew && old(visited)@.contains(trial_pair(r1, r2, Position::Start)) {
                        lemma_prefix_keeps_contains(
                            old(visited)@,
                            pre_start,
                            trial_pair(r1, r2, Position::Start),
                        );
                    }
                }
                if !grew {
                    grew_both = false;
                }
                r1 = out_range1;
                r2 = out_range2;
                proof {
                    if grew {
                        assert(visited@[visited@.len() - 1] == (r1, r2));
                        assert(visited@.contains((r1, r2)));
                    }
                }
            },
            None => {
                proof {
                    let trial = trial_pair(r1, r2, Position::Start);
                    let k = choose|k: int| 0 <= k < visited@.len() && visited@[k] == trial;
                    assert(old(visited)@[k] == trial);
                    assert(old(visited)@.contains(trial));
                }
                return GrowthOutcome::Aborted;
            },
        }
        let ghost pre_end = visited@;
        match grow_at_position(r1, r2, similar, visited, &Position::End, n_lines) {
            Some((grew, out_range1, out_range2)) => {
                proof {
                    if grew && old(visited)@.contains(trial_pair(r1, r2, Position::End)) {
                        lemma_prefix_keeps_contains(
                            old(visited)@,
                            pre_end,
                            trial_pair(r1, r2, Position::End),
                        );
                    }
                }
                if !grew {
                    grew_both = false;
                }
                r1 = out_range1;
                r2 = out_range2;
                proof {
                    if grew {
                        assert(visited@[visited@.len() - 1] == (r1, r2));
                        assert(visited@.contains((r1, r2)));
                    }
                }
            },
            None => {
                proof {
                    let trial = trial_pair(r1, r2, Position::End);
                    let k = choose|k: int| 0 <= k < visited@.len() && visited@[k] == trial;
                    assert(old(visited)@[k] == trial);
                    assert(old(visited)@.contains(trial));
                }
                return GrowthOutcome::Aborted;
            },
        }
        if !grew_both {
            leaves.push((r1, r2));
            return GrowthOutcome::Leaf;
        }
    }
}

/// A candidate pair as it looks when seeded: two single lines, the first
/// strictly above the second.
pub open spec fn single_line_seed(p: (LineRange, LineRange)) -> bool {
    &&& p.0.start == p.0.end
    &&& p.1.start == p.1.end
    &&& p.0.start < p.1.start
}

/// Scan a whole document of `n_lines` lines: seed a growth run from every
/// line pair `(i, j)` with `i < j` that the seed test accepts, sharing one
/// visited memo and one leaves list across all runs.
///
/// Returns the pair `(visited, leaves)`. The visited memo holds every
/// candidate pair any run grew to, without repetition, each accepted by the
/// range test. The leaves are pairwise distinct: a run whose grown pair had
/// already been discovered from an earlier seed records nothing.
pub fn find_duplicates<
    G: Fn(usize, usize) -> bool + Copy,
    F: Fn(LineRange, LineRange) -> bool + Copy,
>(
    n_lines: usize,
    seed_similar: G,
    range_similar: F,
) -> (res: (Vec<(LineRange, LineRange)>, Vec<(LineRange, LineRange)>))
    requires
        forall|i: usize, j: usize| #[trigger] call_requires(seed_similar, (i, j)),
        forall|a: LineRange, b: LineRange| #[trigger] call_requires(range_similar, (a, b)),
    ensures
        forall|k: int| 0 <= k < res.0@.len() ==> pair_wf(#[trigger] res.0@[k], n_lines as int),
        forall|k: int, l: int| 0 <= k < l < res.0@.len() ==> res.0@[k] != res.0@[l],
        forall|k: int|
            #![trigger res.0@[k]]
            0 <= k < res.0@.len() ==> call_ensures(
                range_similar,
                (res.0@[k].0, res.0@[k].1),
                true,
            ),
        forall|k: int| 0 <= k < res.1@.len() ==> pair_wf(#[trigger] res.1@[k], n_lines as int),
        forall|k: int, l: int| 0 <= k < l < res.1@.len() ==> res.1@[k] != res.1@[l],
        forall|k: int|
            #![trigger res.1@[k]]
            0 <= k < res.1@.len() && range_len(res.1@[k].0) > 0 ==> res.0@.contains(res.1@[k])
                && (exists|s: (LineRange, LineRange)|
                single_line_seed(s) && #[trigger] grown_from(res.1@[k], s) && !adjacent(s.0, s.1)
                    && call_ensures(seed_similar, (s.0.start, s.1.start), true)),
        forall|k: int|
            #![trigger res.1@[k]]
            0 <= k < res.1@.len() && range_len(res.1@[k].0) == 0 ==> single_line_seed(res.1@[k])
                && !adjacent(res.1@[k].0, res.1@[k].1) && call_ensures(
                seed_similar,
                (res.1@[k].0.start, res.1@[k].1.start),
                true,
            ),
{
    let mut visited: Vec<(LineRange, LineRange)> = Vec::new();
    let mut leaves: Vec<(LineRange, LineRange)> = Vec::new();
    let mut i: usize = 0;
    while i < n_lines
        invariant
            i <= n_lines,
            forall|a: usize, b: usize| #[trigger] call_requires(seed_similar, (a, b)),
            forall|a: LineRange, b: LineRange| #[trigger] call_requires(range_similar, (a, b)),
            forall|k: int| 0 <= k < visited@.len() ==> pair_wf(#[trigger] visited@[k], n_lines as int),
            forall|k: int, l: int| 0 <= k < l < visited@.len() ==> visited@[k] != visited@[l],
            forall|k: int|
                #![trigger visited@[k]]
                0 <= k < visited@.len() ==> call_ensures(
                    range_similar,
                    (visited@[k].0, visited@[k].1),
                    true,
                ),
            forall|k: int| 0 <= k < leaves@.len() ==> pair_wf(#[trigger] leaves@[k], n_lines as int),
            forall|k: int, l: int| 0 <= k < l < leaves@.len() ==> leaves@[k] != leaves@[l],
            forall|k: int|
                #![trigger leaves@[k]]
                0 <= k < leaves@.len() && range_len(leaves@[k].0) > 0 ==> visited@.contains(
                    leaves@[k],
                ) && (exists|s: (LineRange, LineRange)|
                single_line_seed(s) && #[trigger] grown_from(leaves@[k], s) && !adjacent(s.0, s.1)
                    && call_ensures(seed_similar, (s.0.start, s.1.start), true)),
            forall|k: int|
                #![trigger leaves@[k]]
                0 <= k < leaves@.len() && range_len(leaves@[k].0) == 0 ==> single_line_seed(
                    leaves@[k],
                ) && !adjacent(leaves@[k].0, leaves@[k].1) && leaves@[k].0.start < i
                    && call_ensures(
                    seed_similar,
                    (leaves@[k].0.start, leaves@[k].1.start),
                    true,
                ),
        decreases n_lines - i,
    {
        let mut j: usize = i + 1;
        while j < n_lines
            invariant
                i < n_lines,
                i < j <= n_lines,
                forall|a: usize, b: usize| #[trigger] call_requires(seed_similar, (a, b)),
                forall|a: LineRange, b: LineRange| #[trigger] call_requires(range_similar, (a, b)),
                forall|k: int|
                    0 <= k < visited@.len() ==> pair_wf(#[trigger] visited@[k], n_lines as int),
                forall|k: int, l: int| 0 <= k < l < visited@.len() ==> visited@[k] != visited@[l],
                forall|k: int|
                    #![trigger visited@[k]]
                    0 <= k < visited@.len() ==> call_ensures(
                        range_similar,
                        (visited@[k].0, visited@[k].1),
                        true,
                    ),
                forall|k: int|
                    0 <= k < leaves@.len() ==> pair_wf(#[trigger] leaves@[k], n_lines as int),
                forall|k: int, l: int| 0 <= k < l < leaves@.len() ==> leaves@[k] != leaves@[l],
                forall|k: int|
                    #![trigger leaves@[k]]
                    0 <= k < leaves@.len() && range_len(leaves@[k].0) > 0 ==> visited@.contains(
                        leaves@[k],
                    ) && (exists|s: (LineRange, LineRange)|
                    single_line_seed(s) && #[trigger] grown_from(leaves@[k], s) && !adjacent(
                        s.0,
                        s.1,
                    ) && call_ensures(seed_similar, (s.0.start, s.1.start), true)),
                forall|k: int|
                    #![trigger leaves@[k]]
                    0 <= k < leaves@.len() && range_len(leaves@[k].0) == 0 ==> single_line_seed(
                        leaves@[k],
                    ) && !adjacent(leaves@[k].0, leaves@[k].1) && (leaves@[k].0.start < i || (
                    leaves@[k].0.start == i && leaves@[k].1.start < j)) && call_ensures(
                        seed_similar,
                        (leaves@[k].0.start, leaves@[k].1.start),
                        true,
                    ),
            decreases n_lines - j,
        {
            if seed_similar(i, j) {
                let range1 = LineRange { start: i, end: i };
                let range2 = LineRange { start: j, end: j };
                let ghost pre_v = visited@;
                let ghost pre_l = leaves@;
                let out = grow_ranges(range1, range2, n_lines, range_similar, &mut visited, &mut leaves);
                proof {
                    assert forall|k: int|
                        #![trigger pre_l[k]]
                        0 <= k < pre_l.len() && range_len(pre_l[k].0) > 0 implies visited@.contains(
                        pre_l[k],
                    ) by {
                        lemma_prefix_keeps_contains(pre_v, visited@, pre_l[k]);
                    }
                    if out is Leaf {
                        let leaf = leaves@.last();
                        if range_len(leaf.0) > 0 {
                            assert(single_line_seed((range1, range2)) && grown_from(
                                leaf,
                                (range1, range2),
                            ) && !adjacent(range1, range2) && call_ensures(
                                seed_similar,
                                (range1.start, range2.start),
                                true,
                            ));
                        }
                        assert forall|k: int| 0 <= k < pre_l.len() implies pre_l[k] != leaf by {
                            if range_len(leaf.0) > 0 && range_len(pre_l[k].0) > 0 {
                                assert(pre_v.contains(pre_l[k]));
                                assert(!pre_v.contains(leaf));
                            }
                        }
                    }
                }
            }
            j += 1;
        }
        i += 1;
    }
    (visited, leaves)
}

} // verus!
