//! Selection of the leaves that are worth reporting.

use vstd::prelude::*;

use crate::range::range_len;
use crate::range::LineRange;

verus! {

/// Shortest range length (distance from start to end, so one less than the
/// number of lines spanned) that a leaf must reach to be reported.
pub const MIN_REPORT_LEN: usize = 5;

/// A leaf is reported only when it spans enough lines; shorter matches are
/// treated as incidental noise.
pub open spec fn reportable(p: (LineRange, LineRange)) -> bool {
    range_len(p.1) >= MIN_REPORT_LEN
}

/// The subsequence of `leaves` that is worth reporting, in discovery order.
pub open spec fn reported(leaves: Seq<(LineRange, LineRange)>) -> Seq<(LineRange, LineRange)> {
    leaves.filter(|p: (LineRange, LineRange)| reportable(p))
}

/// Keep only the leaves that span enough lines to be worth reporting,
/// preserving their discovery order.
pub fn filter_leaves(leaves: &Vec<(LineRange, LineRange)>) -> (out: Vec<(LineRange, LineRange)>)
    ensures
        out@ == reported(leaves@),
{
    let mut out: Vec<(LineRange, LineRange)> = Vec::new();
    let mut k: usize = 0;
    proof {
        reveal(Seq::filter);
        assert(out@ =~= reported(leaves@.subrange(0, 0)));
    }
    while k < leaves.len()
        invariant
            k <= leaves@.len(),
            out@ == reported(leaves@.subrange(0, k as int)),
        decreases leaves@.len() - k,
    {
        let p = leaves[k];
        if p.1.end >= p.1.start && p.1.end - p.1.start >= MIN_REPORT_LEN {
            out.push(p);
        }
        proof {
            reveal(Seq::filter);
            let s = leaves@.subrange(0, k as int + 1);
            assert(s.drop_last() =~= leaves@.subrange(0, k as int));
            assert(s.last() == leaves@[k as int]);
            assert(out@ =~= reported(s));
        }
        k += 1;
    }
    proof {
        assert(leaves@.subrange(0, leaves@.len() as int) =~= leaves@);
    }
    out
}

} // verus!
