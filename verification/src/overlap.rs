//! Signed overlap between two closed integer ranges.
//!
//! Ranges are given by two endpoints in either order; the overlap is the
//! length of their intersection when they meet, and the size of the gap
//! between them when they are disjoint.

use vstd::prelude::*;

verus! {

use crate::rating::in_magnitude;
use crate::rating::max_int;
use crate::rating::min_int;

/// The overlap between two ranges.
#[derive(Clone, Copy, Debug, PartialEq, Eq, Structural)]
pub enum Overlap {
    /// The two ranges overlap by the provided amount (zero when they only
    /// touch).
    Positive(i64),
    /// The two ranges are separated by the provided amount.
    Negative(i64),
}

/// The signed overlap of the ranges `[lo, hi]` after normalization: the
/// smaller of the upper ends minus the larger of the lower ends.
pub open spec fn spec_overlap(a0: int, a1: int, b0: int, b1: int) -> int {
    min_int(max_int(a0, a1), max_int(b0, b1)) - max_int(min_int(a0, a1), min_int(b0, b1))
}

/// Order a range's two endpoints increasingly.
pub fn normalize_bounds(a: i64, b: i64) -> (r: (i64, i64))
    ensures
        r.0 == min_int(a as int, b as int),
        r.1 == max_int(a as int, b as int),
{
    if a < b {
        (a, b)
    } else {
        (b, a)
    }
}

/// The overlap between the range with endpoints `a` and the range with
/// endpoints `b`, each pair taken in either order.
pub fn overlap(a: (i64, i64), b: (i64, i64)) -> (r: Overlap)
    requires
        in_magnitude(a.0 as int),
        in_magnitude(a.1 as int),
        in_magnitude(b.0 as int),
        in_magnitude(b.1 as int),
    ensures
        spec_overlap(a.0 as int, a.1 as int, b.0 as int, b.1 as int) >= 0 ==> r == Overlap::Positive(
            spec_overlap(a.0 as int, a.1 as int, b.0 as int, b.1 as int) as i64,
        ),
        spec_overlap(a.0 as int, a.1 as int, b.0 as int, b.1 as int) < 0 ==> r == Overlap::Negative(
            (-spec_overlap(a.0 as int, a.1 as int, b.0 as int, b.1 as int)) as i64,
        ),
{
    let (s1, e1) = normalize_bounds(a.0, a.1);
    let (s2, e2) = normalize_bounds(b.0, b.1);
    let lo: i64 = if s1 > s2 {
        s1
    } else {
        s2
    };
    let hi: i64 = if e1 < e2 {
        e1
    } else {
        e2
    };
    if lo <= hi {
        Overlap::Positive(hi - lo)
    } else {
        Overlap::Negative(lo - hi)
    }
}

/// Range overlap is symmetric in its two arguments.
pub proof fn lemma_overlap_symmetric(a0: int, a1: int, b0: int, b1: int)
    ensures
        spec_overlap(a0, a1, b0, b1) == spec_overlap(b0, b1, a0, a1),
{
}

} // verus!
