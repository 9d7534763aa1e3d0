//! Half-open index ranges.

use std::ops::Range;
use vstd::prelude::*;

verus! {

/// True when `k` lies in the half-open range `[start, end)`.
pub open spec fn in_range(start: int, end: int, k: int) -> bool {
    start <= k < end
}

/// True when the half-open ranges `[s1, e1)` and `[s2, e2)` share an index.
pub open spec fn ranges_overlap(s1: int, e1: int, s2: int, e2: int) -> bool {
    exists|k: int| #[trigger] in_range(s1, e1, k) && in_range(s2, e2, k)
}

/// Returns true when the two ranges overlap. An empty range overlaps nothing.
pub fn overlap(r1: Range<usize>, r2: Range<usize>) -> (r: bool)
    ensures
        r == ranges_overlap(r1.start as int, r1.end as int, r2.start as int, r2.end as int),
{
    let r = r1.start < r1.end && r2.start < r2.end && r1.start < r2.end && r2.start < r1.end;
    proof {
        if r {
            let k = if r1.start >= r2.start { r1.start as int } else { r2.start as int };
            assert(in_range(r1.start as int, r1.end as int, k) && in_range(r2.start as int, r2.end as int, k));
        }
    }
    r
}

} // verus!
