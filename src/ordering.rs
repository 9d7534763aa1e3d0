//! Three-way comparison of integers.

use std::cmp::Ordering;
use vstd::prelude::*;

verus! {

/// Orders `n` against `m`.
pub fn compare(n: i32, m: i32) -> (r: Ordering)
    ensures
        r == (if n < m {
            Ordering::Less
        } else if n > m {
            Ordering::Greater
        } else {
            Ordering::Equal
        }),
{
    if n < m {
        Ordering::Less
    } else if n > m {
        Ordering::Greater
    } else {
        Ordering::Equal
    }
}

} // verus!
