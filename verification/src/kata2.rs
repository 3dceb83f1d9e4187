//! Binary search over a sorted slice of integers.

use vstd::prelude::*;

pub mod chop;

verus! {

/// Whether the sequence is in ascending order.
pub open spec fn sorted(s: Seq<i32>) -> bool {
    forall|i: int, j: int| 0 <= i <= j < s.len() ==> s[i] <= s[j]
}

/// Searches `slice` for `x` and returns the index of an element equal to
/// it, or -1. A returned index always holds `x`; on a sorted slice -1 means
/// that `x` does not occur. The slice must be short enough for its indices
/// to fit the result.
pub fn chop(x: i32, slice: &[i32]) -> (index: i32)
    requires
        slice@.len() <= i32::MAX,
    ensures
        index == -1 || (0 <= index < slice@.len() && slice@[index as int] == x),
        sorted(slice@) ==> (index == -1 <==> !slice@.contains(x)),
{
    let mut low: usize = 0;
    let mut high: usize = slice.len();
    while low < high
        invariant
            low <= high <= slice@.len() <= i32::MAX,
            sorted(slice@) ==> forall|k: int| 0 <= k < low ==> slice@[k] < x,
            sorted(slice@) ==> forall|k: int| high <= k < slice@.len() ==> slice@[k] > x,
        decreases high - low,
    {
        let mid = low + (high - low) / 2;
        let elt = slice[mid];
        if elt < x {
            low = mid + 1;
        } else if elt > x {
            high = mid;
        } else {
            return mid as i32;
        }
    }
    -1
}

} // verus!
