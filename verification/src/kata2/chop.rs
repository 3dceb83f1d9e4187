//! Binary search by recursion on a three-way comparison, and a linear
//! search to hold it against.

use vstd::prelude::*;

verus! {

/// How one value stands to another.
pub enum Compare {
    Lt,
    Gt,
    Eq,
}

/// Whether the sequence is in ascending order.
pub open spec fn sorted(s: Seq<isize>) -> bool {
    forall|i: int, j: int| 0 <= i <= j < s.len() ==> s[i] <= s[j]
}

/// Whether `v` occurs in `s` at an index from `begin` up to, not including,
/// `end`.
pub open spec fn occurs_within(s: Seq<isize>, v: isize, begin: int, end: int) -> bool {
    exists|k: int| begin <= k < end && s[k] == v
}

/// Returns the index of the first element of `array` equal to `v`, or -1
/// if there is none.
pub fn find(v: isize, array: &[isize]) -> (index: isize)
    requires
        array@.len() <= isize::MAX,
    ensures
        index == -1 <==> !array@.contains(v),
        index != -1 ==> 0 <= index < array@.len() && array@[index as int] == v,
        index != -1 ==> forall|k: int| 0 <= k < index ==> array@[k] != v,
{
    let mut i: usize = 0;
    while i < array.len()
        invariant
            i <= array@.len() <= isize::MAX,
            forall|k: int| 0 <= k < i ==> array@[k] != v,
        decreases array@.len() - i,
    {
        if array[i] == v {
            return i as isize;
        }
        i += 1;
    }
    -1
}

/// Compares `a` with `b`.
pub fn compare(a: isize, b: isize) -> (c: Compare)
    ensures
        c is Lt <==> a < b,
        c is Gt <==> a > b,
        c is Eq <==> a == b,
{
    if a < b {
        Compare::Lt
    } else if a > b {
        Compare::Gt
    } else {
        Compare::Eq
    }
}

/// Searches `array` from `begin` up to, not including, `end` for `value`.
/// Returns the index of an element equal to it, or -1. A returned index
/// always holds `value`; on a sorted array -1 means that `value` does not
/// occur in that range.
pub fn _chop(value: isize, array: &[isize], begin: usize, end: usize) -> (index: isize)
    requires
        begin <= end <= array@.len() <= isize::MAX,
    ensures
        index == -1 || (begin <= index < end && array@[index as int] == value),
        sorted(array@) ==> (index == -1 <==> !occurs_within(
            array@,
            value,
            begin as int,
            end as int,
        )),
    decreases end - begin,
{
    let len = end - begin;
    if len == 0 {
        -1
    } else if len == 1 {
        if array[begin] == value {
            begin as isize
        } else {
            -1
        }
    } else {
        let half = begin + len / 2;
        match compare(value, array[half]) {
            Compare::Lt => _chop(value, array, begin, half),
            Compare::Gt => _chop(value, array, half, end),
            Compare::Eq => half as isize,
        }
    }
}

/// Searches the whole of `array` for `value`: the index of an element equal
/// to it, or -1.
pub fn chop(value: isize, array: &[isize]) -> (index: isize)
    requires
        array@.len() <= isize::MAX,
    ensures
        index == -1 || (0 <= index < array@.len() && array@[index as int] == value),
        sorted(array@) ==> (index == -1 <==> !array@.contains(value)),
{
    let index = _chop(value, array, 0, array.len());
    proof {
        if array@.contains(value) {
            let k = choose|k: int| 0 <= k < array@.len() && array@[k] == value;
            assert(occurs_within(array@, value, 0, array@.len() as int));
        }
    }
    index
}

} // verus!
