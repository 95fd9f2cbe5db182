//! Ranges of indices into a sequence of a given length, given by their two
//! ends as in `a..b`, `a..=b`, `a..` or `..b`.
use vstd::prelude::*;

verus! {

/// One end of a range of indices.
#[derive(Clone, Copy, PartialEq, Eq, Debug, Structural)]
pub enum Bound {
    Included(usize),
    Excluded(usize),
    Unbounded,
}

/// The first index of a range with start bound `start`.
pub open spec fn range_start(start: Bound) -> int {
    match start {
        Bound::Included(s) => s as int,
        Bound::Excluded(s) => s + 1,
        Bound::Unbounded => 0,
    }
}

/// The index after the last one of a range with end bound `end`, in a
/// sequence of length `len`.
pub open spec fn range_end(end: Bound, len: int) -> int {
    match end {
        Bound::Included(e) => e + 1,
        Bound::Excluded(e) => e as int,
        Bound::Unbounded => len,
    }
}

/// Whether the range lies within a sequence of length `len` and does not end
/// before it starts.
pub open spec fn range_in_bounds(start: Bound, end: Bound, len: int) -> bool {
    range_start(start) <= range_end(end, len) <= len
}

/// The start and end index of the range, which must lie within a sequence of
/// length `len`.
pub fn slice_range(start: Bound, end: Bound, len: usize) -> (r: (usize, usize))
    requires
        range_in_bounds(start, end, len as int),
    ensures
        r.0 == range_start(start),
        r.1 == range_end(end, len as int),
{
    let e = match end {
        Bound::Included(e) => e + 1,
        Bound::Excluded(e) => e,
        Bound::Unbounded => len,
    };
    let s = match start {
        Bound::Included(s) => s,
        Bound::Excluded(s) => s + 1,
        Bound::Unbounded => 0,
    };
    (s, e)
}

} // verus!
