//! Ranges of indices bounded on one side only, as in `a..`, `..b` or `..=b`.
use vstd::prelude::*;

verus! {

use crate::range::Bound;

/// Which side of a one-sided range is bounded: `From` for `a..`, `To` for
/// `..b` and `..=b`.
#[derive(Clone, Copy, PartialEq, Eq, Debug, Structural)]
pub enum Direction {
    From,
    To,
}

/// Whether exactly one end of the range is bounded.
pub open spec fn one_sided(start: Bound, end: Bound) -> bool {
    ||| (start !is Unbounded && end is Unbounded)
    ||| (start is Unbounded && end !is Unbounded)
}

/// The index where a one-sided range starts (bounded start) or ends
/// (bounded end).
pub open spec fn one_sided_index(start: Bound, end: Bound) -> int {
    match (start, end) {
        (Bound::Included(s), Bound::Unbounded) => s as int,
        (Bound::Excluded(s), Bound::Unbounded) => s + 1,
        (Bound::Unbounded, Bound::Included(e)) => e + 1,
        (Bound::Unbounded, Bound::Excluded(e)) => e as int,
        _ => 0,
    }
}

/// The direction of a one-sided range and its index, which must lie within
/// a sequence of length `len`.
pub fn direction(start: Bound, end: Bound, len: usize) -> (r: (Direction, usize))
    requires
        one_sided(start, end),
        one_sided_index(start, end) <= len,
    ensures
        r.0 == (if start is Unbounded {
            Direction::To
        } else {
            Direction::From
        }),
        r.1 == one_sided_index(start, end),
{
    match (start, end) {
        (Bound::Included(s), _) => (Direction::From, s),
        (Bound::Excluded(s), _) => (Direction::From, s + 1),
        (Bound::Unbounded, Bound::Included(e)) => (Direction::To, e + 1),
        (Bound::Unbounded, Bound::Excluded(e)) => (Direction::To, e),
        (Bound::Unbounded, Bound::Unbounded) => (Direction::To, 0),
    }
}

} // verus!
