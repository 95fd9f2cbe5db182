//! The arithmetic of a single bump: where an allocation of a given size and
//! alignment lands within the free range `start..end` of a chunk, and where
//! the bump position goes afterwards.
use vstd::prelude::*;

verus! {

use crate::align::{lemma_aligned_to_smaller_pow2, lemma_round_down, lemma_round_up, round_down, round_up};
use vstd::arithmetic::power2::is_pow2;

/// Every chunk's content range starts and ends at a multiple of this.
pub const MIN_CHUNK_ALIGN: usize = 16;

/// The inputs of a bump: the free range `start..end`, the requested size and
/// alignment, and the minimum alignment the bump position keeps.
#[derive(Clone, Copy)]
pub struct BumpProps {
    pub start: usize,
    pub end: usize,
    pub size: usize,
    pub align: usize,
    pub min_align: usize,
}

impl BumpProps {
    /// The conditions every bump is made under.
    pub open spec fn wf(self) -> bool {
        &&& is_pow2(self.align as int)
        &&& is_pow2(self.min_align as int)
        &&& self.min_align <= MIN_CHUNK_ALIGN
        &&& 0 < self.start <= self.end
    }
}

/// The result of a successful upwards bump: the allocation starts at `ptr`
/// and the bump position moves to `new_pos`.
#[derive(Clone, Copy)]
pub struct BumpUp {
    pub new_pos: usize,
    pub ptr: usize,
}

/// Upwards: the allocation starts at `start` rounded up to `align`, and the
/// new position is its end rounded up to `min_align`; it succeeds when that
/// position does not pass `end`.
pub open spec fn spec_bump_up(p: BumpProps) -> Option<(int, int)> {
    let ptr = round_up(p.start as int, p.align as int);
    let new_pos = round_up(ptr + p.size, p.min_align as int);
    if new_pos <= p.end {
        Some((new_pos, ptr))
    } else {
        None
    }
}

/// Downwards: the allocation starts `size` below `end`, rounded down to the
/// larger of `align` and `min_align`; it succeeds when that does not pass
/// `start`. The new position is the allocation's start.
pub open spec fn spec_bump_down(p: BumpProps) -> Option<int> {
    let a = if p.align >= p.min_align {
        p.align
    } else {
        p.min_align
    };
    if p.size > p.end {
        None
    } else {
        let ptr = round_down(p.end - p.size, a as int);
        if ptr >= p.start {
            Some(ptr)
        } else {
            None
        }
    }
}

/// Rounds `addr` up to `align`, or `None` when the result does not fit.
pub fn checked_up_align(addr: usize, align: usize) -> (r: Option<usize>)
    requires
        align > 0,
    ensures
        r is Some <==> round_up(addr as int, align as int) <= usize::MAX,
        r matches Some(v) ==> v == round_up(addr as int, align as int),
{
    let rem = addr % align;
    if rem == 0 {
        Some(addr)
    } else {
        addr.checked_add(align - rem)
    }
}

/// Bumps upwards within `props.start..props.end`.
pub fn bump_up(props: BumpProps) -> (r: Option<BumpUp>)
    requires
        props.wf(),
    ensures
        r is Some <==> spec_bump_up(props) is Some,
        r matches Some(b) ==> spec_bump_up(props) == Some((b.new_pos as int, b.ptr as int)),
        r matches Some(b) ==> {
            &&& b.ptr % props.align == 0
            &&& b.new_pos % props.min_align == 0
            &&& props.start <= b.ptr
            &&& b.ptr + props.size <= b.new_pos <= props.end
            &&& b.new_pos < b.ptr + props.size + props.min_align
        },
{
    proof {
        reveal(is_pow2);
        lemma_round_up(props.start as int, props.align as int);
    }
    let ptr = match checked_up_align(props.start, props.align) {
        Some(p) => p,
        None => return None,
    };
    let after = match ptr.checked_add(props.size) {
        Some(a) => a,
        None => return None,
    };
    proof {
        lemma_round_up(after as int, props.min_align as int);
    }
    let new_pos = match checked_up_align(after, props.min_align) {
        Some(p) => p,
        None => return None,
    };
    if new_pos <= props.end {
        Some(BumpUp { new_pos, ptr })
    } else {
        None
    }
}

/// Bumps downwards within `props.start..props.end`, returning the
/// allocation's start, which is also the new bump position.
pub fn bump_down(props: BumpProps) -> (r: Option<usize>)
    requires
        props.wf(),
    ensures
        r is Some <==> spec_bump_down(props) is Some,
        r matches Some(ptr) ==> spec_bump_down(props) == Some(ptr as int),
        r matches Some(ptr) ==> {
            &&& ptr % props.align == 0
            &&& ptr % props.min_align == 0
            &&& props.start <= ptr
            &&& ptr + props.size <= props.end
        },
{
    proof {
        reveal(is_pow2);
    }
    let a = if props.align >= props.min_align {
        props.align
    } else {
        props.min_align
    };
    let ptr = crate::bump_down(props.end, props.size, a);
    proof {
        let sub = if props.end >= props.size { props.end - props.size } else { 0 };
        lemma_round_down(sub as int, a as int);
        if props.align >= props.min_align {
            lemma_aligned_to_smaller_pow2(ptr as int, a as int, props.min_align as int);
        } else {
            lemma_aligned_to_smaller_pow2(ptr as int, a as int, props.align as int);
        }
    }
    if ptr >= props.start {
        Some(ptr)
    } else {
        None
    }
}

/// Upwards: the range that an array allocation of at least `props.size`
/// bytes may use without moving the bump position: from `start` rounded up
/// to `align` to `end`.
pub open spec fn spec_bump_prepare_up(p: BumpProps) -> Option<(int, int)> {
    let s = round_up(p.start as int, p.align as int);
    if s + p.size <= p.end {
        Some((s, p.end as int))
    } else {
        None
    }
}

/// Downwards: the range that an array allocation of at least `props.size`
/// bytes may use without moving the bump position: from `start` to `end`
/// rounded down to `align`.
pub open spec fn spec_bump_prepare_down(p: BumpProps) -> Option<(int, int)> {
    let e = round_down(p.end as int, p.align as int);
    if p.start + p.size <= e {
        Some((p.start as int, e))
    } else {
        None
    }
}

/// The range upwards that an array of at least `props.size` bytes can use.
pub fn bump_prepare_up(props: BumpProps) -> (r: Option<(usize, usize)>)
    requires
        props.wf(),
    ensures
        r is Some <==> spec_bump_prepare_up(props) is Some,
        r matches Some(range) ==> spec_bump_prepare_up(props) == Some(
            (range.0 as int, range.1 as int),
        ),
{
    proof {
        reveal(is_pow2);
    }
    let s = match checked_up_align(props.start, props.align) {
        Some(s) => s,
        None => return None,
    };
    if s <= props.end && props.size <= props.end - s {
        Some((s, props.end))
    } else {
        None
    }
}

/// The range downwards that an array of at least `props.size` bytes can use.
pub fn bump_prepare_down(props: BumpProps) -> (r: Option<(usize, usize)>)
    requires
        props.wf(),
    ensures
        r is Some <==> spec_bump_prepare_down(props) is Some,
        r matches Some(range) ==> spec_bump_prepare_down(props) == Some(
            (range.0 as int, range.1 as int),
        ),
{
    proof {
        reveal(is_pow2);
        lemma_round_down(props.end as int, props.align as int);
    }
    let e = crate::down_align_usize(props.end, props.align);
    if props.start <= e && props.size <= e - props.start {
        Some((props.start, e))
    } else {
        None
    }
}

} // verus!
