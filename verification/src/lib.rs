//! A bump allocator that supports allocation scopes and checkpoints, together
//! with fixed-capacity vectors and strings whose memory is accounted for in it.
//!
//! The allocator works on addresses: it hands out address ranges from chunks
//! obtained from a base allocator, and every statement about alignment, bounds
//! and disjointness is proved over those addresses.
use vstd::prelude::*;

pub mod align;
pub mod allocator;
pub mod chunk_list;
pub mod bumping;
pub mod chunk_size;
pub mod fixed_bump_string;
pub mod fixed_bump_vec;
pub mod from_utf16_error;
pub mod from_utf8_error;
pub mod layout;
pub mod mut_bump_scope_guard;
pub mod mut_bump_vec;
pub mod mut_bump_vec_rev;
pub mod one_sided_range;
pub mod owned_slice;
pub mod owned_str;
pub mod range;
pub mod raw_bump;
pub mod raw_chunk;
pub mod settings;
pub mod stats;
pub mod unicode;

verus! {

pub use crate::align::{round_down, round_up};

/// Rounds `addr` up to a multiple of `align`. Does not check for overflow, so
/// the rounded value must fit in a `usize`.
pub fn up_align_usize_unchecked(addr: usize, align: usize) -> (r: usize)
    requires
        align > 0,
        round_up(addr as int, align as int) <= usize::MAX,
    ensures
        r == round_up(addr as int, align as int),
{
    let rem = addr % align;
    if rem == 0 {
        addr
    } else {
        addr + (align - rem)
    }
}

/// Rounds `addr` down to a multiple of `align`.
pub fn down_align_usize(addr: usize, align: usize) -> (r: usize)
    requires
        align > 0,
    ensures
        r == round_down(addr as int, align as int),
{
    proof {
        crate::align::lemma_round_down(addr as int, align as int);
    }
    addr - addr % align
}

/// The address a downwards bump ends at: `size` below `addr` (saturating at
/// zero), rounded down to `align`.
pub fn bump_down(addr: usize, size: usize, align: usize) -> (r: usize)
    requires
        addr > 0,
        align > 0,
    ensures
        r == round_down(if addr >= size { addr - size } else { 0 }, align as int),
{
    let subtracted = addr.saturating_sub(size);
    down_align_usize(subtracted, align)
}

/// The minimum non-zero capacity of a growing vector whose elements have
/// `size` bytes: 8 for bytes, 4 for elements of at most 1 KiB, 1 otherwise.
pub open spec fn spec_min_non_zero_cap(size: int) -> int {
    if size == 1 {
        8
    } else if size <= 1024 {
        4
    } else {
        1
    }
}

/// Returns the minimum non-zero capacity for elements of `size` bytes.
pub fn min_non_zero_cap(size: usize) -> (r: usize)
    ensures
        r == spec_min_non_zero_cap(size as int),
{
    if size == 1 {
        8
    } else if size <= 1024 {
        4
    } else {
        1
    }
}

/// Aligns a bump position to `min_align`: upwards when bumping up, downwards
/// when bumping down.
pub open spec fn spec_align_pos(up: bool, min_align: int, pos: int) -> int {
    if up {
        round_up(pos, min_align)
    } else {
        round_down(pos, min_align)
    }
}

/// Aligning moves a position only in the bump direction, and by as little as
/// possible: to the nearest multiple of `min_align` at or above it when
/// bumping up, at or below it when bumping down.
pub proof fn lemma_align_pos_nearest(up: bool, min_align: int, pos: int)
    requires
        min_align > 0,
    ensures
        spec_align_pos(up, min_align, pos) % min_align == 0,
        up ==> pos <= spec_align_pos(up, min_align, pos) < pos + min_align,
        !up ==> pos - min_align < spec_align_pos(up, min_align, pos) <= pos,
{
    crate::align::lemma_round_up(pos, min_align);
    crate::align::lemma_round_down(pos, min_align);
}

/// Aligns a bump address to `min_align`, in the bump direction.
pub fn align_pos(up: bool, min_align: usize, pos: usize) -> (r: usize)
    requires
        min_align > 0,
        pos > 0,
        up ==> round_up(pos as int, min_align as int) <= usize::MAX,
    ensures
        r == spec_align_pos(up, min_align as int, pos as int),
{
    if up {
        up_align_usize_unchecked(pos, min_align)
    } else {
        down_align_usize(pos, min_align)
    }
}

} // verus!

