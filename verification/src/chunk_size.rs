//! How large a chunk is requested from the base allocator.
//!
//! A size hint is rounded up to a power of two when it is at most a page,
//! and to a multiple of the page size otherwise; then the assumed overhead of
//! the base allocator is taken off, so that the allocation plus that overhead
//! fills the rounded size exactly.
use vstd::prelude::*;

verus! {

use crate::align::{lemma_mod_transitive, lemma_pow2_divides, lemma_round_down, lemma_round_up, round_down, round_up};
use crate::bumping::MIN_CHUNK_ALIGN;
use crate::layout::Layout;
use crate::raw_chunk::lemma_pow2_16;
use vstd::arithmetic::power2::is_pow2;

/// Sizes up to this are rounded up to a power of two, larger ones to a
/// multiple of it.
pub const ASSUMED_PAGE_SIZE: usize = 0x1000;

/// The bytes a base allocator is assumed to keep next to each allocation.
pub const ASSUMED_MALLOC_OVERHEAD_SIZE: usize = 16;

/// The size of a chunk's header.
pub const CHUNK_HEADER_SIZE: usize = 32;

/// The smallest size hint; smaller hints are raised to it.
pub const MIN_CHUNK_SIZE_HINT: usize = 64;

/// The smallest power of two that is at least `n`, searching upwards from `p`.
pub open spec fn pow2_at_least(n: int, p: int) -> int
    decreases (if n > p { n - p } else { 0 }),
    when p > 0
{
    if p >= n {
        p
    } else {
        pow2_at_least(n, 2 * p)
    }
}

/// The chunk size for a hint: the hint raised to the minimum, rounded up to
/// a power of two (up to a page) or to a page multiple (beyond), minus the
/// malloc overhead. `None` when the rounded size exceeds `isize::MAX`.
pub open spec fn spec_calc_size(hint: int) -> Option<int> {
    let h = if hint < MIN_CHUNK_SIZE_HINT {
        MIN_CHUNK_SIZE_HINT as int
    } else {
        hint
    };
    let s = if h <= ASSUMED_PAGE_SIZE {
        pow2_at_least(h, 1)
    } else {
        round_up(h, ASSUMED_PAGE_SIZE as int)
    };
    if s <= isize::MAX {
        Some(s - ASSUMED_MALLOC_OVERHEAD_SIZE)
    } else {
        None
    }
}

/// The hint that reserves room for `size` bytes aligned to `align`: the
/// size, the alignment and a minimum chunk alignment of padding, the header
/// and the malloc overhead.
pub open spec fn spec_capacity_hint(size: int, align: int) -> int {
    size + align + MIN_CHUNK_ALIGN + CHUNK_HEADER_SIZE + ASSUMED_MALLOC_OVERHEAD_SIZE
}

/// A requested chunk size before rounding.
#[derive(Clone, Copy, PartialEq, Eq, Structural)]
pub struct ChunkSizeHint(pub usize);

/// A chunk size after rounding: a multiple of [`MIN_CHUNK_ALIGN`] of at least
/// 48 bytes that forms a valid layout.
#[derive(Clone, Copy, PartialEq, Eq, Structural)]
pub struct ChunkSize(pub usize);

impl ChunkSize {
    /// The invariant: a multiple of the chunk alignment, at least the
    /// smallest size, and small enough that the malloc overhead still fits.
    pub open spec fn wf(self) -> bool {
        &&& self.0 % MIN_CHUNK_ALIGN == 0
        &&& self.0 >= MIN_CHUNK_SIZE_HINT - ASSUMED_MALLOC_OVERHEAD_SIZE
        &&& self.0 <= isize::MAX - ASSUMED_MALLOC_OVERHEAD_SIZE
    }

    /// The chunk size for a size hint.
    pub fn from_hint(hint: usize) -> (r: Option<ChunkSize>)
        ensures
            r is Some <==> spec_calc_size(hint as int) is Some,
            r matches Some(c) ==> c.wf() && spec_calc_size(hint as int) == Some(c.0 as int),
    {
        ChunkSizeHint(hint).calc_size()
    }

    /// The chunk size with room for an allocation of `layout` in a fresh chunk.
    pub fn from_capacity(layout: Layout) -> (r: Option<ChunkSize>)
        requires
            layout.wf(),
        ensures
            spec_capacity_hint(layout.spec_size() as int, layout.spec_align() as int) <= usize::MAX
                && spec_calc_size(
                spec_capacity_hint(layout.spec_size() as int, layout.spec_align() as int),
            ) is Some <==> r is Some,
            r matches Some(c) ==> c.wf() && spec_calc_size(
                spec_capacity_hint(layout.spec_size() as int, layout.spec_align() as int),
            ) == Some(c.0 as int),
    {
        match ChunkSizeHint::for_capacity(layout) {
            Some(hint) => hint.calc_size(),
            None => None,
        }
    }

    /// The larger of two chunk sizes.
    pub fn max(self, other: ChunkSize) -> (r: ChunkSize)
        ensures
            r.0 == (if self.0 >= other.0 { self.0 } else { other.0 }),
    {
        if self.0 >= other.0 {
            self
        } else {
            other
        }
    }

    /// The layout requested from the base allocator for this chunk.
    pub fn layout(self) -> (r: Layout)
        requires
            self.wf(),
        ensures
            r.wf(),
            r.spec_size() == self.0,
            r.spec_align() == MIN_CHUNK_ALIGN,
    {
        proof {
            crate::layout::lemma_min_chunk_align_layout(self.0 as int);
        }
        match Layout::from_size_align(self.0, MIN_CHUNK_ALIGN) {
            Ok(l) => l,
            Err(_) => Layout::from_size_align(self.0, MIN_CHUNK_ALIGN).unwrap(),
        }
    }

    /// The base allocator may return more than requested; the chunk uses the
    /// returned size rounded down to [`MIN_CHUNK_ALIGN`].
    pub fn align_allocation_size(self, size: usize) -> (r: usize)
        ensures
            r == round_down(size as int, MIN_CHUNK_ALIGN as int),
            r % MIN_CHUNK_ALIGN == 0,
            r <= size,
            self.wf() && size >= self.0 ==> r >= self.0,
    {
        proof {
            lemma_round_down(size as int, MIN_CHUNK_ALIGN as int);
            if self.wf() && size >= self.0 {
                crate::raw_chunk::lemma_round_down_bounded(size as int, MIN_CHUNK_ALIGN as int, self.0 as int);
            }
        }
        crate::down_align_usize(size, MIN_CHUNK_ALIGN)
    }
}

impl ChunkSizeHint {
    /// A hint of `size` bytes.
    pub fn new(size: usize) -> (r: ChunkSizeHint)
        ensures
            r.0 == size,
    {
        ChunkSizeHint(size)
    }

    /// The hint with room for an allocation of `layout` in a fresh chunk;
    /// `None` when it overflows.
    pub fn for_capacity(layout: Layout) -> (r: Option<ChunkSizeHint>)
        requires
            layout.wf(),
        ensures
            r is Some <==> spec_capacity_hint(layout.spec_size() as int, layout.spec_align() as int)
                <= usize::MAX,
            r matches Some(h) ==> h.0 == spec_capacity_hint(
                layout.spec_size() as int,
                layout.spec_align() as int,
            ),
    {
        let fixed = MIN_CHUNK_ALIGN + CHUNK_HEADER_SIZE + ASSUMED_MALLOC_OVERHEAD_SIZE;
        match layout.size().checked_add(layout.align()) {
            Some(a) => match a.checked_add(fixed) {
                Some(b) => Some(ChunkSizeHint(b)),
                None => None,
            },
            None => None,
        }
    }

    /// The larger of two hints.
    pub fn max(self, other: ChunkSizeHint) -> (r: ChunkSizeHint)
        ensures
            r.0 == (if self.0 >= other.0 { self.0 } else { other.0 }),
    {
        if self.0 >= other.0 {
            self
        } else {
            other
        }
    }

    /// Rounds the hint to a chunk size.
    pub fn calc_size(self) -> (r: Option<ChunkSize>)
        ensures
            r is Some <==> spec_calc_size(self.0 as int) is Some,
            r matches Some(c) ==> c.wf() && spec_calc_size(self.0 as int) == Some(c.0 as int),
    {
        let h = if self.0 < MIN_CHUNK_SIZE_HINT {
            MIN_CHUNK_SIZE_HINT
        } else {
            self.0
        };
        let max: usize = isize::MAX as usize;
        proof {
            reveal(is_pow2);
        }
        if h <= ASSUMED_PAGE_SIZE {
            let mut p: usize = 1;
            while p < h
                invariant
                    h <= ASSUMED_PAGE_SIZE,
                    0 < p <= 2 * ASSUMED_PAGE_SIZE,
                    is_pow2(p as int),
                    pow2_at_least(h as int, p as int) == pow2_at_least(h as int, 1),
                decreases 2 * ASSUMED_PAGE_SIZE - p,
            {
                proof {
                    reveal(is_pow2);
                    assert((2 * p) / 2 == p);
                }
                p = p * 2;
            }
            proof {
                lemma_pow2_16();
                lemma_pow2_divides(16, p as int);
            }
            Some(ChunkSize(p - ASSUMED_MALLOC_OVERHEAD_SIZE))
        } else {
            proof {
                lemma_round_up(h as int, ASSUMED_PAGE_SIZE as int);
            }
            match crate::bumping::checked_up_align(h, ASSUMED_PAGE_SIZE) {
                Some(s) => {
                    if s <= max {
                        proof {
                            lemma_mod_transitive(s as int, ASSUMED_PAGE_SIZE as int, 16);
                        }
                        Some(ChunkSize(s - ASSUMED_MALLOC_OVERHEAD_SIZE))
                    } else {
                        None
                    }
                },
                None => None,
            }
        }
    }
}

} // verus!
