//! A chunk of a bump allocator: an address range obtained from the base
//! allocator, whose header occupies one end and whose content the bump
//! position walks through.
use vstd::prelude::*;

verus! {

use crate::align::{lemma_round_down, lemma_round_up, round_down, round_up};
use crate::bumping::{
    bump_down, bump_prepare_down, bump_prepare_up, bump_up, spec_bump_down, spec_bump_prepare_down,
    spec_bump_prepare_up, spec_bump_up, BumpProps, MIN_CHUNK_ALIGN,
};
use crate::layout::Layout;
use vstd::arithmetic::power2::is_pow2;

/// A chunk: `chunk_start..chunk_end` is the memory obtained from the base
/// allocator. Bumping upwards, the header takes the first `header_size` bytes;
/// bumping downwards, it takes the last ones. The rest is the content, and
/// `pos` is the bump position within it.
#[derive(Clone, Copy, PartialEq, Eq, Debug, Structural)]
pub struct RawChunk {
    pub chunk_start: usize,
    pub chunk_end: usize,
    pub header_size: usize,
    pub pos: usize,
    pub up: bool,
}

impl RawChunk {
    /// Where the content starts: after the header when bumping upwards.
    pub open spec fn spec_content_start(self) -> int {
        if self.up {
            self.chunk_start + self.header_size
        } else {
            self.chunk_start as int
        }
    }

    /// Where the content ends: before the header when bumping downwards.
    pub open spec fn spec_content_end(self) -> int {
        if self.up {
            self.chunk_end as int
        } else {
            self.chunk_end - self.header_size
        }
    }

    /// The size of the chunk, header included.
    pub open spec fn spec_size(self) -> int {
        self.chunk_end - self.chunk_start
    }

    /// The size of the content.
    pub open spec fn spec_capacity(self) -> int {
        self.spec_content_end() - self.spec_content_start()
    }

    /// Bytes between the content's start and the bump position (bumping
    /// upwards) or between the bump position and the content's end.
    pub open spec fn spec_allocated(self) -> int {
        if self.up {
            self.pos - self.spec_content_start()
        } else {
            self.spec_content_end() - self.pos
        }
    }

    /// The rest of the content.
    pub open spec fn spec_remaining(self) -> int {
        if self.up {
            self.spec_content_end() - self.pos
        } else {
            self.pos - self.spec_content_start()
        }
    }

    /// The free range a bump takes its allocation from.
    pub open spec fn spec_remaining_range(self) -> (int, int) {
        if self.up {
            (self.pos as int, self.spec_content_end())
        } else {
            (self.spec_content_start(), self.pos as int)
        }
    }

    /// The range holding the allocations made in this chunk.
    pub open spec fn spec_allocated_range(self) -> (int, int) {
        if self.up {
            (self.spec_content_start(), self.pos as int)
        } else {
            (self.pos as int, self.spec_content_end())
        }
    }

    /// The address the bump position has when nothing is allocated.
    pub open spec fn spec_empty_pos(self) -> int {
        if self.up {
            self.spec_content_start()
        } else {
            self.spec_content_end()
        }
    }

    /// The chunk invariant: a non-null range that holds its header, with the
    /// bump position within the content.
    pub open spec fn wf(self) -> bool {
        &&& 0 < self.chunk_start
        &&& 0 < self.header_size
        &&& self.chunk_start + self.header_size <= self.chunk_end
        &&& self.spec_content_start() <= self.pos <= self.spec_content_end()
    }

    /// The chunk invariant of a bump allocator with minimum alignment
    /// `min_align`: the content bounds are aligned to [`MIN_CHUNK_ALIGN`] and
    /// the bump position to `min_align`.
    pub open spec fn aligned_wf(self, min_align: usize) -> bool {
        &&& self.wf()
        &&& self.spec_content_start() % MIN_CHUNK_ALIGN as int == 0
        &&& self.spec_content_end() % MIN_CHUNK_ALIGN as int == 0
        &&& (self.pos as int) % (min_align as int) == 0
    }

    /// The same chunk with the bump position moved to `pos`.
    pub open spec fn with_pos(self, pos: int) -> RawChunk {
        RawChunk { pos: pos as usize, ..self }
    }

    /// Whether two chunks occupy the same memory with the same header.
    pub open spec fn same_region(self, other: RawChunk) -> bool {
        &&& self.chunk_start == other.chunk_start
        &&& self.chunk_end == other.chunk_end
        &&& self.header_size == other.header_size
        &&& self.up == other.up
    }

    /// The bump inputs for an allocation of `size` bytes aligned to `align`.
    pub open spec fn spec_bump_props(self, min_align: usize, size: usize, align: usize) -> BumpProps {
        BumpProps {
            start: self.spec_remaining_range().0 as usize,
            end: self.spec_remaining_range().1 as usize,
            size,
            align,
            min_align,
        }
    }

    /// Where an allocation of `size` bytes aligned to `align` lands in this
    /// chunk, and the bump position afterwards; `None` when it does not fit.
    pub open spec fn spec_alloc(self, min_align: usize, size: usize, align: usize) -> Option<(int, int)> {
        let p = self.spec_bump_props(min_align, size, align);
        if self.up {
            match spec_bump_up(p) {
                Some((new_pos, ptr)) => Some((ptr, new_pos)),
                None => None,
            }
        } else {
            match spec_bump_down(p) {
                Some(ptr) => Some((ptr, ptr)),
                None => None,
            }
        }
    }

    /// The start of the chunk.
    pub fn chunk_start(&self) -> (r: usize)
        ensures
            r == self.chunk_start,
    {
        self.chunk_start
    }

    /// The end of the chunk.
    pub fn chunk_end(&self) -> (r: usize)
        ensures
            r == self.chunk_end,
    {
        self.chunk_end
    }

    /// The start of the content.
    pub fn content_start(&self) -> (r: usize)
        requires
            self.wf(),
        ensures
            r == self.spec_content_start(),
    {
        if self.up {
            self.chunk_start + self.header_size
        } else {
            self.chunk_start
        }
    }

    /// The end of the content.
    pub fn content_end(&self) -> (r: usize)
        requires
            self.wf(),
        ensures
            r == self.spec_content_end(),
    {
        if self.up {
            self.chunk_end
        } else {
            self.chunk_end - self.header_size
        }
    }

    /// The bump position.
    pub fn pos(&self) -> (r: usize)
        ensures
            r == self.pos,
    {
        self.pos
    }

    /// Whether this chunk bumps upwards.
    pub fn is_upwards_allocating(&self) -> (r: bool)
        ensures
            r == self.up,
    {
        self.up
    }

    /// The size of the whole chunk, header included.
    pub fn size(&self) -> (r: usize)
        requires
            self.wf(),
        ensures
            r == self.spec_size(),
            r > 0,
    {
        self.chunk_end - self.chunk_start
    }

    /// The size of the content.
    pub fn capacity(&self) -> (r: usize)
        requires
            self.wf(),
        ensures
            r == self.spec_capacity(),
    {
        self.content_end() - self.content_start()
    }

    /// The bytes taken by allocations in this chunk.
    pub fn allocated(&self) -> (r: usize)
        requires
            self.wf(),
        ensures
            r == self.spec_allocated(),
    {
        if self.up {
            self.pos - self.content_start()
        } else {
            self.content_end() - self.pos
        }
    }

    /// The bytes still free in this chunk.
    pub fn remaining(&self) -> (r: usize)
        requires
            self.wf(),
        ensures
            r == self.spec_remaining(),
    {
        if self.up {
            self.content_end() - self.pos
        } else {
            self.pos - self.content_start()
        }
    }

    /// The free range.
    pub fn remaining_range(&self) -> (r: (usize, usize))
        requires
            self.wf(),
        ensures
            r.0 == self.spec_remaining_range().0,
            r.1 == self.spec_remaining_range().1,
    {
        if self.up {
            (self.pos, self.content_end())
        } else {
            (self.content_start(), self.pos)
        }
    }

    /// The range taken by allocations.
    pub fn allocated_range(&self) -> (r: (usize, usize))
        requires
            self.wf(),
        ensures
            r.0 == self.spec_allocated_range().0,
            r.1 == self.spec_allocated_range().1,
    {
        if self.up {
            (self.content_start(), self.pos)
        } else {
            (self.pos, self.content_end())
        }
    }

    /// Whether `addr` lies within the content or at its end.
    pub fn contains_addr_or_end(&self, addr: usize) -> (r: bool)
        requires
            self.wf(),
        ensures
            r == (self.spec_content_start() <= addr <= self.spec_content_end()),
    {
        let start = self.content_start();
        let end = self.content_end();
        addr >= start && addr <= end
    }

    /// Moves the bump position to `addr`.
    pub fn set_pos_addr(&mut self, addr: usize)
        requires
            old(self).wf(),
            old(self).spec_content_start() <= addr <= old(self).spec_content_end(),
        ensures
            *final(self) == old(self).with_pos(addr as int),
            final(self).wf(),
    {
        self.pos = addr;
    }

    /// Moves the bump position to `pos` aligned to `min_align` in the bump
    /// direction.
    pub fn set_pos_addr_and_align(&mut self, pos: usize, min_align: usize)
        requires
            old(self).aligned_wf(min_align),
            is_pow2(min_align as int),
            min_align <= MIN_CHUNK_ALIGN,
            old(self).spec_content_start() <= pos <= old(self).spec_content_end(),
        ensures
            *final(self) == old(self).with_pos(crate::spec_align_pos(old(self).up, min_align as int, pos as int)),
            final(self).aligned_wf(min_align),
    {
        proof {
            reveal(is_pow2);
            self.lemma_align_within(pos as int, min_align as int);
        }
        let addr = crate::align_pos(self.up, min_align, pos);
        self.pos = addr;
    }

    /// Moves the bump position to `pos`, which is aligned to `pos_align`,
    /// aligning it to `min_align` first when `pos_align` is smaller.
    pub fn set_pos_addr_and_align_from(&mut self, pos: usize, pos_align: usize, min_align: usize)
        requires
            old(self).aligned_wf(min_align),
            is_pow2(min_align as int),
            is_pow2(pos_align as int),
            min_align <= MIN_CHUNK_ALIGN,
            pos % pos_align == 0,
            old(self).spec_content_start() <= pos <= old(self).spec_content_end(),
        ensures
            final(self).aligned_wf(min_align),
            pos_align >= min_align ==> *final(self) == old(self).with_pos(pos as int),
            pos_align < min_align ==> *final(self) == old(self).with_pos(
                crate::spec_align_pos(old(self).up, min_align as int, pos as int),
            ),
    {
        if pos_align < min_align {
            self.set_pos_addr_and_align(pos, min_align);
        } else {
            proof {
                crate::align::lemma_aligned_to_smaller_pow2(pos as int, pos_align as int, min_align as int);
            }
            self.pos = pos;
        }
    }

    /// Moves the bump position back to where it is when nothing is allocated.
    pub fn reset(&mut self)
        requires
            old(self).wf(),
        ensures
            *final(self) == old(self).with_pos(old(self).spec_empty_pos()),
            final(self).wf(),
            final(self).spec_allocated() == 0,
    {
        if self.up {
            self.pos = self.content_start();
        } else {
            self.pos = self.content_end();
        }
    }

    /// The bump inputs for an allocation of `size` bytes aligned to `align`.
    pub fn bump_props(&self, min_align: usize, size: usize, align: usize) -> (r: BumpProps)
        requires
            self.wf(),
        ensures
            r == self.spec_bump_props(min_align, size, align),
    {
        let (start, end) = self.remaining_range();
        BumpProps { start, end, size, align, min_align }
    }

    /// Allocates `layout` in this chunk, returning the allocation's start.
    /// On success the bump position moves past the allocation; otherwise
    /// nothing changes.
    pub fn allocate(&mut self, min_align: usize, layout: Layout) -> (r: Option<usize>)
        requires
            old(self).aligned_wf(min_align),
            is_pow2(min_align as int),
            min_align <= MIN_CHUNK_ALIGN,
            layout.wf(),
        ensures
            r is Some <==> old(self).spec_alloc(min_align, layout.spec_size() as usize, layout.spec_align() as usize) is Some,
            r is None ==> *final(self) == *old(self),
            r matches Some(ptr) ==> {
                let (p, new_pos) = old(self).spec_alloc(min_align, layout.spec_size() as usize, layout.spec_align() as usize)->0;
                &&& p == ptr
                &&& *final(self) == old(self).with_pos(new_pos)
            },
            final(self).aligned_wf(min_align),
            r matches Some(ptr) ==> old(self).allocation_fits(*final(self), ptr as int, layout),
    {
        let props = self.bump_props(min_align, layout.size(), layout.align());
        if self.up {
            match bump_up(props) {
                Some(b) => {
                    self.pos = b.new_pos;
                    Some(b.ptr)
                },
                None => None,
            }
        } else {
            match bump_down(props) {
                Some(ptr) => {
                    self.pos = ptr;
                    Some(ptr)
                },
                None => None,
            }
        }
    }

    /// What a successful allocation of `layout` at `ptr` guarantees: `ptr` is
    /// aligned, the allocation lies in the free range of the chunk before the
    /// allocation, and in the allocated range afterwards.
    pub open spec fn allocation_fits(self, after: RawChunk, ptr: int, layout: Layout) -> bool {
        &&& ptr % layout.spec_align() as int == 0
        &&& self.spec_remaining_range().0 <= ptr
        &&& ptr + layout.spec_size() <= self.spec_remaining_range().1
        &&& after.spec_allocated_range().0 <= ptr
        &&& ptr + layout.spec_size() <= after.spec_allocated_range().1
        &&& self.same_region(after)
    }

    /// Finds where `layout` would land in this chunk without moving the bump
    /// position.
    pub fn prepare_allocation(&self, min_align: usize, layout: Layout) -> (r: Option<usize>)
        requires
            self.aligned_wf(min_align),
            is_pow2(min_align as int),
            min_align <= MIN_CHUNK_ALIGN,
            layout.wf(),
        ensures
            r is Some <==> self.spec_alloc(min_align, layout.spec_size() as usize, layout.spec_align() as usize) is Some,
            r matches Some(ptr) ==> self.spec_alloc(min_align, layout.spec_size() as usize, layout.spec_align() as usize) matches Some((p, _)) && p == ptr,
    {
        let props = self.bump_props(min_align, layout.size(), layout.align());
        if self.up {
            match bump_up(props) {
                Some(b) => Some(b.ptr),
                None => None,
            }
        } else {
            bump_down(props)
        }
    }

    /// The range an array of at least `layout`'s size could use in this chunk
    /// without moving the bump position.
    pub fn prepare_allocation_range(&self, min_align: usize, layout: Layout) -> (r: Option<(usize, usize)>)
        requires
            self.aligned_wf(min_align),
            is_pow2(min_align as int),
            min_align <= MIN_CHUNK_ALIGN,
            layout.wf(),
        ensures
            ({
                let p = self.spec_bump_props(min_align, layout.spec_size() as usize, layout.spec_align() as usize);
                let s = if self.up { spec_bump_prepare_up(p) } else { spec_bump_prepare_down(p) };
                &&& r is Some <==> s is Some
                &&& r matches Some(range) ==> s == Some((range.0 as int, range.1 as int))
            }),
    {
        let props = self.bump_props(min_align, layout.size(), layout.align());
        if self.up {
            bump_prepare_up(props)
        } else {
            bump_prepare_down(props)
        }
    }

    /// The layout this chunk was allocated with.
    pub fn layout(&self) -> (r: Layout)
        requires
            self.wf(),
            self.spec_size() <= isize::MAX - 15,
        ensures
            r.spec_size() == self.spec_size(),
            r.spec_align() == MIN_CHUNK_ALIGN,
    {
        match Layout::from_size_align(self.size(), MIN_CHUNK_ALIGN) {
            Ok(l) => l,
            Err(_) => {
                proof {
                    crate::layout::lemma_min_chunk_align_layout(self.spec_size());
                }
                Layout::from_size_align(self.size(), MIN_CHUNK_ALIGN).unwrap()
            },
        }
    }

    /// Aligning a position within the content keeps it within the content.
    proof fn lemma_align_within(self, pos: int, min_align: int)
        requires
            self.aligned_wf(min_align as usize),
            min_align > 0,
            is_pow2(min_align),
            min_align <= MIN_CHUNK_ALIGN,
            self.spec_content_start() <= pos <= self.spec_content_end(),
        ensures
            self.spec_content_start() <= crate::spec_align_pos(self.up, min_align, pos)
                <= self.spec_content_end(),
            crate::spec_align_pos(self.up, min_align, pos) % min_align == 0,
            self.up ==> round_up(pos, min_align) <= usize::MAX,
    {
        lemma_round_up(pos, min_align);
        lemma_round_down(pos, min_align);
        lemma_pow2_16();
        crate::align::lemma_aligned_to_smaller_pow2(self.spec_content_start(), MIN_CHUNK_ALIGN as int, min_align);
        crate::align::lemma_aligned_to_smaller_pow2(self.spec_content_end(), MIN_CHUNK_ALIGN as int, min_align);
        lemma_round_up_bounded(pos, min_align, self.spec_content_end());
        lemma_round_down_bounded(pos, min_align, self.spec_content_start());
    }
}

impl RawChunk {
    /// Bumping takes no more than the layout needs. Upwards, the allocation
    /// starts at the first address at or above the bump position that is
    /// aligned to `align`, and the position moves to the first address at or
    /// past its end that is aligned to `min_align`. Downwards, the allocation
    /// starts at the highest address below the position that leaves room for
    /// it and is aligned to both alignments, and the position moves to that
    /// start. Either way the allocation lies in the free range and the
    /// allocated bytes grow by exactly the distance the position moved. When
    /// the allocation fails, no place in the free range aligned as required
    /// has room for it.
    pub proof fn lemma_alloc_is_tight(self, min_align: usize, size: usize, align: usize)
        requires
            self.aligned_wf(min_align),
            is_pow2(min_align as int),
            min_align <= MIN_CHUNK_ALIGN,
            is_pow2(align as int),
        ensures
            self.spec_alloc(min_align, size, align) matches Some((p, np)) ==> {
                &&& p % (align as int) == 0
                &&& np % (min_align as int) == 0
                &&& self.spec_remaining_range().0 <= p
                &&& p + size <= self.spec_remaining_range().1
                &&& self.up ==> self.pos <= p < self.pos + align && p + size <= np < p + size + min_align
                &&& !self.up ==> np == p && p % (min_align as int) == 0 && p + size <= self.pos < p + size
                    + (if align >= min_align { align } else { min_align })
                &&& self.with_pos(np).spec_allocated() == self.spec_allocated() + (if self.up {
                    np - self.pos
                } else {
                    self.pos - np
                })
            },
            self.spec_alloc(min_align, size, align) is None && self.up ==> forall|x: int|
                #![trigger x % (align as int)]
                x % (align as int) == 0 && self.pos <= x ==> x + size > self.spec_content_end(),
            self.spec_alloc(min_align, size, align) is None && !self.up ==> forall|x: int|
                #![trigger x % (align as int)]
                x % (align as int) == 0 && x % (min_align as int) == 0 && self.spec_content_start() <= x
                    ==> x + size > self.pos,
    {
        reveal(is_pow2);
        lemma_pow2_16();
        let a: int = if align >= min_align { align as int } else { min_align as int };
        crate::align::lemma_aligned_to_smaller_pow2(self.spec_content_start(), MIN_CHUNK_ALIGN as int, min_align as int);
        crate::align::lemma_aligned_to_smaller_pow2(self.spec_content_end(), MIN_CHUNK_ALIGN as int, min_align as int);
        let pos = self.pos as int;
        let end = self.spec_content_end();
        let start = self.spec_content_start();
        if self.up {
            let p = round_up(pos, align as int);
            lemma_round_up(pos, align as int);
            lemma_round_up(p + size, min_align as int);
            if self.spec_alloc(min_align, size, align) is None {
                assert forall|x: int|
                    #![trigger x % (align as int)]
                    x % (align as int) == 0 && pos <= x implies x + size > end by {
                    if x + size <= end {
                        lemma_round_up_bounded(pos, align as int, x);
                        lemma_round_up_bounded(p + size, min_align as int, end);
                    }
                }
            }
        } else {
            lemma_round_down(pos - size, a);
            let q = round_down(pos - size, a);
            if a == align as int {
                crate::align::lemma_aligned_to_smaller_pow2(q, align as int, min_align as int);
            } else {
                crate::align::lemma_aligned_to_smaller_pow2(q, min_align as int, align as int);
            }
            if self.spec_alloc(min_align, size, align) is None {
                assert forall|x: int|
                    #![trigger x % (align as int)]
                    x % (align as int) == 0 && x % (min_align as int) == 0 && start <= x implies x + size
                        > pos by {
                    if x + size <= pos {
                        assert(x % a == 0);
                        lemma_round_down_bounded(pos - size, a, x);
                    }
                }
            }
        }
    }
}

/// Rounding up stays at or below a bound that is itself aligned.
pub proof fn lemma_round_up_bounded(x: int, a: int, bound: int)
    requires
        a > 0,
        x <= bound,
        bound % a == 0,
    ensures
        round_up(x, a) <= bound,
{
    lemma_round_up(x, a);
    vstd::arithmetic::div_mod::lemma_fundamental_div_mod(x, a);
    vstd::arithmetic::div_mod::lemma_fundamental_div_mod(bound, a);
    let r = round_up(x, a);
    vstd::arithmetic::div_mod::lemma_fundamental_div_mod(r, a);
    let qr = r / a;
    let qb = bound / a;
    if r > bound {
        assert(qr > qb) by (nonlinear_arith)
            requires
                r == a * qr,
                bound == a * qb,
                r > bound,
                a > 0,
        ;
        assert(r - bound >= a) by (nonlinear_arith)
            requires
                r == a * qr,
                bound == a * qb,
                qr > qb,
                a > 0,
        ;
    }
}

/// Rounding down stays at or above a bound that is itself aligned.
pub proof fn lemma_round_down_bounded(x: int, a: int, bound: int)
    requires
        a > 0,
        bound <= x,
        bound % a == 0,
    ensures
        bound <= round_down(x, a),
{
    lemma_round_down(x, a);
    vstd::arithmetic::div_mod::lemma_fundamental_div_mod(bound, a);
    let r = round_down(x, a);
    vstd::arithmetic::div_mod::lemma_fundamental_div_mod(r, a);
    let qr = r / a;
    let qb = bound / a;
    if r < bound {
        assert(qr < qb) by (nonlinear_arith)
            requires
                r == a * qr,
                bound == a * qb,
                r < bound,
                a > 0,
        ;
        assert(bound - r >= a) by (nonlinear_arith)
            requires
                r == a * qr,
                bound == a * qb,
                qr < qb,
                a > 0,
        ;
    }
}

} // verus!

verus! {

/// 16 is a power of two.
pub proof fn lemma_pow2_16()
    ensures
        is_pow2(16),
{
    reveal_with_fuel(is_pow2, 6);
}

/// An empty chunk's position is aligned to every supported minimum
/// alignment.
pub proof fn lemma_empty_pos_aligned(c: RawChunk, min_align: usize)
    requires
        c.wf(),
        c.pos == c.spec_empty_pos(),
        c.spec_content_start() % MIN_CHUNK_ALIGN as int == 0,
        c.spec_content_end() % MIN_CHUNK_ALIGN as int == 0,
        is_pow2(min_align as int),
        min_align <= MIN_CHUNK_ALIGN,
    ensures
        c.aligned_wf(min_align),
{
    lemma_pow2_16();
    crate::align::lemma_aligned_to_smaller_pow2(c.spec_content_start(), MIN_CHUNK_ALIGN as int, min_align as int);
    crate::align::lemma_aligned_to_smaller_pow2(c.spec_content_end(), MIN_CHUNK_ALIGN as int, min_align as int);
}

/// An empty chunk whose capacity is at least the size plus the alignment
/// plus [`MIN_CHUNK_ALIGN`] has room for the allocation.
pub proof fn lemma_fresh_chunk_fits(c: RawChunk, min_align: usize, size: usize, align: usize)
    requires
        c.aligned_wf(min_align),
        c.pos == c.spec_empty_pos(),
        is_pow2(min_align as int),
        min_align <= MIN_CHUNK_ALIGN,
        is_pow2(align as int),
        c.spec_capacity() >= size + align + MIN_CHUNK_ALIGN,
    ensures
        c.spec_alloc(min_align, size, align) is Some,
{
    reveal(is_pow2);
    let p = c.spec_bump_props(min_align, size, align);
    if c.up {
        lemma_round_up(p.start as int, align as int);
        let ptr = round_up(p.start as int, align as int);
        lemma_round_up(ptr + size, min_align as int);
    } else {
        let a = if align >= min_align { align } else { min_align };
        lemma_round_down(p.end - size, a as int);
    }
}

/// An empty chunk with room for the size plus the alignment plus
/// [`MIN_CHUNK_ALIGN`] has room for an array of that size.
pub proof fn lemma_fresh_chunk_fits_range(c: RawChunk, min_align: usize, size: usize, align: usize)
    requires
        c.aligned_wf(min_align),
        c.pos == c.spec_empty_pos(),
        is_pow2(align as int),
        c.spec_capacity() >= size + align + MIN_CHUNK_ALIGN,
    ensures
        ({
            let p = c.spec_bump_props(min_align, size, align);
            if c.up {
                spec_bump_prepare_up(p) is Some
            } else {
                spec_bump_prepare_down(p) is Some
            }
        }),
{
    reveal(is_pow2);
    let p = c.spec_bump_props(min_align, size, align);
    lemma_round_up(p.start as int, align as int);
    lemma_round_down(p.end as int, align as int);
}

} // verus!
