//! The bump allocator: a sequence of chunks, the index of the current one,
//! and the base allocator the chunks come from.
use vstd::prelude::*;

verus! {

use crate::align::round_down;
use crate::allocator::{AllocError, BaseAllocator};
use crate::bumping::MIN_CHUNK_ALIGN;
use crate::chunk_list::{
    chunk_ok, chunks_wf, lemma_sum_split, lemma_sums_bounded, live_contains,
    regions_disjoint, spec_allocated, spec_remaining, sum_capacity, sum_size,
};
use crate::chunk_size::{spec_calc_size, spec_capacity_hint, ChunkSize, ChunkSizeHint, CHUNK_HEADER_SIZE};
use crate::layout::{ArrayLayout, Layout};
use crate::raw_chunk::{lemma_pow2_16, RawChunk};
use crate::settings::{supported_min_align, BumpAllocatorSettings};
use crate::stats::{lemma_stats_chunks_wf, Stats};
use core::marker::PhantomData;
use vstd::arithmetic::div_mod::{lemma_fundamental_div_mod, lemma_mod_multiples_basic};
use vstd::arithmetic::power2::is_pow2;

/// A position of a bump allocator to return to: the chunk that was current
/// and its bump position, or no chunk when none was allocated.
#[derive(Clone, Copy, PartialEq, Eq, Debug, Structural)]
pub struct Checkpoint {
    pub(crate) chunk: Option<usize>,
    pub(crate) address: usize,
}

impl Checkpoint {
    /// The index of the chunk that was current, if any.
    pub closed spec fn spec_chunk(self) -> Option<usize> {
        self.chunk
    }

    /// The bump position in that chunk.
    pub closed spec fn spec_address(self) -> usize {
        self.address
    }
}

/// A bump allocator over chunks obtained from the base allocator `A`, with
/// the settings `S`.
///
/// The chunks are ordered from the first (smallest) to the last (largest).
/// The chunks before the current one count as full; the ones after it are
/// kept from earlier use and are reset when allocation moves on to them.
pub struct RawBump<A, S> {
    chunks: Vec<RawChunk>,
    current: usize,
    claimed: bool,
    allocator: Option<A>,
    marker: PhantomData<S>,
}

impl<A, S: BumpAllocatorSettings> RawBump<A, S> {
    /// The chunks, from the first and smallest to the last and largest.
    pub closed spec fn spec_chunks(self) -> Seq<RawChunk> {
        self.chunks@
    }

    /// The index of the current chunk.
    pub closed spec fn spec_current(self) -> int {
        self.current as int
    }

    /// Whether another allocator took over the chunks.
    pub closed spec fn spec_claimed(self) -> bool {
        self.claimed
    }

    /// The base allocator; while the allocator is claimed, the claimant
    /// holds it.
    pub closed spec fn spec_allocator(self) -> A {
        match self.allocator {
            Some(a) => a,
            None => arbitrary(),
        }
    }

    /// Whether this allocator holds its base allocator: it does unless it is
    /// claimed.
    pub closed spec fn holds_allocator(self) -> bool {
        self.allocator is Some
    }

    /// Whether a chunk is allocated.
    pub open spec fn has_chunk(self) -> bool {
        self.spec_chunks().len() > 0
    }

    /// The current chunk.
    pub open spec fn current_chunk(self) -> RawChunk {
        self.spec_chunks()[self.spec_current()]
    }

    /// The size every chunk has at least: the chunk size computed from the
    /// settings' minimum chunk size, or 0 when that computation overflows.
    pub open spec fn min_chunk_size() -> int {
        match spec_calc_size(S::spec_minimum_chunk_size() as int) {
            Some(m) => m,
            None => 0,
        }
    }

    /// Whether every chunk of `cs` is at least [`Self::min_chunk_size`] large.
    pub open spec fn chunks_at_least_minimum(cs: Seq<RawChunk>) -> bool {
        forall|i: int| 0 <= i < cs.len() ==> #[trigger] cs[i].spec_size() >= Self::min_chunk_size()
    }

    /// Every chunk of a well-formed allocator is, together with the assumed
    /// allocator overhead, at least as large as the settings' minimum chunk
    /// size, unless that minimum is too large to give a chunk size at all.
    pub proof fn lemma_chunks_respect_minimum_size(self)
        requires
            self.wf(),
            spec_calc_size(S::spec_minimum_chunk_size() as int) is Some,
        ensures
            forall|i: int| 0 <= i < self.spec_chunks().len() ==> #[trigger] self.spec_chunks()[i].spec_size()
                + crate::chunk_size::ASSUMED_MALLOC_OVERHEAD_SIZE >= S::spec_minimum_chunk_size(),
    {
        lemma_calc_size_at_least(S::spec_minimum_chunk_size() as int);
    }

    /// The invariant of a bump allocator.
    pub open spec fn wf(self) -> bool {
        &&& supported_min_align(S::spec_min_align())
        &&& chunks_wf(self.spec_chunks(), S::spec_up(), S::spec_min_align())
        &&& self.has_chunk() ==> 0 <= self.spec_current() < self.spec_chunks().len()
        &&& self.spec_claimed() ==> !self.has_chunk()
        &&& S::spec_guaranteed_allocated() && !self.spec_claimed() ==> self.has_chunk()
        &&& self.holds_allocator() <==> !self.spec_claimed()
        &&& Self::chunks_at_least_minimum(self.spec_chunks())
    }

    /// The bytes allocated, as the statistics report them.
    pub open spec fn allocated_bytes(self) -> int {
        if self.has_chunk() {
            spec_allocated(self.spec_chunks(), self.spec_current())
        } else {
            0
        }
    }

    /// The bytes remaining, as the statistics report them.
    pub open spec fn remaining_bytes(self) -> int {
        if self.has_chunk() {
            spec_remaining(self.spec_chunks(), self.spec_current())
        } else {
            0
        }
    }

    /// Whether `addr` is in memory that is in use.
    pub open spec fn is_live(self, addr: int) -> bool {
        self.has_chunk() && live_contains(self.spec_chunks(), self.spec_current(), addr)
    }

    /// `later` grew out of `self` by allocation: no chunk was removed or
    /// moved, the current chunk did not move backwards, and the chunks before
    /// the current one are untouched.
    pub open spec fn extended_by(self, later: Self) -> bool {
        &&& later.spec_chunks().len() >= self.spec_chunks().len()
        &&& forall|i: int|
            0 <= i < self.spec_chunks().len() ==> (#[trigger] self.spec_chunks()[i]).same_region(
                later.spec_chunks()[i],
            )
        &&& forall|i: int|
            0 <= i < self.spec_current() && i < self.spec_chunks().len()
                ==> #[trigger] later.spec_chunks()[i] == self.spec_chunks()[i]
        &&& self.has_chunk() ==> later.spec_current() >= self.spec_current()
        &&& later.spec_claimed() == self.spec_claimed()
    }

    /// Whether `cp` refers to a position within this allocator.
    pub open spec fn valid_checkpoint(self, cp: Checkpoint) -> bool {
        match cp.spec_chunk() {
            None => !S::spec_guaranteed_allocated(),
            Some(i) => {
                &&& i < self.spec_chunks().len()
                &&& self.spec_chunks()[i as int].spec_content_start() <= cp.spec_address()
                    <= self.spec_chunks()[i as int].spec_content_end()
                &&& cp.spec_address() % S::spec_min_align() == 0
            },
        }
    }

    /// The checkpoint of the current position.
    pub open spec fn checkpoint_of(self, cp: Checkpoint) -> bool {
        if self.has_chunk() {
            &&& cp.spec_chunk() == Some(self.spec_current() as usize)
            &&& cp.spec_address() == self.current_chunk().pos
        } else {
            cp.spec_chunk() is None
        }
    }

    /// `after` is `self` with one more chunk, appended for `layout`: empty,
    /// with room for `layout` plus its alignment and [`MIN_CHUNK_ALIGN`], and
    /// (with the malloc overhead) at least twice as large as the chunk before.
    pub open spec fn appended(self, after: Self, layout: Layout) -> bool {
        let n = self.spec_chunks().len();
        &&& after.wf()
        &&& after.spec_chunks().len() == n + 1
        &&& after.spec_chunks().subrange(0, n as int) == self.spec_chunks()
        &&& after.spec_claimed() == self.spec_claimed()
        &&& after.spec_chunks()[n as int].pos == after.spec_chunks()[n as int].spec_empty_pos()
        &&& after.spec_chunks()[n as int].spec_capacity() >= layout.spec_size() + layout.spec_align()
            + MIN_CHUNK_ALIGN
        &&& n > 0 ==> after.spec_chunks()[n as int].spec_size()
            + crate::chunk_size::ASSUMED_MALLOC_OVERHEAD_SIZE >= 2 * self.spec_chunks()[n - 1].spec_size()
    }

    /// A fresh chunk that could be appended: well formed, empty, and not
    /// overlapping the existing chunks, whose sizes plus its own still fit in
    /// a `usize`.
    pub open spec fn appendable(cs: Seq<RawChunk>, c: RawChunk) -> bool {
        &&& chunk_ok(c, S::spec_up(), S::spec_min_align())
        &&& c.pos == c.spec_empty_pos()
        &&& forall|i: int| 0 <= i < cs.len() ==> regions_disjoint(#[trigger] cs[i], c)
        &&& sum_size(cs, 0, cs.len() as int) + c.spec_size() <= usize::MAX
    }
}

impl<A: BaseAllocator, S: BumpAllocatorSettings> RawBump<A, S> {
    /// Requests a chunk of at least `size` (and at least the minimum chunk
    /// size) from `allocator`, checks the returned block and lays out an
    /// empty chunk in it.
    fn new_chunk(allocator: &mut Option<A>, size: ChunkSize, chunks: &Vec<RawChunk>) -> (r: Result<
        RawChunk,
        AllocError,
    >)
        requires
            size.wf(),
            supported_min_align(S::spec_min_align()),
            chunks_wf(chunks@, S::spec_up(), S::spec_min_align()),
        ensures
            r matches Ok(c) ==> Self::appendable(chunks@, c) && c.spec_size() >= size.0,
            r matches Ok(c) ==> c.spec_size() >= Self::min_chunk_size(),
            (*final(allocator)) is Some <==> (*old(allocator)) is Some,
    {
        let size = match ChunkSize::from_hint(S::minimum_chunk_size()) {
            Some(min_size) => size.max(min_size),
            None => size,
        };
        let layout = size.layout();
        let block = match allocator {
            Some(a) => a.allocate(layout),
            None => None,
        };
        let (addr, len) = match block {
            Some(block) => block,
            None => return Err(AllocError),
        };
        Self::chunk_in_block(addr, len, size, chunks)
    }

    /// The chunk laid out in the block of `len` bytes at `addr` that the base
    /// allocator returned: its size is `len` rounded down to
    /// [`MIN_CHUNK_ALIGN`], the header sits at its start when bumping upwards
    /// and at its end when bumping downwards, and nothing is allocated.
    pub open spec fn block_chunk(addr: int, len: int) -> RawChunk {
        let cs = round_down(len, MIN_CHUNK_ALIGN as int);
        RawChunk {
            chunk_start: addr as usize,
            chunk_end: (addr + cs) as usize,
            header_size: CHUNK_HEADER_SIZE,
            pos: (if S::spec_up() {
                addr + CHUNK_HEADER_SIZE
            } else {
                addr + cs - CHUNK_HEADER_SIZE
            }) as usize,
            up: S::spec_up(),
        }
    }

    /// Whether the block of `len` bytes at `addr`, returned for a chunk of
    /// `size` bytes, can hold a chunk beside `chunks`: it is not null, aligned
    /// to [`MIN_CHUNK_ALIGN`], at least `size` long and does not wrap around;
    /// the chunk's size is at most `isize::MAX - 15`; the chunk overlaps none
    /// of `chunks`; and all chunk sizes together still fit in a `usize`.
    pub open spec fn block_usable(addr: int, len: int, size: int, chunks: Seq<RawChunk>) -> bool {
        let cs = round_down(len, MIN_CHUNK_ALIGN as int);
        &&& addr != 0
        &&& addr % (MIN_CHUNK_ALIGN as int) == 0
        &&& len >= size
        &&& addr + len <= usize::MAX
        &&& cs <= isize::MAX - 15
        &&& forall|j: int| 0 <= j < chunks.len() ==> regions_disjoint(#[trigger] chunks[j], Self::block_chunk(addr, len))
        &&& sum_size(chunks, 0, chunks.len() as int) + cs <= usize::MAX
    }

    /// Checks the block of `len` bytes at `addr` that the base allocator
    /// returned for a chunk of `size` bytes, and lays out the chunk in it when
    /// it is usable beside `chunks`.
    pub fn chunk_in_block(addr: usize, len: usize, size: ChunkSize, chunks: &Vec<RawChunk>) -> (r: Result<
        RawChunk,
        AllocError,
    >)
        requires
            size.wf(),
            supported_min_align(S::spec_min_align()),
            chunks_wf(chunks@, S::spec_up(), S::spec_min_align()),
        ensures
            r is Ok <==> Self::block_usable(addr as int, len as int, size.0 as int, chunks@),
            r matches Ok(c) ==> c == Self::block_chunk(addr as int, len as int) && Self::appendable(chunks@, c)
                && c.spec_size() >= size.0,
    {
        if addr == 0 || addr % MIN_CHUNK_ALIGN != 0 || len < size.0 || addr > usize::MAX - len {
            return Err(AllocError);
        }
        let chunk_size = size.align_allocation_size(len);
        if chunk_size > isize::MAX as usize - 15 {
            return Err(AllocError);
        }
        let end = addr + chunk_size;
        let up = S::up();
        let min_align = S::min_align();
        let chunk = if up {
            RawChunk {
                chunk_start: addr,
                chunk_end: end,
                header_size: CHUNK_HEADER_SIZE,
                pos: addr + CHUNK_HEADER_SIZE,
                up,
            }
        } else {
            RawChunk {
                chunk_start: addr,
                chunk_end: end,
                header_size: CHUNK_HEADER_SIZE,
                pos: end - CHUNK_HEADER_SIZE,
                up,
            }
        };
        proof {
            lemma_chunk_bounds_aligned(addr as int, chunk_size as int, min_align as int);
            assert(chunk == Self::block_chunk(addr as int, len as int));
        }
        // the block must not overlap a chunk, and all sizes must still fit
        let mut total: usize = 0;
        let mut i: usize = 0;
        while i < chunks.len()
            invariant
                i <= chunks@.len(),
                total == sum_size(chunks@, 0, i as int),
                chunks_wf(chunks@, S::spec_up(), S::spec_min_align()),
                chunk == Self::block_chunk(addr as int, len as int),
                forall|j: int| 0 <= j < i ==> regions_disjoint(#[trigger] chunks@[j], chunk),
            decreases chunks@.len() - i,
        {
            let c = chunks[i];
            if !(c.chunk_end <= chunk.chunk_start || chunk.chunk_end <= c.chunk_start) {
                proof {
                    assert(!regions_disjoint(chunks@[i as int], chunk));
                }
                return Err(AllocError);
            }
            proof {
                lemma_sums_bounded(chunks@, S::spec_up(), S::spec_min_align(), 0, i as int + 1);
                assert(chunk_ok(chunks@[i as int], S::spec_up(), S::spec_min_align()));
            }
            total = total + c.size();
            i = i + 1;
        }
        if total > usize::MAX - chunk_size {
            return Err(AllocError);
        }
        Ok(chunk)
    }
}

impl<A: BaseAllocator, S: BumpAllocatorSettings> RawBump<A, S> {
    /// A bump allocator without a chunk. Only available when the settings
    /// do not guarantee an allocated chunk.
    pub fn new_in(allocator: A) -> (r: Self)
        requires
            !S::spec_guaranteed_allocated(),
        ensures
            r.wf(),
            !r.has_chunk(),
            !r.spec_claimed(),
            r.allocated_bytes() == 0,
    {
        let _ = S::min_align();
        RawBump { chunks: Vec::new(), current: 0, claimed: false, allocator: Some(allocator), marker: PhantomData }
    }

    /// A bump allocator with one chunk of the size computed from `size`
    /// (see [`ChunkSize::from_hint`]); fails when that size overflows or the
    /// base allocator fails.
    pub fn with_size(size: usize, allocator: A) -> (r: Result<Self, AllocError>)
        ensures
            spec_calc_size(size as int) is None ==> r is Err,
            r matches Ok(b) ==> {
                &&& b.wf()
                &&& b.spec_chunks().len() == 1
                &&& b.spec_current() == 0
                &&& !b.spec_claimed()
                &&& b.allocated_bytes() == 0
                &&& b.current_chunk().spec_size() + crate::chunk_size::ASSUMED_MALLOC_OVERHEAD_SIZE
                    >= size
                &&& spec_calc_size(size as int) matches Some(cs) && b.current_chunk().spec_size() >= cs
                &&& spec_calc_size(S::spec_minimum_chunk_size() as int) matches Some(m) ==> b.current_chunk().spec_size() >= m
            },
    {
        let _ = S::min_align();
        let chunk_size = match ChunkSize::from_hint(size) {
            Some(c) => c,
            None => return Err(AllocError),
        };
        let mut allocator = Some(allocator);
        let chunks: Vec<RawChunk> = Vec::new();
        let chunk = Self::new_chunk(&mut allocator, chunk_size, &chunks)?;
        let mut chunks = chunks;
        chunks.push(chunk);
        proof {
            lemma_calc_size_at_least(size as int);
            assert(chunks@[0] == chunk);
            assert(sum_size(chunks@, 0, 1) == chunk.spec_size()) by {
                assert(sum_size(chunks@, 0, 0) == 0);
            }
            assert(sum_capacity(chunks@, 0, 0) == 0);
        }
        Ok(RawBump { chunks, current: 0, claimed: false, allocator, marker: PhantomData })
    }

    /// Whether the allocator is claimed.
    pub fn is_claimed(&self) -> (r: bool)
        ensures
            r == self.spec_claimed(),
    {
        self.claimed
    }

    /// The base allocator of an allocator that is not claimed.
    pub fn allocator(&self) -> (r: &A)
        requires
            self.wf(),
            !self.spec_claimed(),
        ensures
            *r == self.spec_allocator(),
    {
        self.allocator.as_ref().unwrap()
    }

    /// Statistics about the memory use of the allocator: its chunks, and its
    /// current chunk when one is allocated.
    pub fn stats(&self) -> (r: Stats<'_>)
        requires
            self.wf(),
        ensures
            r.view_chunks() == self.spec_chunks(),
            r.view_current() == (if self.has_chunk() {
                Some(self.spec_current())
            } else {
                None::<int>
            }),
    {
        proof {
            lemma_stats_chunks_wf(self.chunks@, S::spec_up(), S::spec_min_align());
        }
        let current = if self.chunks.len() > 0 {
            Some(self.current)
        } else {
            None
        };
        Stats::from_parts(&self.chunks, current)
    }

    /// The checkpoint of the current position.
    pub fn checkpoint(&self) -> (r: Checkpoint)
        requires
            self.wf(),
        ensures
            self.checkpoint_of(r),
            !self.spec_claimed() ==> self.valid_checkpoint(r),
    {
        if self.chunks.len() == 0 {
            Checkpoint { chunk: None, address: 0 }
        } else {
            let c = self.chunks[self.current];
            proof {
                assert(chunk_ok(self.chunks@[self.current as int], S::spec_up(), S::spec_min_align()));
            }
            Checkpoint { chunk: Some(self.current), address: c.pos }
        }
    }
}

impl<A, S: BumpAllocatorSettings> RawBump<A, S> {
    /// What an allocation of `layout` returning `r` guarantees about `after`,
    /// the allocator afterwards: it is well formed and grew out of `self`; a
    /// claimed allocator refuses and stays as it is; a returned address is
    /// aligned, lies in the allocated range of the current chunk, overlaps no
    /// memory that was in use, and all memory that was in use stays in use.
    pub open spec fn alloc_post(self, after: Self, layout: Layout, r: Result<usize, AllocError>) -> bool {
        &&& after.wf()
        &&& self.extended_by(after)
        &&& self.spec_claimed() ==> r is Err && after == self
        &&& r matches Ok(ptr) ==> {
            &&& after.has_chunk()
            &&& (ptr as int) % (layout.spec_align() as int) == 0
            &&& after.current_chunk().spec_allocated_range().0 <= ptr
            &&& ptr + layout.spec_size() <= after.current_chunk().spec_allocated_range().1
            &&& forall|x: int| ptr <= x < ptr + layout.spec_size() ==> !self.is_live(x)
            &&& forall|x: int| #[trigger] self.is_live(x) ==> after.is_live(x)
        }
    }

    /// When `layout` fits in the current chunk, the allocation is made there:
    /// exactly where [`RawChunk::spec_alloc`] says, and nothing else changes.
    pub open spec fn alloc_fast_path(self, after: Self, layout: Layout, r: Result<usize, AllocError>) -> bool {
        (!self.spec_claimed() && self.has_chunk() && self.current_chunk().spec_alloc(
            S::spec_min_align(),
            layout.spec_size() as usize,
            layout.spec_align() as usize,
        ) is Some) ==> {
            let (p, np) = self.current_chunk().spec_alloc(
                S::spec_min_align(),
                layout.spec_size() as usize,
                layout.spec_align() as usize,
            )->0;
            &&& r == Ok::<usize, AllocError>(p as usize)
            &&& after.spec_current() == self.spec_current()
            &&& after.spec_chunks() == self.spec_chunks().update(
                self.spec_current(),
                self.current_chunk().with_pos(np),
            )
        }
    }
}

impl<A: BaseAllocator, S: BumpAllocatorSettings> RawBump<A, S> {
    /// Allocates a block for `layout`: in the current chunk when it fits,
    /// otherwise in a later chunk (see [`alloc_in_another_chunk`]).
    ///
    /// [`alloc_in_another_chunk`]: Self::alloc_in_another_chunk
    pub fn allocate(&mut self, layout: Layout) -> (r: Result<usize, AllocError>)
        requires
            old(self).wf(),
            layout.wf(),
        ensures
            old(self).alloc_post(*final(self), layout, r),
            old(self).alloc_fast_path(*final(self), layout, r),
            !(old(self).has_chunk() && Self::fits(old(self).current_chunk(), layout, false)) ==> old(
                self,
            ).alloc_later_path(*final(self), layout, r),
            old(self).alloc_owed(layout) ==> r is Ok,
            old(self).alloc_new_chunk_path(*final(self), layout, r),
    {
        if self.claimed {
            return Err(AllocError);
        }
        if self.chunks.len() > 0 {
            let i = self.current;
            let min_align = S::min_align();
            let mut c = self.chunks[i];
            proof {
                assert(chunk_ok(self.chunks@[i as int], S::spec_up(), S::spec_min_align()));
                crate::settings::lemma_supported_min_align(min_align);
            }
            match c.allocate(min_align, layout) {
                Some(ptr) => {
                    proof {
                        crate::chunk_list::lemma_update_keeps_wf(
                            self.chunks@,
                            S::spec_up(),
                            S::spec_min_align(),
                            i as int,
                            c,
                        );
                    }
                    let ghost old_self = *self;
                    self.chunks.set(i, c);
                    proof {
                        self.lemma_alloc_result(old_self, i as int, ptr as int, layout);
                    }
                    return Ok(ptr);
                },
                None => {},
            }
        }
        self.alloc_in_another_chunk(layout)
    }

    /// Allocates a block for `layout` when it does not fit in the current
    /// chunk: moves on through the chunks after the current one, resetting
    /// each, until the block fits; otherwise appends a new chunk of at least
    /// twice the size of the last one (see [`append_for`]).
    ///
    /// [`append_for`]: Self::append_for
    #[verifier::rlimit(40)]
    pub fn alloc_in_another_chunk(&mut self, layout: Layout) -> (r: Result<usize, AllocError>)
        requires
            old(self).wf(),
            layout.wf(),
        ensures
            old(self).alloc_post(*final(self), layout, r),
            old(self).alloc_later_path(*final(self), layout, r),
            old(self).alloc_new_chunk_path(*final(self), layout, r),
    {
        if self.claimed {
            return Err(AllocError);
        }
        let ghost start = *self;
        let min_align = S::min_align();
        proof {
            crate::settings::lemma_supported_min_align(min_align);
        }
        if self.chunks.len() == 0 {
            let size = match ChunkSize::from_capacity(layout) {
                Some(size) => size,
                None => return Err(AllocError),
            };
            proof {
                lemma_calc_size_at_least(
                    spec_capacity_hint(layout.spec_size() as int, layout.spec_align() as int),
                );
            }
            let c = Self::new_chunk(&mut self.allocator, size, &self.chunks)?;
            proof {
                crate::chunk_list::lemma_push_keeps_wf(self.chunks@, S::spec_up(), S::spec_min_align(), c);
            }
            self.chunks.push(c);
            self.current = 0;
            let ghost pushed = *self;
            let r = self.alloc_in_fresh_last(layout, Ghost(start));
            proof {
                assert(self.spec_chunks().subrange(0, 0) =~= start.moved_chunks(-1));
                let c0 = pushed.spec_chunks()[0];
                assert(c0.with_pos(c0.spec_empty_pos()) == c0);
                assert(self.spec_chunks()[0] == c0.with_pos(self.spec_chunks()[0].pos as int));
            }
            return r;
        }
        proof {
            assert(start.moved_chunks(start.spec_current()) =~= start.spec_chunks());
        }
        while self.current < self.chunks.len() - 1
            invariant
                self.wf(),
                !self.spec_claimed(),
                self.has_chunk(),
                start == *old(self),
                start.spec_current() <= self.spec_current(),
                self.spec_chunks() == start.moved_chunks(self.spec_current()),
                forall|k: int|
                    start.spec_current() < k <= self.spec_current() ==> !#[trigger] Self::fits_reset(
                        start.spec_chunks()[k],
                        layout,
                        false,
                    ),
                start.wf(),
                start.has_chunk(),
                start.extended_by(*self),
                self.spec_chunks().len() == start.spec_chunks().len(),
                self.spec_chunks()[start.spec_current()] == start.current_chunk(),
                self.spec_allocator() == start.spec_allocator(),
                min_align == S::spec_min_align(),
                is_pow2(min_align as int),
                layout.wf(),
            decreases self.spec_chunks().len() - self.spec_current(),
        {
            let i = self.current + 1;
            let mut c = self.chunks[i];
            proof {
                assert(chunk_ok(self.chunks@[i as int], S::spec_up(), S::spec_min_align()));
                assert(c == start.spec_chunks()[i as int]);
            }
            c.reset();
            proof {
                crate::raw_chunk::lemma_empty_pos_aligned(c, min_align);
            }
            let ghost reset_c = c;
            let res = c.allocate(min_align, layout);
            proof {
                crate::chunk_list::lemma_update_keeps_wf(self.chunks@, S::spec_up(), S::spec_min_align(), i as int, c);
            }
            let ghost before = *self;
            self.chunks.set(i, c);
            self.current = i;
            proof {
                assert forall|j: int| 0 <= j < start.spec_chunks().len() implies
                    (#[trigger] start.spec_chunks()[j]).same_region(self.spec_chunks()[j]) by {
                    assert(start.spec_chunks()[j].same_region(before.spec_chunks()[j]));
                }
            }
            match res {
                Some(ptr) => {
                    proof {
                        assert(self.spec_current() > start.spec_current());
                        assert(self.spec_chunks()[start.spec_current()] == start.current_chunk());
                        assert(self.wf());
                        assert(start.extended_by(*self));
                        self.lemma_later_chunk_result(start, ptr as int, layout);
                        assert(Self::fits_reset(start.spec_chunks()[i as int], layout, false));
                        assert(start.later_fits(layout, false));
                        assert(self.spec_chunks() =~= start.moved_chunks(i as int).update(i as int, c));
                    }
                    return Ok(ptr);
                },
                None => {
                    proof {
                        assert(self.spec_chunks() =~= start.moved_chunks(i as int));
                    }
                },
            }
        }
        proof {
            if start.later_fits(layout, false) {
                let j = choose|j: int|
                    start.spec_current() < j < start.spec_chunks().len() && #[trigger] Self::fits_reset(
                        start.spec_chunks()[j],
                        layout,
                        false,
                    );
                assert(!Self::fits_reset(start.spec_chunks()[j], layout, false));
            }
        }
        let ghost before_append = *self;
        self.append_for(layout)?;
        proof {
            assert forall|j: int| 0 <= j < start.spec_chunks().len() implies
                (#[trigger] start.spec_chunks()[j]).same_region(self.spec_chunks()[j]) by {
                assert(start.spec_chunks()[j].same_region(before_append.spec_chunks()[j]));
            }
        }
        let ghost appended = *self;
        let r = self.alloc_in_fresh_last(layout, Ghost(start));
        proof {
            let n = start.spec_chunks().len();
            let c0 = appended.spec_chunks()[n as int];
            assert(c0.with_pos(c0.spec_empty_pos()) == c0);
            assert(self.spec_chunks()[n as int] == c0.with_pos(self.spec_chunks()[n as int].pos as int));
            assert(self.spec_chunks().subrange(0, n as int) =~= appended.spec_chunks().subrange(0, n as int));
            assert(before_append.spec_chunks()[n - 1].spec_size() == start.spec_chunks()[n - 1].spec_size());
        }
        r
    }

    /// Allocates `layout` in the last chunk, which was just appended for it.
    fn alloc_in_fresh_last(&mut self, layout: Layout, Ghost(start): Ghost<Self>) -> (r: Result<usize, AllocError>)
        requires
            old(self).wf(),
            layout.wf(),
            start.wf(),
            !start.spec_claimed(),
            old(self).has_chunk(),
            old(self).spec_current() == old(self).spec_chunks().len() - 1,
            old(self).spec_chunks().len() == start.spec_chunks().len() + 1,
            start.extended_by(*old(self)),
            start.has_chunk() ==> old(self).spec_chunks()[start.spec_current()] == start.current_chunk(),
            old(self).current_chunk().pos == old(self).current_chunk().spec_empty_pos(),
            old(self).current_chunk().spec_capacity() >= layout.spec_size() + layout.spec_align() + MIN_CHUNK_ALIGN,
        ensures
            start.alloc_post(*final(self), layout, r),
            old(self).current_chunk().spec_alloc(
                S::spec_min_align(),
                layout.spec_size() as usize,
                layout.spec_align() as usize,
            ) matches Some((p, np)) && r == Ok::<usize, AllocError>(p as usize) && final(self).spec_current()
                == old(self).spec_current() && final(self).spec_chunks() == old(self).spec_chunks().update(
                old(self).spec_current(),
                old(self).current_chunk().with_pos(np),
            ),
            final(self).spec_claimed() == old(self).spec_claimed(),
            final(self).spec_allocator() == old(self).spec_allocator(),
    {
        let i = self.current;
        let min_align = S::min_align();
        let mut c = self.chunks[i];
        proof {
            crate::settings::lemma_supported_min_align(min_align);
            assert(chunk_ok(self.chunks@[i as int], S::spec_up(), S::spec_min_align()));
            crate::raw_chunk::lemma_fresh_chunk_fits(c, min_align, layout.spec_size() as usize, layout.spec_align() as usize);
        }
        match c.allocate(min_align, layout) {
            Some(ptr) => {
                proof {
                    crate::chunk_list::lemma_update_keeps_wf(self.chunks@, S::spec_up(), S::spec_min_align(), i as int, c);
                }
                let ghost before = *self;
                self.chunks.set(i, c);
                proof {
                    assert forall|j: int| 0 <= j < start.spec_chunks().len() implies
                        (#[trigger] start.spec_chunks()[j]).same_region(self.spec_chunks()[j]) by {
                        assert(start.spec_chunks()[j].same_region(before.spec_chunks()[j]));
                    }
                    self.lemma_later_chunk_result(start, ptr as int, layout);
                }
                Ok(ptr)
            },
            None => Err(AllocError),
        }
    }

    /// Appends a new chunk with room for `layout` and makes it current. Its
    /// size is computed from the larger of that room and twice the size of
    /// the last chunk.
    pub fn append_for(&mut self, layout: Layout) -> (r: Result<(), AllocError>)
        requires
            old(self).wf(),
            old(self).has_chunk(),
            !old(self).spec_claimed(),
            layout.wf(),
        ensures
            final(self).holds_allocator() == old(self).holds_allocator(),
            r is Err ==> {
                &&& final(self).spec_chunks() == old(self).spec_chunks()
                &&& final(self).spec_current() == old(self).spec_current()
                &&& final(self).spec_claimed() == old(self).spec_claimed()
            },
            r is Ok ==> {
                let n = old(self).spec_chunks().len();
                &&& final(self).spec_current() == n
                &&& old(self).appended(*final(self), layout)
            },
    {
        self.append_chunk_for(layout)?;
        self.current = self.chunks.len() - 1;
        Ok(())
    }

    /// Appends a new chunk with room for `layout` without changing the
    /// current chunk.
    fn append_chunk_for(&mut self, layout: Layout) -> (r: Result<(), AllocError>)
        requires
            old(self).wf(),
            old(self).has_chunk(),
            !old(self).spec_claimed(),
            layout.wf(),
        ensures
            final(self).holds_allocator() == old(self).holds_allocator(),
            r is Err ==> {
                &&& final(self).spec_chunks() == old(self).spec_chunks()
                &&& final(self).spec_current() == old(self).spec_current()
                &&& final(self).spec_claimed() == old(self).spec_claimed()
            },
            r is Ok ==> {
                &&& final(self).spec_current() == old(self).spec_current()
                &&& old(self).appended(*final(self), layout)
            },
    {
        let n = self.chunks.len();
        let last = self.chunks[n - 1];
        proof {
            assert(chunk_ok(self.chunks@[n - 1], S::spec_up(), S::spec_min_align()));
        }
        let required = match ChunkSizeHint::for_capacity(layout) {
            Some(h) => h,
            None => return Err(AllocError),
        };
        let grown = match last.size().checked_mul(2) {
            Some(s) => ChunkSizeHint::new(s),
            None => return Err(AllocError),
        };
        let hint = required.max(grown);
        let size = match hint.calc_size() {
            Some(s) => s,
            None => return Err(AllocError),
        };
        proof {
            lemma_calc_size_at_least(hint.0 as int);
        }
        let c = Self::new_chunk(&mut self.allocator, size, &self.chunks)?;
        proof {
            crate::chunk_list::lemma_push_keeps_wf(self.chunks@, S::spec_up(), S::spec_min_align(), c);
        }
        let ghost old_chunks = self.chunks@;
        self.chunks.push(c);
        proof {
            assert(self.chunks@.subrange(0, n as int) =~= old_chunks);
        }
        Ok(())
    }
}

impl<A, S: BumpAllocatorSettings> RawBump<A, S> {
    /// The chunks after returning to `cp`: the checkpoint's chunk gets the
    /// checkpoint's position back; without a chunk in the checkpoint, the
    /// first chunk is reset.
    pub open spec fn reset_to_chunks(self, cp: Checkpoint) -> Seq<RawChunk> {
        match cp.spec_chunk() {
            Some(i) => self.spec_chunks().update(
                i as int,
                self.spec_chunks()[i as int].with_pos(cp.spec_address() as int),
            ),
            None => if self.has_chunk() {
                self.spec_chunks().update(0, self.spec_chunks()[0].with_pos(self.spec_chunks()[0].spec_empty_pos()))
            } else {
                self.spec_chunks()
            },
        }
    }

    /// The current chunk after returning to `cp`.
    pub open spec fn reset_to_current(self, cp: Checkpoint) -> int {
        match cp.spec_chunk() {
            Some(i) => i as int,
            None => 0,
        }
    }
}

impl<A: BaseAllocator, S: BumpAllocatorSettings> RawBump<A, S> {
    /// Returns to a checkpoint: the checkpoint's chunk becomes current again
    /// with the checkpoint's bump position. Everything allocated after the
    /// checkpoint is given up.
    pub fn reset_to(&mut self, checkpoint: Checkpoint)
        requires
            old(self).wf(),
            !old(self).spec_claimed(),
            old(self).valid_checkpoint(checkpoint),
        ensures
            final(self).wf(),
            final(self).spec_chunks() == old(self).reset_to_chunks(checkpoint),
            final(self).has_chunk() ==> final(self).spec_current() == old(self).reset_to_current(checkpoint),
            final(self).spec_claimed() == old(self).spec_claimed(),
            final(self).spec_allocator() == old(self).spec_allocator(),
    {
        let min_align = S::min_align();
        proof {
            crate::settings::lemma_supported_min_align(min_align);
        }
        match checkpoint.chunk {
            None => {
                if self.chunks.len() > 0 {
                    let mut c = self.chunks[0];
                    proof {
                        assert(chunk_ok(self.chunks@[0], S::spec_up(), S::spec_min_align()));
                    }
                    c.reset();
                    proof {
                        crate::raw_chunk::lemma_empty_pos_aligned(c, min_align);
                        crate::chunk_list::lemma_update_keeps_wf(self.chunks@, S::spec_up(), S::spec_min_align(), 0, c);
                    }
                    self.chunks.set(0, c);
                    self.current = 0;
                }
            },
            Some(i) => {
                let mut c = self.chunks[i];
                proof {
                    assert(chunk_ok(self.chunks@[i as int], S::spec_up(), S::spec_min_align()));
                }
                c.set_pos_addr(checkpoint.address);
                proof {
                    crate::chunk_list::lemma_update_keeps_wf(self.chunks@, S::spec_up(), S::spec_min_align(), i as int, c);
                }
                self.chunks.set(i, c);
                self.current = i;
            },
        }
    }

    /// Resets the allocator: all chunks but the last, which is the largest,
    /// are given back to the base allocator, and the last one becomes current
    /// with nothing allocated.
    pub fn reset(&mut self)
        requires
            old(self).wf(),
        ensures
            final(self).wf(),
            final(self).spec_claimed() == old(self).spec_claimed(),
            !old(self).has_chunk() ==> final(self).spec_chunks() == old(self).spec_chunks(),
            old(self).has_chunk() ==> {
                let last = old(self).spec_chunks().last();
                &&& final(self).spec_chunks() == seq![last.with_pos(last.spec_empty_pos())]
                &&& final(self).spec_current() == 0
                &&& forall|i: int| 0 <= i < old(self).spec_chunks().len() ==> (#[trigger] old(
                    self,
                ).spec_chunks()[i]).spec_size() <= final(self).spec_chunks()[0].spec_size()
            },
            final(self).allocated_bytes() == 0,
    {
        let n = self.chunks.len();
        if n == 0 {
            return;
        }
        let min_align = S::min_align();
        proof {
            crate::settings::lemma_supported_min_align(min_align);
        }
        let mut i: usize = 0;
        while i < n - 1
            invariant
                n == self.chunks@.len(),
                n > 0,
                i <= n - 1,
                self.wf(),
                self.chunks@ == old(self).spec_chunks(),
            decreases n - 1 - i,
        {
            let c = self.chunks[i];
            proof {
                assert(chunk_ok(self.chunks@[i as int], S::spec_up(), S::spec_min_align()));
            }
            let layout = c.layout();
            match &mut self.allocator {
                Some(a) => a.deallocate(c.chunk_start, layout),
                None => {},
            }
            i = i + 1;
        }
        let mut last = self.chunks[n - 1];
        proof {
            assert(chunk_ok(self.chunks@[n - 1], S::spec_up(), S::spec_min_align()));
        }
        last.reset();
        proof {
            crate::raw_chunk::lemma_empty_pos_aligned(last, min_align);
        }
        let mut chunks: Vec<RawChunk> = Vec::new();
        chunks.push(last);
        self.chunks = chunks;
        self.current = 0;
        proof {
            assert(self.chunks@[0] == last);
            assert(sum_size(self.chunks@, 0, 1) == last.spec_size()) by {
                assert(sum_size(self.chunks@, 0, 0) == 0);
            }
            crate::chunk_list::lemma_sums_bounded(old(self).spec_chunks(), S::spec_up(), S::spec_min_align(), n - 1, n as int);
            assert(sum_size(old(self).spec_chunks(), n - 1, n as int) == last.spec_size()) by {
                assert(sum_size(old(self).spec_chunks(), n - 1, n - 1) == 0);
            }
            assert(sum_capacity(self.chunks@, 0, 0) == 0);
        }
    }

    /// Gives all chunks back to the base allocator. The allocator has no
    /// chunk afterwards.
    pub fn deallocate_chunks(&mut self)
        requires
            old(self).wf(),
        ensures
            !final(self).has_chunk(),
            final(self).spec_claimed() == old(self).spec_claimed(),
    {
        let n = self.chunks.len();
        let mut i: usize = 0;
        while i < n
            invariant
                n == self.chunks@.len(),
                i <= n,
                self.wf(),
                self.claimed == old(self).claimed,
            decreases n - i,
        {
            let c = self.chunks[i];
            proof {
                assert(chunk_ok(self.chunks@[i as int], S::spec_up(), S::spec_min_align()));
            }
            let layout = c.layout();
            match &mut self.allocator {
                Some(a) => a.deallocate(c.chunk_start, layout),
                None => {},
            }
            i = i + 1;
        }
        self.chunks = Vec::new();
        self.current = 0;
    }
}

impl<A, S: BumpAllocatorSettings> RawBump<A, S> {
    /// Whether `layout` fits in chunk `c`: as an allocation, or (with
    /// `range`) as the start of an array that may use the rest of the chunk.
    pub open spec fn fits(c: RawChunk, layout: Layout, range: bool) -> bool {
        let size = layout.spec_size() as usize;
        let align = layout.spec_align() as usize;
        if range {
            let p = c.spec_bump_props(S::spec_min_align(), size, align);
            if c.up {
                crate::bumping::spec_bump_prepare_up(p) is Some
            } else {
                crate::bumping::spec_bump_prepare_down(p) is Some
            }
        } else {
            c.spec_alloc(S::spec_min_align(), size, align) is Some
        }
    }
}

impl<A, S: BumpAllocatorSettings> RawBump<A, S> {
    /// Whether `layout` fits in chunk `c` once its bump position is reset.
    pub open spec fn fits_reset(c: RawChunk, layout: Layout, range: bool) -> bool {
        Self::fits(c.with_pos(c.spec_empty_pos()), layout, range)
    }

    /// Whether `layout` fits, once reset, in some chunk after the current one.
    pub open spec fn later_fits(self, layout: Layout, range: bool) -> bool {
        exists|j: int|
            self.spec_current() < j < self.spec_chunks().len() && #[trigger] Self::fits_reset(
                self.spec_chunks()[j],
                layout,
                range,
            )
    }

    /// The chunks after moving on to chunk `j`: the chunks after the current
    /// one up to `j` are reset, the others stay as they are.
    pub open spec fn moved_chunks(self, j: int) -> Seq<RawChunk> {
        Seq::new(
            self.spec_chunks().len(),
            |k: int|
                if self.spec_current() < k <= j {
                    self.spec_chunks()[k].with_pos(self.spec_chunks()[k].spec_empty_pos())
                } else {
                    self.spec_chunks()[k]
                },
        )
    }

    /// `after` moved on to the first chunk after the current one in which
    /// `layout` fits once reset: that chunk and the ones passed on the way are
    /// reset, and it becomes current.
    pub open spec fn moved_to_later(self, after: Self, layout: Layout, range: bool) -> bool {
        let j = after.spec_current();
        &&& self.spec_current() < j < self.spec_chunks().len()
        &&& Self::fits_reset(self.spec_chunks()[j], layout, range)
        &&& forall|k: int| self.spec_current() < k < j ==> !#[trigger] Self::fits_reset(self.spec_chunks()[k], layout, range)
        &&& after.spec_chunks() == self.moved_chunks(j)
        &&& after.spec_claimed() == self.spec_claimed()
        &&& after.spec_allocator() == self.spec_allocator()
    }

    /// When the allocation succeeds although `layout` fits neither in the
    /// current chunk nor, once reset, in a later one, a new chunk was appended
    /// and the allocation made in it: the chunks after the old current one
    /// are reset, the new chunk is the last and the current one, holds the
    /// allocation exactly where [`RawChunk::spec_alloc`] puts it in an empty
    /// chunk, has room for the layout with its alignment and, when there were
    /// chunks, is with the assumed allocator overhead at least twice as large
    /// as the last of them.
    pub open spec fn alloc_new_chunk_path(self, after: Self, layout: Layout, r: Result<usize, AllocError>) -> bool {
        (!self.spec_claimed() && !(self.has_chunk() && Self::fits(self.current_chunk(), layout, false))
            && !self.later_fits(layout, false) && r is Ok) ==> {
            let n = self.spec_chunks().len();
            let c = after.spec_chunks()[n as int];
            let e = c.with_pos(c.spec_empty_pos());
            &&& after.spec_chunks().len() == n + 1
            &&& after.spec_current() == n
            &&& after.spec_chunks().subrange(0, n as int) == self.moved_chunks(n - 1)
            &&& e.spec_alloc(S::spec_min_align(), layout.spec_size() as usize, layout.spec_align() as usize)
                matches Some((p, np)) && r == Ok::<usize, AllocError>(p as usize) && c.pos == np
            &&& e.spec_capacity() >= layout.spec_size() + layout.spec_align() + MIN_CHUNK_ALIGN
            &&& n > 0 ==> c.spec_size() + crate::chunk_size::ASSUMED_MALLOC_OVERHEAD_SIZE >= 2
                * self.spec_chunks()[n - 1].spec_size()
        }
    }

    /// An allocation of `layout` succeeds without asking the base allocator:
    /// the allocator is not claimed and `layout` fits in its current chunk or,
    /// once reset, in a later one.
    pub open spec fn alloc_owed(self, layout: Layout) -> bool {
        &&& !self.spec_claimed()
        &&& self.has_chunk()
        &&& (Self::fits(self.current_chunk(), layout, false) || self.later_fits(layout, false))
    }

    /// When `layout` does not fit in the current chunk but fits, once reset,
    /// in a later one, the allocation moves on to the first such chunk and is
    /// made there, exactly where [`RawChunk::spec_alloc`] says.
    pub open spec fn alloc_later_path(self, after: Self, layout: Layout, r: Result<usize, AllocError>) -> bool {
        (!self.spec_claimed() && self.has_chunk() && self.later_fits(layout, false)) ==> {
            let j = after.spec_current();
            let c = self.spec_chunks()[j].with_pos(self.spec_chunks()[j].spec_empty_pos());
            &&& self.spec_current() < j < self.spec_chunks().len()
            &&& Self::fits_reset(self.spec_chunks()[j], layout, false)
            &&& forall|k: int|
                self.spec_current() < k < j ==> !#[trigger] Self::fits_reset(self.spec_chunks()[k], layout, false)
            &&& c.spec_alloc(S::spec_min_align(), layout.spec_size() as usize, layout.spec_align() as usize) matches Some(
                (p, np),
            ) && r == Ok::<usize, AllocError>(p as usize) && after.spec_chunks() == self.moved_chunks(j).update(
                j,
                c.with_pos(np),
            )
            &&& after.spec_claimed() == self.spec_claimed()
            &&& after.spec_allocator() == self.spec_allocator()
        }
    }
}

impl<A: BaseAllocator, S: BumpAllocatorSettings> RawBump<A, S> {
    /// Makes a chunk where `layout` fits current without allocating in it:
    /// the current chunk if it fits there, else the first later chunk it fits
    /// in after resetting it, else a newly appended chunk.
    pub fn move_to_chunk_for(&mut self, layout: Layout, range: bool) -> (r: Result<(), AllocError>)
        requires
            old(self).wf(),
            layout.wf(),
        ensures
            final(self).wf(),
            old(self).extended_by(*final(self)),
            old(self).spec_claimed() ==> r is Err && *final(self) == *old(self),
            r is Ok ==> final(self).has_chunk() && Self::fits(final(self).current_chunk(), layout, range),
            r is Ok && old(self).has_chunk() && Self::fits(old(self).current_chunk(), layout, range)
                ==> *final(self) == *old(self),
            !old(self).spec_claimed() && old(self).has_chunk() && Self::fits(old(self).current_chunk(), layout, range)
                ==> r is Ok,
            !old(self).spec_claimed() && old(self).has_chunk() && !Self::fits(old(self).current_chunk(), layout, range)
                && old(self).later_fits(layout, range) ==> r is Ok && old(self).moved_to_later(*final(self), layout, range),
    {
        if self.claimed {
            return Err(AllocError);
        }
        let min_align = S::min_align();
        proof {
            crate::settings::lemma_supported_min_align(min_align);
        }
        if self.chunks.len() == 0 {
            let size = match ChunkSize::from_capacity(layout) {
                Some(size) => size,
                None => return Err(AllocError),
            };
            proof {
                lemma_calc_size_at_least(
                    spec_capacity_hint(layout.spec_size() as int, layout.spec_align() as int),
                );
            }
            let c = Self::new_chunk(&mut self.allocator, size, &self.chunks)?;
            proof {
                crate::chunk_list::lemma_push_keeps_wf(self.chunks@, S::spec_up(), S::spec_min_align(), c);
                crate::raw_chunk::lemma_fresh_chunk_fits(c, min_align, layout.spec_size() as usize, layout.spec_align() as usize);
                crate::raw_chunk::lemma_fresh_chunk_fits_range(c, min_align, layout.spec_size() as usize, layout.spec_align() as usize);
            }
            self.chunks.push(c);
            self.current = 0;
            return Ok(());
        }
        if self.chunk_fits(layout, range) {
            return Ok(());
        }
        proof {
            assert(old(self).moved_chunks(old(self).spec_current()) =~= old(self).spec_chunks());
        }
        while self.current < self.chunks.len() - 1
            invariant
                self.wf(),
                !self.spec_claimed(),
                self.has_chunk(),
                old(self).spec_current() <= self.spec_current(),
                self.spec_chunks() == old(self).moved_chunks(self.spec_current()),
                self.spec_allocator() == old(self).spec_allocator(),
                forall|k: int|
                    old(self).spec_current() < k <= self.spec_current() ==> !#[trigger] Self::fits_reset(
                        old(self).spec_chunks()[k],
                        layout,
                        range,
                    ),
                old(self).wf(),
                old(self).has_chunk(),
                !Self::fits(old(self).current_chunk(), layout, range),
                old(self).extended_by(*self),
                min_align == S::spec_min_align(),
                is_pow2(min_align as int),
                layout.wf(),
            decreases self.spec_chunks().len() - self.spec_current(),
        {
            let i = self.current + 1;
            let mut c = self.chunks[i];
            proof {
                assert(chunk_ok(self.chunks@[i as int], S::spec_up(), S::spec_min_align()));
                assert(c == old(self).spec_chunks()[i as int]);
            }
            c.reset();
            proof {
                crate::raw_chunk::lemma_empty_pos_aligned(c, min_align);
                crate::chunk_list::lemma_update_keeps_wf(self.chunks@, S::spec_up(), S::spec_min_align(), i as int, c);
            }
            let ghost before = *self;
            self.chunks.set(i, c);
            self.current = i;
            proof {
                assert forall|j: int| 0 <= j < old(self).spec_chunks().len() implies
                    (#[trigger] old(self).spec_chunks()[j]).same_region(self.spec_chunks()[j]) by {
                    assert(old(self).spec_chunks()[j].same_region(before.spec_chunks()[j]));
                }
            }
            proof {
                assert(self.spec_chunks() =~= old(self).moved_chunks(i as int));
            }
            if self.chunk_fits(layout, range) {
                return Ok(());
            }
        }
        proof {
            if old(self).later_fits(layout, range) {
                let j = choose|j: int|
                    old(self).spec_current() < j < old(self).spec_chunks().len() && #[trigger] Self::fits_reset(
                        old(self).spec_chunks()[j],
                        layout,
                        range,
                    );
                assert(!Self::fits_reset(old(self).spec_chunks()[j], layout, range));
            }
        }
        let ghost before_append = *self;
        self.append_for(layout)?;
        proof {
            assert forall|j: int| 0 <= j < old(self).spec_chunks().len() implies
                (#[trigger] old(self).spec_chunks()[j]).same_region(self.spec_chunks()[j]) by {
                assert(old(self).spec_chunks()[j].same_region(before_append.spec_chunks()[j]));
                assert(before_append.spec_chunks()[j] == self.spec_chunks()[j]);
            }
            let c = self.current_chunk();
            assert(chunk_ok(c, S::spec_up(), S::spec_min_align()));
            crate::raw_chunk::lemma_fresh_chunk_fits(c, min_align, layout.spec_size() as usize, layout.spec_align() as usize);
            crate::raw_chunk::lemma_fresh_chunk_fits_range(c, min_align, layout.spec_size() as usize, layout.spec_align() as usize);
        }
        Ok(())
    }

    /// Whether `layout` fits in the current chunk.
    fn chunk_fits(&self, layout: Layout, range: bool) -> (r: bool)
        requires
            self.wf(),
            self.has_chunk(),
            layout.wf(),
        ensures
            r == Self::fits(self.current_chunk(), layout, range),
    {
        let min_align = S::min_align();
        let c = self.chunks[self.current];
        proof {
            crate::settings::lemma_supported_min_align(min_align);
            assert(chunk_ok(self.chunks@[self.current as int], S::spec_up(), S::spec_min_align()));
        }
        if range {
            c.prepare_allocation_range(min_align, layout).is_some()
        } else {
            c.prepare_allocation(min_align, layout).is_some()
        }
    }

    /// Finds where `layout` would be allocated, moving to a chunk where it
    /// fits but not moving that chunk's bump position.
    pub fn prepare_allocation(&mut self, layout: Layout) -> (r: Result<usize, AllocError>)
        requires
            old(self).wf(),
            layout.wf(),
        ensures
            final(self).wf(),
            old(self).extended_by(*final(self)),
            r matches Ok(ptr) ==> final(self).has_chunk() && (final(self).current_chunk().spec_alloc(
                S::spec_min_align(),
                layout.spec_size() as usize,
                layout.spec_align() as usize,
            ) matches Some((p, _)) && p == ptr),
            !old(self).spec_claimed() && old(self).has_chunk() && Self::fits(old(self).current_chunk(), layout, false)
                ==> r is Ok && *final(self) == *old(self),
            !old(self).spec_claimed() && old(self).has_chunk() && !Self::fits(old(self).current_chunk(), layout, false)
                && old(self).later_fits(layout, false) ==> r is Ok && old(self).moved_to_later(*final(self), layout, false),
    {
        self.move_to_chunk_for(layout, false)?;
        let min_align = S::min_align();
        let c = self.chunks[self.current];
        proof {
            crate::settings::lemma_supported_min_align(min_align);
            assert(chunk_ok(self.chunks@[self.current as int], S::spec_up(), S::spec_min_align()));
        }
        match c.prepare_allocation(min_align, layout) {
            Some(ptr) => Ok(ptr),
            None => Err(AllocError),
        }
    }

    /// The range an array of `T` with at least `min_cap` elements can use,
    /// as its start address and its capacity in elements; moves to a chunk
    /// where it fits but does not move that chunk's bump position. Bumping
    /// upwards the array starts at the range's start, bumping downwards it
    /// ends at the range's end.
    pub fn prepare_slice_allocation<T>(&mut self, min_cap: usize) -> (r: Result<(usize, usize), AllocError>)
        requires
            old(self).wf(),
            vstd::layout::size_of::<T>() > 0,
        ensures
            final(self).wf(),
            old(self).extended_by(*final(self)),
            r matches Ok((ptr, cap)) ==> {
                &&& cap >= min_cap
                &&& final(self).has_chunk()
                &&& final(self).current_chunk().spec_remaining_range().0 <= ptr
                &&& ptr + cap * vstd::layout::size_of::<T>() <= final(self).current_chunk().spec_remaining_range().1
                &&& (ptr as int) % (vstd::layout::align_of::<T>() as int) == 0
            },
            ({
                let l = Layout::spec_array::<T>(min_cap as int);
                &&& crate::layout::layout_ok(
                    (vstd::layout::size_of::<T>() * min_cap) as int,
                    vstd::layout::align_of::<T>() as int,
                ) && !old(self).spec_claimed() && old(self).has_chunk() && Self::fits(old(self).current_chunk(), l, true)
                    ==> r is Ok && *final(self) == *old(self)
                &&& crate::layout::layout_ok(
                    (vstd::layout::size_of::<T>() * min_cap) as int,
                    vstd::layout::align_of::<T>() as int,
                ) && !old(self).spec_claimed() && old(self).has_chunk() && !Self::fits(old(self).current_chunk(), l, true)
                    && old(self).later_fits(l, true) ==> r is Ok && old(self).moved_to_later(*final(self), l, true)
            }),
    {
        let layout = match ArrayLayout::array::<T>(min_cap) {
            Ok(l) => l,
            Err(_) => return Err(AllocError),
        };
        let layout = Layout::from_size_align(layout.size(), layout.align()).unwrap();
        proof {
            crate::layout::lemma_spec_array::<T>(min_cap as int);
            crate::layout::lemma_layout_ext(layout, Layout::spec_array::<T>(min_cap as int));
        }
        self.move_to_chunk_for(layout, true)?;
        let min_align = S::min_align();
        let c = self.chunks[self.current];
        proof {
            crate::settings::lemma_supported_min_align(min_align);
            assert(chunk_ok(self.chunks@[self.current as int], S::spec_up(), S::spec_min_align()));
        }
        let (start, end) = match c.prepare_allocation_range(min_align, layout) {
            Some(range) => range,
            None => return Err(AllocError),
        };
        let elem = core::mem::size_of::<T>();
        let cap = (end - start) / elem;
        proof {
            broadcast use vstd::layout::align_properties;
            crate::raw_bump::lemma_prepared_range(c, min_align, layout, start as int, end as int, elem as int, min_cap as int);
        }
        if c.up {
            Ok((start, cap))
        } else {
            Ok((end - cap * elem, cap))
        }
    }
}

impl<A: BaseAllocator, S: BumpAllocatorSettings> RawBump<A, S> {
    /// Makes sure at least `additional` more bytes can be allocated without
    /// asking the base allocator: counts what remains in the current chunk
    /// and in the chunks after it, and appends a chunk when that is not
    /// enough. The current chunk does not change.
    pub fn reserve_bytes(&mut self, additional: usize) -> (r: Result<(), AllocError>)
        requires
            old(self).wf(),
        ensures
            final(self).wf(),
            old(self).extended_by(*final(self)),
            old(self).has_chunk() ==> final(self).spec_current() == old(self).spec_current(),
            old(self).spec_claimed() ==> r is Err && *final(self) == *old(self),
            r is Ok ==> final(self).has_chunk() && final(self).remaining_bytes() >= additional,
            !old(self).spec_claimed() && old(self).has_chunk() && crate::layout::layout_ok(additional as int, 1)
                && additional < crate::chunk_list::sum_remaining(
                old(self).spec_chunks(),
                old(self).spec_current(),
                old(self).spec_chunks().len() as int,
            ) ==> r is Ok && *final(self) == *old(self),
    {
        if self.claimed {
            return Err(AllocError);
        }
        let layout = match Layout::from_size_align(additional, 1) {
            Ok(l) => l,
            Err(_) => return Err(AllocError),
        };
        let min_align = S::min_align();
        proof {
            crate::settings::lemma_supported_min_align(min_align);
        }
        if self.chunks.len() == 0 {
            let size = match ChunkSize::from_capacity(layout) {
                Some(size) => size,
                None => return Err(AllocError),
            };
            proof {
                lemma_calc_size_at_least(spec_capacity_hint(additional as int, 1));
            }
            let c = Self::new_chunk(&mut self.allocator, size, &self.chunks)?;
            proof {
                crate::chunk_list::lemma_push_keeps_wf(self.chunks@, S::spec_up(), S::spec_min_align(), c);
            }
            self.chunks.push(c);
            self.current = 0;
            proof {
                assert(self.chunks@[0] == c);
                assert(sum_capacity(self.chunks@, 1, 1) == 0);
            }
            return Ok(());
        }
        let ghost cs = self.chunks@;
        let ghost cur = self.current as int;
        let mut needed = additional;
        let mut i = self.current;
        loop
            invariant_except_break
                i == cur ==> needed == additional,
                i > cur ==> additional - needed <= cs[cur].spec_remaining() + sum_capacity(cs, cur + 1, i as int),
                needed + crate::chunk_list::sum_remaining(cs, cur, i as int) == additional,
            invariant
                self.wf(),
                *self == *old(self),
                cs == self.chunks@,
                cur == self.current,
                self.has_chunk(),
                cur <= i < cs.len(),
                needed <= additional,
            ensures
                additional >= crate::chunk_list::sum_remaining(cs, cur, cs.len() as int),
            decreases cs.len() - i,
        {
            let c = self.chunks[i];
            proof {
                assert(chunk_ok(cs[i as int], S::spec_up(), S::spec_min_align()));
            }
            let rem = c.remaining();
            if needed >= rem {
                needed = needed - rem;
            } else {
                proof {
                    crate::chunk_list::lemma_sums_bounded(cs, S::spec_up(), S::spec_min_align(), cur + 1, cs.len() as int);
                    if i as int > cur {
                        crate::chunk_list::lemma_sum_split(cs, cur + 1, i as int, cs.len() as int);
                        crate::chunk_list::lemma_sum_split(cs, i as int, i as int + 1, cs.len() as int);
                        crate::chunk_list::lemma_sums_bounded(cs, S::spec_up(), S::spec_min_align(), i as int + 1, cs.len() as int);
                        assert(sum_capacity(cs, i as int, i as int + 1) == cs[i as int].spec_capacity()) by {
                            assert(sum_capacity(cs, i as int, i as int) == 0);
                        }
                    }
                }
                return Ok(());
            }
            proof {
                if i as int > cur {
                    assert(sum_capacity(cs, cur + 1, i as int + 1) == sum_capacity(cs, cur + 1, i as int) + cs[i as int].spec_capacity());
                } else {
                    assert(sum_capacity(cs, cur + 1, cur + 1) == 0);
                }
            }
            if i < self.chunks.len() - 1 {
                i = i + 1;
            } else {
                break;
            }
        }
        proof {
            lemma_calc_size_at_least(spec_capacity_hint(additional as int, 1));
        }
        let ghost before = *self;
        self.append_chunk_for(layout)?;
        proof {
            let ns = self.chunks@;
            let n = cs.len() as int;
            assert(ns.subrange(0, n) == cs);
            assert forall|j: int| cur + 1 <= j < n implies #[trigger] ns[j] == cs[j] by {
                assert(ns.subrange(0, n)[j] == ns[j]);
            }
            assert forall|j: int| cur + 1 <= j < n implies (#[trigger] ns[j]).same_region(cs[j]) by {}
            crate::chunk_list::lemma_sum_same_regions(ns, cs, cur + 1, n);
            assert(ns[cur] == cs[cur]) by {
                assert(ns.subrange(0, n)[cur] == ns[cur]);
            }
            crate::chunk_list::lemma_sums_bounded(ns, S::spec_up(), S::spec_min_align(), cur + 1, n + 1);
            crate::chunk_list::lemma_sums_bounded(ns, S::spec_up(), S::spec_min_align(), cur + 1, n);
            assert(sum_capacity(ns, cur + 1, n + 1) == sum_capacity(ns, cur + 1, n) + ns[n].spec_capacity());
            assert forall|j: int| 0 <= j < cs.len() implies (#[trigger] cs[j]).same_region(ns[j]) by {
                assert(ns.subrange(0, n)[j] == ns[j]);
            }
            assert forall|j: int| 0 <= j < cur && j < cs.len() implies #[trigger] ns[j] == cs[j] by {
                assert(ns.subrange(0, n)[j] == ns[j]);
            }
        }
        Ok(())
    }

    /// Makes sure a chunk is allocated, allocating one of the minimum chunk
    /// size when there is none.
    pub fn make_allocated(&mut self) -> (r: Result<(), AllocError>)
        requires
            old(self).wf(),
        ensures
            final(self).wf(),
            old(self).extended_by(*final(self)),
            old(self).has_chunk() ==> *final(self) == *old(self) && r is Ok,
            old(self).spec_claimed() ==> r is Err && *final(self) == *old(self),
            r is Ok ==> final(self).has_chunk(),
    {
        if self.claimed {
            return Err(AllocError);
        }
        if self.chunks.len() > 0 {
            return Ok(());
        }
        let size = match ChunkSize::from_hint(S::minimum_chunk_size()) {
            Some(size) => size,
            None => return Err(AllocError),
        };
        let c = Self::new_chunk(&mut self.allocator, size, &self.chunks)?;
        proof {
            crate::chunk_list::lemma_push_keeps_wf(self.chunks@, S::spec_up(), S::spec_min_align(), c);
        }
        self.chunks.push(c);
        self.current = 0;
        Ok(())
    }

    /// Allocates a `T`.
    pub fn alloc_sized<T>(&mut self) -> (r: Result<usize, AllocError>)
        requires
            old(self).wf(),
        ensures
            old(self).alloc_post(*final(self), Layout::spec_new::<T>(), r),
            old(self).alloc_fast_path(*final(self), Layout::spec_new::<T>(), r),
            !(old(self).has_chunk() && Self::fits(old(self).current_chunk(), Layout::spec_new::<T>(), false))
                ==> old(self).alloc_later_path(*final(self), Layout::spec_new::<T>(), r),
    {
        let layout = Layout::new::<T>();
        self.allocate(layout)
    }

    /// Allocates an array of `len` `T`s; fails when its size overflows.
    pub fn alloc_slice<T>(&mut self, len: usize) -> (r: Result<usize, AllocError>)
        requires
            old(self).wf(),
        ensures
            crate::layout::layout_ok((vstd::layout::size_of::<T>() * len) as int, vstd::layout::align_of::<T>() as int) ==>
                old(self).alloc_post(*final(self), Layout::spec_array::<T>(len as int), r)
                && old(self).alloc_fast_path(*final(self), Layout::spec_array::<T>(len as int), r)
                && (!(old(self).has_chunk() && Self::fits(old(self).current_chunk(), Layout::spec_array::<T>(len as int), false))
                ==> old(self).alloc_later_path(*final(self), Layout::spec_array::<T>(len as int), r)),
            !crate::layout::layout_ok((vstd::layout::size_of::<T>() * len) as int, vstd::layout::align_of::<T>() as int) ==>
                r is Err && *final(self) == *old(self),
    {
        let layout = match Layout::array::<T>(len) {
            Ok(l) => l,
            Err(_) => return Err(AllocError),
        };
        self.allocate(layout)
    }

    /// Allocates an array with room for the elements of `value`.
    pub fn alloc_slice_for<T>(&mut self, value: &[T]) -> (r: Result<usize, AllocError>)
        requires
            old(self).wf(),
        ensures
            crate::layout::layout_ok((vstd::layout::size_of::<T>() * value@.len()) as int, vstd::layout::align_of::<T>() as int) ==>
                old(self).alloc_post(*final(self), Layout::spec_array::<T>(value@.len() as int), r)
                && old(self).alloc_fast_path(*final(self), Layout::spec_array::<T>(value@.len() as int), r)
                && (!(old(self).has_chunk() && Self::fits(old(self).current_chunk(), Layout::spec_array::<T>(value@.len() as int), false))
                ==> old(self).alloc_later_path(*final(self), Layout::spec_array::<T>(value@.len() as int), r)),
            !crate::layout::layout_ok((vstd::layout::size_of::<T>() * value@.len()) as int, vstd::layout::align_of::<T>() as int) ==>
                r is Err && *final(self) == *old(self),
    {
        self.alloc_slice::<T>(value.len())
    }

    /// Prepares the allocation of a `T` without moving the bump position.
    pub fn prepare_sized_allocation<T>(&mut self) -> (r: Result<usize, AllocError>)
        requires
            old(self).wf(),
        ensures
            final(self).wf(),
            old(self).extended_by(*final(self)),
            r matches Ok(ptr) ==> final(self).has_chunk() && (final(self).current_chunk().spec_alloc(
                S::spec_min_align(),
                vstd::layout::size_of::<T>() as usize,
                vstd::layout::align_of::<T>() as usize,
            ) matches Some((p, _)) && p == ptr),
            !old(self).spec_claimed() && old(self).has_chunk() && Self::fits(
                old(self).current_chunk(),
                Layout::spec_new::<T>(),
                false,
            ) ==> r is Ok && *final(self) == *old(self),
            !old(self).spec_claimed() && old(self).has_chunk() && !Self::fits(
                old(self).current_chunk(),
                Layout::spec_new::<T>(),
                false,
            ) && old(self).later_fits(Layout::spec_new::<T>(), false) ==> r is Ok && old(self).moved_to_later(
                *final(self),
                Layout::spec_new::<T>(),
                false,
            ),
    {
        let layout = Layout::new::<T>();
        self.prepare_allocation(layout)
    }

    /// Moves the bump position of the current chunk to the next multiple of
    /// `alignment` in the bump direction, when `alignment` exceeds the
    /// minimum alignment.
    pub fn align_to(&mut self, alignment: usize)
        requires
            old(self).wf(),
            supported_min_align(alignment),
        ensures
            final(self).wf(),
            final(self).spec_claimed() == old(self).spec_claimed(),
            final(self).spec_current() == old(self).spec_current(),
            final(self).spec_allocator() == old(self).spec_allocator(),
            alignment <= S::spec_min_align() || !old(self).has_chunk() ==> final(self).spec_chunks() == old(self).spec_chunks(),
            alignment > S::spec_min_align() && old(self).has_chunk() ==> final(self).spec_chunks()
                == old(self).spec_chunks().update(
                old(self).spec_current(),
                old(self).current_chunk().with_pos(
                    crate::spec_align_pos(S::spec_up(), alignment as int, old(self).current_chunk().pos as int),
                ),
            ),
            old(self).has_chunk() ==> {
                &&& (final(self).current_chunk().pos as int) % (alignment as int) == 0
                &&& old(self).current_chunk().spec_allocated() <= final(self).current_chunk().spec_allocated()
                &&& final(self).current_chunk().spec_allocated() < old(self).current_chunk().spec_allocated() + alignment
            },
    {
        let min_align = S::min_align();
        if alignment <= min_align || self.chunks.len() == 0 {
            proof {
                if self.chunks.len() > 0 {
                    crate::settings::lemma_supported_min_align(min_align);
                    crate::settings::lemma_supported_min_align(alignment);
                    assert(chunk_ok(self.chunks@[self.current as int], S::spec_up(), S::spec_min_align()));
                    crate::align::lemma_aligned_to_smaller_pow2(
                        self.current_chunk().pos as int,
                        min_align as int,
                        alignment as int,
                    );
                }
            }
            return;
        }
        let i = self.current;
        let mut c = self.chunks[i];
        proof {
            crate::settings::lemma_supported_min_align(min_align);
            crate::settings::lemma_supported_min_align(alignment);
            assert(chunk_ok(self.chunks@[i as int], S::spec_up(), S::spec_min_align()));
            crate::raw_chunk::lemma_pow2_16();
            crate::align::lemma_aligned_to_smaller_pow2(c.spec_content_start(), 16, alignment as int);
            crate::align::lemma_aligned_to_smaller_pow2(c.spec_content_end(), 16, alignment as int);
            crate::align::lemma_round_up(c.pos as int, alignment as int);
            crate::align::lemma_round_down(c.pos as int, alignment as int);
            crate::raw_chunk::lemma_round_up_bounded(c.pos as int, alignment as int, c.spec_content_end());
            crate::raw_chunk::lemma_round_down_bounded(c.pos as int, alignment as int, c.spec_content_start());
        }
        let addr = crate::align_pos(c.up, alignment, c.pos);
        c.set_pos_addr(addr);
        proof {
            crate::align::lemma_aligned_to_smaller_pow2(addr as int, alignment as int, min_align as int);
            crate::chunk_list::lemma_update_keeps_wf(self.chunks@, S::spec_up(), S::spec_min_align(), i as int, c);
        }
        self.chunks.set(i, c);
    }
}

impl<A: BaseAllocator, S: BumpAllocatorSettings> RawBump<A, S> {
    /// Claims the allocator: the returned allocator takes over the chunks
    /// and the base allocator, and this one refuses to allocate and reports
    /// no chunk until it is reclaimed.
    pub fn claim(&mut self) -> (r: RawBump<A, S>)
        requires
            old(self).wf(),
            !old(self).spec_claimed(),
            S::spec_claimable(),
        ensures
            final(self).wf(),
            final(self).spec_claimed(),
            !final(self).has_chunk(),
            r.wf(),
            !r.spec_claimed(),
            r.spec_chunks() == old(self).spec_chunks(),
            r.spec_current() == old(self).spec_current(),
            r.spec_allocator() == old(self).spec_allocator(),
    {
        let mut chunks: Vec<RawChunk> = Vec::new();
        core::mem::swap(&mut chunks, &mut self.chunks);
        let current = self.current;
        self.current = 0;
        self.claimed = true;
        let allocator = self.allocator.take();
        RawBump { chunks, current, claimed: false, allocator, marker: PhantomData }
    }

    /// Takes the chunks and the base allocator back from the allocator that
    /// claimed this one.
    pub fn reclaim(&mut self, claimant: RawBump<A, S>)
        requires
            old(self).wf(),
            old(self).spec_claimed(),
            claimant.wf(),
            !claimant.spec_claimed(),
        ensures
            final(self).wf(),
            !final(self).spec_claimed(),
            final(self).spec_chunks() == claimant.spec_chunks(),
            final(self).spec_current() == claimant.spec_current(),
            final(self).spec_allocator() == claimant.spec_allocator(),
    {
        self.chunks = claimant.chunks;
        self.current = claimant.current;
        self.allocator = claimant.allocator;
        self.claimed = false;
    }
}

/// What the range of a prepared array allocation gives: room for at least
/// the requested elements, starting (upwards) or ending (downwards) aligned.
proof fn lemma_prepared_range(c: RawChunk, min_align: usize, layout: Layout, start: int, end: int, elem: int, min_cap: int)
    requires
        elem > 0,
        0 <= start <= end,
        layout.wf(),
        ({
            let p = c.spec_bump_props(min_align, layout.spec_size() as usize, layout.spec_align() as usize);
            let s = if c.up { crate::bumping::spec_bump_prepare_up(p) } else { crate::bumping::spec_bump_prepare_down(p) };
            s == Some((start, end))
        }),
        layout.spec_size() == elem * min_cap,
        0 <= min_cap,
        elem % (layout.spec_align() as int) == 0,
    ensures
        (end - start) / elem >= min_cap,
        (end - start) / elem * elem <= end - start,
        c.up ==> start % (layout.spec_align() as int) == 0,
        !c.up ==> (end - (end - start) / elem * elem) % (layout.spec_align() as int) == 0,
{
    let a = layout.spec_align() as int;
    reveal(is_pow2);
    let p = c.spec_bump_props(min_align, layout.spec_size() as usize, layout.spec_align() as usize);
    crate::align::lemma_round_up(p.start as int, a);
    crate::align::lemma_round_down(p.end as int, a);
    let q = (end - start) / elem;
    assert(q >= 0) by {
        vstd::arithmetic::div_mod::lemma_div_pos_is_pos(end - start, elem);
    }
    if !c.up {
        vstd::arithmetic::div_mod::lemma_fundamental_div_mod(elem, a);
        let k = elem / a;
        vstd::arithmetic::div_mod::lemma_fundamental_div_mod(end, a);
        let m = end / a;
        assert(end - q * elem == (m - q * k) * a) by (nonlinear_arith)
            requires
                elem == a * k,
                end == a * m,
        ;
        vstd::arithmetic::div_mod::lemma_mod_multiples_basic(m - q * k, a);
    }
    vstd::arithmetic::div_mod::lemma_fundamental_div_mod(end - start, elem);
    assert((end - start) / elem >= min_cap) by (nonlinear_arith)
        requires
            end - start >= elem * min_cap,
            end - start == elem * ((end - start) / elem) + (end - start) % elem,
            0 <= (end - start) % elem < elem,
            elem > 0,
    ;
    assert((end - start) / elem * elem <= end - start) by (nonlinear_arith)
        requires
            end - start == elem * ((end - start) / elem) + (end - start) % elem,
            0 <= (end - start) % elem,
    ;
}

/// Returning to a checkpoint gives back what was allocated when it was
/// taken: for a checkpoint `cp` of `b1`, and any `b2` that allocation grew
/// out of `b1`, returning `b2` to `cp` yields the chunk and bump position of
/// `b1`, the same chunks before it, and the same allocated byte count.
pub proof fn lemma_reset_to_checkpoint<A, S: BumpAllocatorSettings>(
    b1: RawBump<A, S>,
    cp: Checkpoint,
    b2: RawBump<A, S>,
)
    requires
        b1.wf(),
        !b1.spec_claimed(),
        b1.checkpoint_of(cp),
        b2.wf(),
        b1.extended_by(b2),
    ensures
        b2.valid_checkpoint(cp),
        b1.has_chunk() ==> {
            let cs = b2.reset_to_chunks(cp);
            let cur = b2.reset_to_current(cp);
            &&& cur == b1.spec_current()
            &&& cs[cur] == b1.current_chunk()
            &&& forall|i: int| 0 <= i < cur ==> #[trigger] cs[i] == b1.spec_chunks()[i]
            &&& spec_allocated(cs, cur) == b1.allocated_bytes()
        },
        !b1.has_chunk() && b2.has_chunk() ==> spec_allocated(b2.reset_to_chunks(cp), 0) == 0,
{
    if b1.has_chunk() {
        let i = b1.spec_current();
        let cs = b2.reset_to_chunks(cp);
        assert(b1.spec_chunks()[i].same_region(b2.spec_chunks()[i]));
        assert(chunk_ok(b1.spec_chunks()[i], S::spec_up(), S::spec_min_align()));
        assert(cs[i] == b1.current_chunk());
        assert forall|j: int| 0 <= j < i implies #[trigger] cs[j] == b1.spec_chunks()[j] by {}
        assert forall|j: int| 0 <= j < i implies (#[trigger] cs[j]).same_region(b1.spec_chunks()[j]) by {}
        crate::chunk_list::lemma_sum_same_regions(cs, b1.spec_chunks(), 0, i);
    } else {
        if b2.has_chunk() {
            let cs = b2.reset_to_chunks(cp);
            assert(sum_capacity(cs, 0, 0) == 0);
            assert(chunk_ok(b2.spec_chunks()[0], S::spec_up(), S::spec_min_align()));
        }
    }
}

/// Chunks grow: each chunk is larger than the ones before it, so the last
/// chunk is the largest.
pub proof fn lemma_last_chunk_is_largest<A, S: BumpAllocatorSettings>(b: RawBump<A, S>)
    requires
        b.wf(),
        b.has_chunk(),
    ensures
        forall|i: int| 0 <= i < b.spec_chunks().len() - 1 ==> (#[trigger] b.spec_chunks()[i]).spec_size()
            < b.spec_chunks().last().spec_size(),
{
    assert forall|i: int| 0 <= i < b.spec_chunks().len() - 1 implies (#[trigger] b.spec_chunks()[i]).spec_size()
        < b.spec_chunks().last().spec_size() by {
        assert(b.spec_chunks()[i].spec_size() < b.spec_chunks()[b.spec_chunks().len() - 1].spec_size());
    }
}

/// An allocator grew out of itself.
pub proof fn lemma_extended_by_refl<A, S: BumpAllocatorSettings>(b: RawBump<A, S>)
    ensures
        b.extended_by(b),
{
}

/// Growing by allocation is transitive.
pub proof fn lemma_extended_by_transitive<A, S: BumpAllocatorSettings>(
    b1: RawBump<A, S>,
    b2: RawBump<A, S>,
    b3: RawBump<A, S>,
)
    requires
        b1.wf(),
        b2.wf(),
        b1.extended_by(b2),
        b2.extended_by(b3),
    ensures
        b1.extended_by(b3),
{
    assert forall|i: int| 0 <= i < b1.spec_chunks().len() implies
        (#[trigger] b1.spec_chunks()[i]).same_region(b3.spec_chunks()[i]) by {
        assert(b1.spec_chunks()[i].same_region(b2.spec_chunks()[i]));
        assert(b2.spec_chunks()[i].same_region(b3.spec_chunks()[i]));
    }
    assert forall|i: int| 0 <= i < b1.spec_current() && i < b1.spec_chunks().len() implies
        #[trigger] b3.spec_chunks()[i] == b1.spec_chunks()[i] by {
        assert(b2.spec_chunks()[i] == b1.spec_chunks()[i]);
        assert(b3.spec_chunks()[i] == b2.spec_chunks()[i]);
    }
}

impl<A, S: BumpAllocatorSettings> RawBump<A, S> {
    /// The result of an allocation in the current chunk that did not move.
    proof fn lemma_alloc_result(self, old_self: Self, i: int, ptr: int, layout: Layout)
        requires
            old_self.wf(),
            !old_self.spec_claimed(),
            old_self.has_chunk(),
            i == old_self.spec_current(),
            self.spec_current() == i,
            self.spec_claimed() == old_self.spec_claimed(),
            self.spec_allocator() == old_self.spec_allocator(),
            self.holds_allocator() == old_self.holds_allocator(),
            self.spec_chunks() == old_self.spec_chunks().update(i, self.spec_chunks()[i]),
            chunks_wf(self.spec_chunks(), S::spec_up(), S::spec_min_align()),
            old_self.current_chunk().allocation_fits(self.spec_chunks()[i], ptr, layout),
            old_self.current_chunk().spec_alloc(S::spec_min_align(), layout.spec_size() as usize, layout.spec_align() as usize) matches Some((p, np))
                && p == ptr && self.spec_chunks()[i] == old_self.current_chunk().with_pos(np),
        ensures
            old_self.alloc_post(self, layout, Ok(ptr as usize)),
            old_self.alloc_fast_path(self, layout, Ok(ptr as usize)),
    {
        let cs = old_self.spec_chunks();
        assert(chunk_ok(cs[i], S::spec_up(), S::spec_min_align()));
        assert forall|x: int| ptr <= x < ptr + layout.spec_size() implies !old_self.is_live(x) by {
            crate::chunk_list::lemma_alloc_not_live(cs, i, i, ptr, layout.spec_size() as int, S::spec_up(), S::spec_min_align(), x);
        }
        assert forall|x: int| #[trigger] old_self.is_live(x) implies self.is_live(x) by {
            crate::chunk_list::lemma_live_preserved(cs, i, self.spec_chunks(), i, S::spec_up(), S::spec_min_align(), x);
        }
    }

    /// The result of an allocation in a chunk after the original current one.
    proof fn lemma_later_chunk_result(self, start: Self, ptr: int, layout: Layout)
        requires
            start.wf(),
            !start.spec_claimed(),
            self.wf(),
            self.has_chunk(),
            !self.spec_claimed(),
            start.extended_by(self),
            start.has_chunk() ==> self.spec_current() > start.spec_current()
                && self.spec_chunks()[start.spec_current()] == start.current_chunk(),
            ptr % (layout.spec_align() as int) == 0,
            self.current_chunk().spec_allocated_range().0 <= ptr,
            ptr + layout.spec_size() <= self.current_chunk().spec_allocated_range().1,
        ensures
            start.alloc_post(self, layout, Ok(ptr as usize)),
    {
        let cs = self.spec_chunks();
        let k = self.spec_current();
        assert(chunk_ok(cs[k], S::spec_up(), S::spec_min_align()));
        if start.has_chunk() {
            let cur = start.spec_current();
            assert forall|x: int| ptr <= x < ptr + layout.spec_size() implies !start.is_live(x) by {
                crate::chunk_list::lemma_alloc_not_live(cs, cur, k, ptr, layout.spec_size() as int, S::spec_up(), S::spec_min_align(), x);
                assert forall|j: int| 0 <= j < cur implies #[trigger] cs[j] == start.spec_chunks()[j] by {}
                if live_contains(start.spec_chunks(), cur, x) {
                    if exists|j: int|
                        0 <= j < cur && #[trigger] start.spec_chunks()[j].spec_content_start() <= x
                            < start.spec_chunks()[j].spec_content_end() {
                        let j = choose|j: int|
                            0 <= j < cur && #[trigger] start.spec_chunks()[j].spec_content_start() <= x
                                < start.spec_chunks()[j].spec_content_end();
                        assert(cs[j].spec_content_start() <= x < cs[j].spec_content_end());
                    }
                }
            }
            assert forall|x: int| #[trigger] start.is_live(x) implies self.is_live(x) by {
                crate::chunk_list::lemma_live_preserved(start.spec_chunks(), cur, cs, k, S::spec_up(), S::spec_min_align(), x);
            }
        }
    }
}

/// The chunk size computed from a hint, plus the malloc overhead, is at
/// least the hint.
pub proof fn lemma_calc_size_at_least(hint: int)
    ensures
        spec_calc_size(hint) matches Some(s) ==> s + crate::chunk_size::ASSUMED_MALLOC_OVERHEAD_SIZE
            >= hint,
{
    let h = if hint < crate::chunk_size::MIN_CHUNK_SIZE_HINT {
        crate::chunk_size::MIN_CHUNK_SIZE_HINT as int
    } else {
        hint
    };
    lemma_pow2_at_least(h, 1);
    crate::align::lemma_round_up(h, crate::chunk_size::ASSUMED_PAGE_SIZE as int);
}

/// Searching upwards from a positive start finds a value at least `n`.
pub proof fn lemma_pow2_at_least(n: int, p: int)
    requires
        p > 0,
    ensures
        crate::chunk_size::pow2_at_least(n, p) >= n,
        crate::chunk_size::pow2_at_least(n, p) >= p,
    decreases (if n > p { n - p } else { 0 }),
{
    if p < n {
        lemma_pow2_at_least(n, 2 * p);
    }
}

/// A block starting at a multiple of 16 with a length that is a multiple of
/// 16 and at least 48 has content bounds aligned to 16, and so to every
/// supported minimum alignment.
proof fn lemma_chunk_bounds_aligned(addr: int, size: int, min_align: int)
    requires
        addr % 16 == 0,
        size % 16 == 0,
        supported_min_align(min_align as usize),
        min_align == min_align as usize,
    ensures
        (addr + CHUNK_HEADER_SIZE) % 16 == 0,
        (addr + size) % 16 == 0,
        (addr + size - CHUNK_HEADER_SIZE) % 16 == 0,
        (addr + CHUNK_HEADER_SIZE) % min_align == 0,
        (addr + size - CHUNK_HEADER_SIZE) % min_align == 0,
{
    lemma_fundamental_div_mod(addr, 16);
    lemma_fundamental_div_mod(size, 16);
    let k = addr / 16;
    let m = size / 16;
    assert(addr + CHUNK_HEADER_SIZE == (k + 2) * 16);
    assert(addr + size == (k + m) * 16);
    assert(addr + size - CHUNK_HEADER_SIZE == (k + m - 2) * 16);
    lemma_mod_multiples_basic(k + 2, 16);
    lemma_mod_multiples_basic(k + m, 16);
    lemma_mod_multiples_basic(k + m - 2, 16);
    assert(16int % min_align == 0);
    crate::align::lemma_mod_transitive(addr + CHUNK_HEADER_SIZE, 16, min_align);
    crate::align::lemma_mod_transitive(addr + size - CHUNK_HEADER_SIZE, 16, min_align);
}

} // verus!
