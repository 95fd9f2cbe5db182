//! Inspecting the memory use of a bump allocator.
//!
//! [`Stats`] looks at the chunks of a bump allocator through a shared
//! borrow, starting from its current chunk; [`Chunk`] is one of those chunks.
//! The `Any*` types in [`any`] are the same views without ties to a
//! particular allocator type; `from` turns the ones into the others.
use vstd::prelude::*;

pub mod any;

verus! {


use crate::chunk_list::{lemma_sum_split, sizes_increase, spec_allocated, spec_remaining, sum_capacity, sum_size};
use crate::raw_chunk::RawChunk;

/// The invariant of a chunk sequence as the statistics need it: every chunk
/// is well formed, each is larger than the ones before it, and the sizes add
/// up to at most `usize::MAX`.
pub open spec fn stats_chunks_wf(cs: Seq<RawChunk>) -> bool {
    &&& forall|i: int| 0 <= i < cs.len() ==> (#[trigger] cs[i]).wf()
    &&& sizes_increase(cs)
    &&& sum_size(cs, 0, cs.len() as int) <= usize::MAX
}

/// The well-formed sequences of a bump allocator satisfy the statistics'
/// invariant.
pub proof fn lemma_stats_chunks_wf(cs: Seq<RawChunk>, up: bool, min_align: usize)
    requires
        crate::chunk_list::chunks_wf(cs, up, min_align),
    ensures
        stats_chunks_wf(cs),
{
    assert forall|i: int| 0 <= i < cs.len() implies (#[trigger] cs[i]).wf() by {
        assert(crate::chunk_list::chunk_ok(cs[i], up, min_align));
    }
}

/// Every partial sum of a sequence satisfying the statistics' invariant fits
/// in a `usize`.
pub proof fn lemma_stats_sums(cs: Seq<RawChunk>, lo: int, hi: int)
    requires
        stats_chunks_wf(cs),
        0 <= lo <= hi <= cs.len(),
    ensures
        0 <= sum_capacity(cs, lo, hi) <= sum_size(cs, lo, hi) <= usize::MAX,
{
    crate::chunk_list::lemma_sum_nonneg(cs, lo, hi);
    crate::chunk_list::lemma_sum_nonneg(cs, 0, lo);
    crate::chunk_list::lemma_sum_nonneg(cs, hi, cs.len() as int);
    lemma_sum_split(cs, 0, lo, hi);
    lemma_sum_split(cs, 0, hi, cs.len() as int);
}

/// A sum over `lo..hi` is the first element plus the sum over the rest.
pub proof fn lemma_sum_prepend(cs: Seq<RawChunk>, lo: int, hi: int)
    requires
        0 <= lo < hi,
    ensures
        sum_size(cs, lo, hi) == cs[lo].spec_size() + sum_size(cs, lo + 1, hi),
        sum_capacity(cs, lo, hi) == cs[lo].spec_capacity() + sum_capacity(cs, lo + 1, hi),
{
    lemma_sum_split(cs, lo, lo + 1, hi);
    assert(sum_size(cs, lo, lo) == 0);
    assert(sum_capacity(cs, lo, lo) == 0);
}

/// The allocated and the remaining bytes add up to the capacity of all
/// chunks: every byte of content is either allocated or remaining.
pub proof fn lemma_allocated_plus_remaining(cs: Seq<RawChunk>, cur: int)
    requires
        stats_chunks_wf(cs),
        0 <= cur < cs.len(),
    ensures
        spec_allocated(cs, cur) + spec_remaining(cs, cur) == sum_capacity(cs, 0, cs.len() as int),
{
    assert(cs[cur].wf());
    lemma_sum_split(cs, 0, cur, cs.len() as int);
    lemma_sum_prepend(cs, cur, cs.len() as int);
}

/// Of a well-formed chunk: the allocated and the remaining bytes add up to
/// the capacity, the capacity is at most the size, the bump position lies
/// within the content, and the content within the chunk.
pub proof fn lemma_chunk_accounting(c: RawChunk)
    requires
        c.wf(),
    ensures
        c.spec_allocated() + c.spec_remaining() == c.spec_capacity(),
        0 <= c.spec_allocated() && 0 <= c.spec_remaining(),
        0 <= c.spec_capacity() <= c.spec_size(),
        c.chunk_start <= c.spec_content_start() <= c.pos <= c.spec_content_end() <= c.chunk_end,
{
}

/// Statistics of a bump allocator: the chunks it borrows and its current
/// chunk, if it has one.
#[derive(Clone, Copy)]
pub struct Stats<'a> {
    chunks: &'a Vec<RawChunk>,
    current: Option<usize>,
}

/// One chunk of a bump allocator.
#[derive(Clone, Copy)]
pub struct Chunk<'a> {
    chunks: &'a Vec<RawChunk>,
    index: usize,
}

/// Iterates from a chunk to the chunks before it, the next smaller one
/// first.
#[derive(Clone, Copy)]
pub struct ChunkPrevIter<'a> {
    pub chunk: Option<Chunk<'a>>,
}

/// Iterates from a chunk to the chunks after it, the next larger one first.
#[derive(Clone, Copy)]
pub struct ChunkNextIter<'a> {
    pub chunk: Option<Chunk<'a>>,
}

impl<'a> Stats<'a> {
    #[verifier::type_invariant]
    spec fn inv(self) -> bool {
        &&& stats_chunks_wf(self.chunks@)
        &&& self.current matches Some(i) ==> i < self.chunks@.len()
    }

    /// The chunks, from the first to the last.
    pub closed spec fn view_chunks(self) -> Seq<RawChunk> {
        self.chunks@
    }

    /// The index of the current chunk, if any.
    pub closed spec fn view_current(self) -> Option<int> {
        match self.current {
            Some(i) => Some(i as int),
            None => None,
        }
    }

    /// Statistics over `chunks` with `current` as the current chunk.
    pub(crate) fn from_parts(chunks: &'a Vec<RawChunk>, current: Option<usize>) -> (r: Self)
        requires
            stats_chunks_wf(chunks@),
            current matches Some(i) ==> i < chunks@.len(),
        ensures
            r.view_chunks() == chunks@,
            r.view_current() == (match current {
                Some(i) => Some(i as int),
                None => None::<int>,
            }),
    {
        Stats { chunks, current }
    }

    /// Counting the chunks: the current chunk, the chunks before it and the
    /// chunks after it are what `count` returns, and as many as an iteration
    /// from the smallest or from the largest chunk yields.
    pub proof fn lemma_count_by_iteration(self, c: Chunk<'a>)
        requires
            self.view_current() == Some(c.view_index()),
            c.view_chunks() == self.view_chunks(),
        ensures
            self.view_chunks().len() == 1 + c.count_before() + c.count_after(),
            (ChunkNextIter { chunk: Some(c) }).remaining_count() + c.count_before() == self.view_chunks().len(),
            (ChunkPrevIter { chunk: Some(c) }).remaining_count() + c.count_after() == self.view_chunks().len(),
    {
    }

    /// The number of chunks; 0 without a current chunk.
    pub fn count(self) -> (r: usize)
        ensures
            r == (if self.view_current() is Some { self.view_chunks().len() as int } else { 0 }),
    {
        let current = match self.get_current_chunk() {
            Some(c) => c,
            None => return 0,
        };
        proof {
            use_type_invariant(&self);
            use_type_invariant(&current);
        }
        let n = self.chunks.len();
        let cur = current.index;
        let mut sum: usize = 1;
        let mut iter = current.iter_prev();
        loop
            invariant
                iter.chunk matches Some(c) ==> c.view_chunks() == self.view_chunks() && 0 <= c.view_index() < cur
                    && sum == cur - c.view_index(),
                iter.chunk is None ==> sum == cur + 1,
                cur < self.view_chunks().len(),
                self.view_chunks().len() == n,
                current.view_chunks() == self.view_chunks(),
                current.view_index() == cur,
            ensures
                iter.chunk is None,
            decreases (match iter.chunk { Some(c) => c.view_index() + 1, None => 0 }),
        {
            match iter.next() {
                Some(_) => {
                    sum = sum + 1;
                },
                None => break,
            }
        }
        let mut iter = current.iter_next();
        loop
            invariant
                iter.chunk matches Some(c) ==> c.view_chunks() == self.view_chunks() && cur < c.view_index() < self.view_chunks().len()
                    && sum == c.view_index(),
                iter.chunk is None ==> sum == self.view_chunks().len(),
                cur < self.view_chunks().len(),
                self.view_chunks().len() == n,
                current.view_chunks() == self.view_chunks(),
                current.view_index() == cur,
                sum <= self.view_chunks().len(),
            ensures
                iter.chunk is None,
            decreases (match iter.chunk { Some(c) => self.view_chunks().len() - c.view_index(), None => 0 }),
        {
            match iter.next() {
                Some(_) => {
                    sum = sum + 1;
                },
                None => break,
            }
        }
        sum
    }

    /// The total size of the chunks, headers included; 0 without a current
    /// chunk.
    pub fn size(self) -> (r: usize)
        ensures
            r == (if self.view_current() is Some {
                sum_size(self.view_chunks(), 0, self.view_chunks().len() as int)
            } else {
                0
            }),
    {
        let current = match self.get_current_chunk() {
            Some(c) => c,
            None => return 0,
        };
        proof {
            use_type_invariant(&self);
            use_type_invariant(&current);
        }
        let ghost cs = self.view_chunks();
        let cur = current.index;
        let mut sum = current.size();
        let mut iter = current.iter_prev();
        proof {
            lemma_sum_prepend(cs, cur as int, cur + 1);
        }
        loop
            invariant
                stats_chunks_wf(cs),
                cur < cs.len(),
                current.view_chunks() == cs,
                current.view_index() == cur,
                iter.chunk matches Some(c) ==> c.view_chunks() == cs && 0 <= c.view_index() < cur
                    && sum == sum_size(cs, c.view_index() + 1, cur + 1),
                iter.chunk is None ==> sum == sum_size(cs, 0, cur + 1),
            ensures
                iter.chunk is None,
            decreases (match iter.chunk { Some(c) => c.view_index() + 1, None => 0 }),
        {
            let ghost before = iter;
            match iter.next() {
                Some(c) => {
                    proof {
                        let i = c.view_index();
                        lemma_sum_prepend(cs, i, cur + 1);
                        lemma_stats_sums(cs, i, cur + 1);
                    }
                    sum = sum + c.size();
                },
                None => break,
            }
        }
        proof {
            lemma_sum_prepend(cs, cur as int, cur + 1);
        }
        let mut iter = current.iter_next();
        loop
            invariant
                stats_chunks_wf(cs),
                cur < cs.len(),
                current.view_chunks() == cs,
                current.view_index() == cur,
                iter.chunk matches Some(c) ==> c.view_chunks() == cs && cur < c.view_index() < cs.len()
                    && sum == sum_size(cs, 0, c.view_index()),
                iter.chunk is None ==> sum == sum_size(cs, 0, cs.len() as int),
            ensures
                iter.chunk is None,
            decreases (match iter.chunk { Some(c) => cs.len() - c.view_index(), None => 0 }),
        {
            match iter.next() {
                Some(c) => {
                    proof {
                        lemma_stats_sums(cs, 0, c.view_index() + 1);
                    }
                    sum = sum + c.size();
                },
                None => break,
            }
        }
        sum
    }

    /// The total capacity of the chunks; 0 without a current chunk.
    pub fn capacity(self) -> (r: usize)
        ensures
            r == (if self.view_current() is Some {
                sum_capacity(self.view_chunks(), 0, self.view_chunks().len() as int)
            } else {
                0
            }),
    {
        let current = match self.get_current_chunk() {
            Some(c) => c,
            None => return 0,
        };
        proof {
            use_type_invariant(&self);
            use_type_invariant(&current);
        }
        let ghost cs = self.view_chunks();
        let cur = current.index;
        let mut sum = current.capacity();
        let mut iter = current.iter_prev();
        proof {
            lemma_sum_prepend(cs, cur as int, cur + 1);
        }
        loop
            invariant
                stats_chunks_wf(cs),
                cur < cs.len(),
                current.view_chunks() == cs,
                current.view_index() == cur,
                iter.chunk matches Some(c) ==> c.view_chunks() == cs && 0 <= c.view_index() < cur
                    && sum == sum_capacity(cs, c.view_index() + 1, cur + 1),
                iter.chunk is None ==> sum == sum_capacity(cs, 0, cur + 1),
            ensures
                iter.chunk is None,
            decreases (match iter.chunk { Some(c) => c.view_index() + 1, None => 0 }),
        {
            match iter.next() {
                Some(c) => {
                    proof {
                        let i = c.view_index();
                        lemma_sum_prepend(cs, i, cur + 1);
                        lemma_stats_sums(cs, i, cur + 1);
                    }
                    sum = sum + c.capacity();
                },
                None => break,
            }
        }
        proof {
            lemma_sum_prepend(cs, cur as int, cur + 1);
        }
        let mut iter = current.iter_next();
        loop
            invariant
                stats_chunks_wf(cs),
                cur < cs.len(),
                current.view_chunks() == cs,
                current.view_index() == cur,
                iter.chunk matches Some(c) ==> c.view_chunks() == cs && cur < c.view_index() < cs.len()
                    && sum == sum_capacity(cs, 0, c.view_index()),
                iter.chunk is None ==> sum == sum_capacity(cs, 0, cs.len() as int),
            ensures
                iter.chunk is None,
            decreases (match iter.chunk { Some(c) => cs.len() - c.view_index(), None => 0 }),
        {
            match iter.next() {
                Some(c) => {
                    proof {
                        lemma_stats_sums(cs, 0, c.view_index() + 1);
                    }
                    sum = sum + c.capacity();
                },
                None => break,
            }
        }
        sum
    }

    /// The bytes allocated: what is allocated in the current chunk plus the
    /// capacities of the chunks before it; 0 without a current chunk.
    pub fn allocated(self) -> (r: usize)
        ensures
            r == (match self.view_current() {
                Some(cur) => spec_allocated(self.view_chunks(), cur),
                None => 0,
            }),
    {
        let current = match self.get_current_chunk() {
            Some(c) => c,
            None => return 0,
        };
        proof {
            use_type_invariant(&self);
            use_type_invariant(&current);
        }
        let ghost cs = self.view_chunks();
        let cur = current.index;
        let mut sum = current.allocated();
        let mut iter = current.iter_prev();
        proof {
            lemma_stats_sums(cs, 0, cur + 1);
            lemma_sum_split(cs, 0, cur as int, cur + 1);
            assert(sum_capacity(cs, cur as int, cur + 1) == cs[cur as int].spec_capacity()) by {
                assert(sum_capacity(cs, cur as int, cur as int) == 0);
            }
            assert(cs[cur as int].wf());
        }
        loop
            invariant
                stats_chunks_wf(cs),
                cur < cs.len(),
                current.view_chunks() == cs,
                current.view_index() == cur,
                cs[cur as int].wf(),
                iter.chunk matches Some(c) ==> c.view_chunks() == cs && 0 <= c.view_index() < cur
                    && sum == sum_capacity(cs, c.view_index() + 1, cur as int) + cs[cur as int].spec_allocated(),
                iter.chunk is None ==> sum == sum_capacity(cs, 0, cur as int) + cs[cur as int].spec_allocated(),
            ensures
                iter.chunk is None,
            decreases (match iter.chunk { Some(c) => c.view_index() + 1, None => 0 }),
        {
            match iter.next() {
                Some(c) => {
                    proof {
                        let i = c.view_index();
                        lemma_sum_prepend(cs, i, cur as int);
                        lemma_stats_sums(cs, i, cur + 1);
                        lemma_sum_split(cs, i, cur as int, cur + 1);
                        assert(sum_capacity(cs, cur as int, cur + 1) == cs[cur as int].spec_capacity()) by {
                            assert(sum_capacity(cs, cur as int, cur as int) == 0);
                        }
                    }
                    sum = sum + c.capacity();
                },
                None => break,
            }
        }
        sum
    }

    /// The bytes remaining: what remains in the current chunk plus the
    /// capacities of the chunks after it; 0 without a current chunk.
    pub fn remaining(self) -> (r: usize)
        ensures
            r == (match self.view_current() {
                Some(cur) => spec_remaining(self.view_chunks(), cur),
                None => 0,
            }),
    {
        let current = match self.get_current_chunk() {
            Some(c) => c,
            None => return 0,
        };
        proof {
            use_type_invariant(&self);
            use_type_invariant(&current);
        }
        let ghost cs = self.view_chunks();
        let cur = current.index;
        let mut sum = current.remaining();
        let mut iter = current.iter_next();
        proof {
            assert(cs[cur as int].wf());
            assert(sum_capacity(cs, cur + 1, cur + 1) == 0);
        }
        loop
            invariant
                stats_chunks_wf(cs),
                cur < cs.len(),
                current.view_chunks() == cs,
                current.view_index() == cur,
                cs[cur as int].wf(),
                iter.chunk matches Some(c) ==> c.view_chunks() == cs && cur < c.view_index() < cs.len()
                    && sum == cs[cur as int].spec_remaining() + sum_capacity(cs, cur + 1, c.view_index()),
                iter.chunk is None ==> sum == cs[cur as int].spec_remaining() + sum_capacity(cs, cur + 1, cs.len() as int),
            ensures
                iter.chunk is None,
            decreases (match iter.chunk { Some(c) => cs.len() - c.view_index(), None => 0 }),
        {
            match iter.next() {
                Some(c) => {
                    proof {
                        lemma_stats_sums(cs, cur as int, c.view_index() + 1);
                        lemma_sum_split(cs, cur as int, cur + 1, c.view_index() + 1);
                        assert(sum_capacity(cs, cur as int, cur + 1) == cs[cur as int].spec_capacity()) by {
                            assert(sum_capacity(cs, cur as int, cur as int) == 0);
                        }
                    }
                    sum = sum + c.capacity();
                },
                None => break,
            }
        }
        sum
    }

    /// Iterates over all chunks from the first (smallest) to the last.
    pub fn small_to_big(self) -> (r: ChunkNextIter<'a>)
        ensures
            r.spec_indices() == Seq::new(
                (if self.view_current() is Some { self.view_chunks().len() } else { 0 }),
                |k: int| k,
            ),
            r.chunk is Some ==> r.spec_chunks() == self.view_chunks(),
            sizes_increase(self.view_chunks()),
            r.remaining_count() == (if self.view_current() is Some { self.view_chunks().len() as int } else { 0 }),
            self.view_current() is None ==> r.chunk is None,
            self.view_current() is Some ==> (r.chunk matches Some(c) && c.view_index() == 0
                && c.view_chunks() == self.view_chunks()),
    {
        proof {
            use_type_invariant(&self);
        }
        let mut start = match self.get_current_chunk() {
            Some(c) => c,
            None => return ChunkNextIter { chunk: None },
        };
        loop
            invariant
                start.view_chunks() == self.view_chunks(),
            ensures
                start.view_index() == 0,
            decreases start.view_index(),
        {
            proof {
                use_type_invariant(&start);
            }
            match start.prev() {
                Some(c) => start = c,
                None => break,
            }
        }
        ChunkNextIter { chunk: Some(start) }
    }

    /// Iterating from the smallest chunk yields every chunk exactly once: the
    /// first one yielded has no chunk before it, each later one is the chunk
    /// after the one yielded before it, the sizes increase along the way, and
    /// as many are yielded as `count` returns.
    pub proof fn lemma_small_to_big_order(self, it: ChunkNextIter<'a>)
        requires
            it.spec_indices() == Seq::new(
                (if self.view_current() is Some { self.view_chunks().len() } else { 0 }),
                |k: int| k,
            ),
            sizes_increase(self.view_chunks()),
        ensures
            it.spec_indices().len() == (if self.view_current() is Some { self.view_chunks().len() as int } else { 0 }),
            it.spec_indices().len() > 0 ==> it.spec_indices()[0] == 0,
            forall|k: int| 0 <= k < it.spec_indices().len() - 1 ==> #[trigger] it.spec_indices()[k + 1]
                == it.spec_indices()[k] + 1,
            it.spec_indices().no_duplicates(),
            self.view_current() is Some ==> forall|x: int| 0 <= x < self.view_chunks().len() ==> it.spec_indices().contains(x),
            forall|i: int, j: int| 0 <= i < j < it.spec_indices().len() ==>
                self.view_chunks()[#[trigger] it.spec_indices()[i]].spec_size()
                < self.view_chunks()[#[trigger] it.spec_indices()[j]].spec_size(),
    {
        let ix = it.spec_indices();
        assert forall|x: int| 0 <= x < ix.len() implies ix.contains(x) by {
            assert(ix[x] == x);
        }
    }

    /// Iterates over all chunks from the last (largest) to the first.
    pub fn big_to_small(self) -> (r: ChunkPrevIter<'a>)
        ensures
            r.spec_indices() == Seq::new(
                (if self.view_current() is Some { self.view_chunks().len() } else { 0 }),
                |k: int| self.view_chunks().len() - 1 - k,
            ),
            r.chunk is Some ==> r.spec_chunks() == self.view_chunks(),
            sizes_increase(self.view_chunks()),
            r.remaining_count() == (if self.view_current() is Some { self.view_chunks().len() as int } else { 0 }),
            self.view_current() is None ==> r.chunk is None,
            self.view_current() is Some ==> (r.chunk matches Some(c) && c.view_index()
                == self.view_chunks().len() - 1 && c.view_chunks() == self.view_chunks()),
    {
        proof {
            use_type_invariant(&self);
        }
        let mut start = match self.get_current_chunk() {
            Some(c) => c,
            None => return ChunkPrevIter { chunk: None },
        };
        loop
            invariant
                start.view_chunks() == self.view_chunks(),
            ensures
                start.view_index() == self.view_chunks().len() - 1,
            decreases self.view_chunks().len() - start.view_index(),
        {
            proof {
                use_type_invariant(&start);
            }
            match start.next() {
                Some(c) => start = c,
                None => break,
            }
        }
        ChunkPrevIter { chunk: Some(start) }
    }

    /// The current chunk, if any.
    pub fn get_current_chunk(self) -> (r: Option<Chunk<'a>>)
        ensures
            self.view_current() is None ==> r is None,
            self.view_current() matches Some(i) ==> (r matches Some(c) && c.view_index() == i
                && c.view_chunks() == self.view_chunks()),
    {
        proof {
            use_type_invariant(&self);
        }
        match self.current {
            Some(i) => Some(Chunk { chunks: self.chunks, index: i }),
            None => None,
        }
    }

    /// The current chunk of an allocator that has one.
    pub fn current_chunk(self) -> (r: Chunk<'a>)
        requires
            self.view_current() is Some,
        ensures
            Some(r.view_index()) == self.view_current(),
            r.view_chunks() == self.view_chunks(),
    {
        self.get_current_chunk().unwrap()
    }
}

impl<'a> Chunk<'a> {
    #[verifier::type_invariant]
    spec fn inv(self) -> bool {
        &&& stats_chunks_wf(self.chunks@)
        &&& self.index < self.chunks@.len()
    }

    /// The chunks of the allocator this chunk belongs to.
    pub closed spec fn view_chunks(self) -> Seq<RawChunk> {
        self.chunks@
    }

    /// The position of this chunk among them.
    pub closed spec fn view_index(self) -> int {
        self.index as int
    }

    /// The chunk itself.
    pub open spec fn view_raw(self) -> RawChunk {
        self.view_chunks()[self.view_index()]
    }

    /// How many chunks come before this one.
    pub open spec fn count_before(self) -> int {
        self.view_index()
    }

    /// How many chunks come after this one.
    pub open spec fn count_after(self) -> int {
        self.view_chunks().len() - 1 - self.view_index()
    }

    /// The chunk before this one, if any; it is smaller.
    pub fn prev(self) -> (r: Option<Self>)
        ensures
            self.view_index() == 0 ==> r is None,
            self.view_index() > 0 ==> (r matches Some(c) && c.view_index() == self.view_index() - 1
                && c.view_chunks() == self.view_chunks()),
            r matches Some(c) ==> c.view_raw().spec_size() < self.view_raw().spec_size(),
    {
        proof {
            use_type_invariant(&self);
        }
        if self.index == 0 {
            None
        } else {
            Some(Chunk { chunks: self.chunks, index: self.index - 1 })
        }
    }

    /// The chunk after this one, if any; it is larger.
    pub fn next(self) -> (r: Option<Self>)
        ensures
            self.view_index() + 1 == self.view_chunks().len() ==> r is None,
            self.view_index() + 1 < self.view_chunks().len() ==> (r matches Some(c) && c.view_index()
                == self.view_index() + 1 && c.view_chunks() == self.view_chunks()),
            r matches Some(c) ==> self.view_raw().spec_size() < c.view_raw().spec_size(),
    {
        proof {
            use_type_invariant(&self);
        }
        if self.index >= self.chunks.len() - 1 {
            None
        } else {
            Some(Chunk { chunks: self.chunks, index: self.index + 1 })
        }
    }

    /// Iterates over the chunks before this one.
    pub fn iter_prev(self) -> (r: ChunkPrevIter<'a>)
        ensures
            r.remaining_count() == self.count_before(),
            self.view_index() == 0 ==> r.chunk is None,
            self.view_index() > 0 ==> (r.chunk matches Some(c) && c.view_index() == self.view_index() - 1
                && c.view_chunks() == self.view_chunks()),
    {
        ChunkPrevIter { chunk: self.prev() }
    }

    /// Iterates over the chunks after this one.
    pub fn iter_next(self) -> (r: ChunkNextIter<'a>)
        ensures
            r.remaining_count() == self.count_after(),
            self.view_index() + 1 == self.view_chunks().len() ==> r.chunk is None,
            self.view_index() + 1 < self.view_chunks().len() ==> (r.chunk matches Some(c) && c.view_index()
                == self.view_index() + 1 && c.view_chunks() == self.view_chunks()),
    {
        proof {
            use_type_invariant(&self);
        }
        ChunkNextIter { chunk: self.next() }
    }

    /// The size of the chunk, header included.
    pub fn size(self) -> (r: usize)
        ensures
            r == self.view_raw().spec_size(),
            self.view_raw().wf(),
    {
        proof {
            use_type_invariant(&self);
        }
        self.chunks[self.index].size()
    }

    /// The size of the chunk's content.
    pub fn capacity(self) -> (r: usize)
        ensures
            r == self.view_raw().spec_capacity(),
            self.view_raw().wf(),
    {
        proof {
            use_type_invariant(&self);
        }
        self.chunks[self.index].capacity()
    }

    /// The bytes allocated in this chunk.
    pub fn allocated(self) -> (r: usize)
        ensures
            r == self.view_raw().spec_allocated(),
            self.view_raw().wf(),
    {
        proof {
            use_type_invariant(&self);
        }
        self.chunks[self.index].allocated()
    }

    /// The bytes remaining in this chunk.
    pub fn remaining(self) -> (r: usize)
        ensures
            r == self.view_raw().spec_remaining(),
            self.view_raw().wf(),
    {
        proof {
            use_type_invariant(&self);
        }
        self.chunks[self.index].remaining()
    }

    /// The address where the chunk starts.
    pub fn chunk_start(self) -> (r: usize)
        ensures
            r == self.view_raw().chunk_start,
            self.view_raw().wf(),
    {
        proof {
            use_type_invariant(&self);
        }
        self.chunks[self.index].chunk_start()
    }

    /// The address where the chunk ends.
    pub fn chunk_end(self) -> (r: usize)
        ensures
            r == self.view_raw().chunk_end,
            self.view_raw().wf(),
    {
        proof {
            use_type_invariant(&self);
        }
        self.chunks[self.index].chunk_end()
    }

    /// The address where the content starts.
    pub fn content_start(self) -> (r: usize)
        ensures
            r == self.view_raw().spec_content_start(),
            self.view_raw().wf(),
    {
        proof {
            use_type_invariant(&self);
        }
        self.chunks[self.index].content_start()
    }

    /// The address where the content ends.
    pub fn content_end(self) -> (r: usize)
        ensures
            r == self.view_raw().spec_content_end(),
            self.view_raw().wf(),
    {
        proof {
            use_type_invariant(&self);
        }
        self.chunks[self.index].content_end()
    }

    /// The bump position.
    pub fn bump_position(self) -> (r: usize)
        ensures
            r == self.view_raw().pos,
            self.view_raw().wf(),
    {
        proof {
            use_type_invariant(&self);
        }
        self.chunks[self.index].pos()
    }
}

impl<'a> ChunkPrevIter<'a> {
    /// The positions of the chunks the iterator has still to yield, in the
    /// order it yields them: from its chunk down to the first.
    pub open spec fn spec_indices(self) -> Seq<int> {
        match self.chunk {
            Some(c) => Seq::new((c.view_index() + 1) as nat, |k: int| c.view_index() - k),
            None => Seq::empty(),
        }
    }

    /// The chunks of the allocator the iterator walks; empty once it is done.
    pub open spec fn spec_chunks(self) -> Seq<RawChunk> {
        match self.chunk {
            Some(c) => c.view_chunks(),
            None => Seq::empty(),
        }
    }

    /// How many chunks the iterator has still to yield.
    pub open spec fn remaining_count(self) -> int {
        match self.chunk {
            Some(c) => c.count_before() + 1,
            None => 0,
        }
    }

    /// The next chunk: the one this iterator is at, after which it moves to
    /// the chunk before it.
    pub fn next(&mut self) -> (r: Option<Chunk<'a>>)
        ensures
            r == old(self).chunk,
            old(self).chunk matches Some(c) ==> (if c.view_index() == 0 {
                final(self).chunk is None
            } else {
                final(self).chunk matches Some(p) && p.view_index() == c.view_index() - 1
                    && p.view_chunks() == c.view_chunks()
            }),
            old(self).chunk is None ==> final(self).chunk is None,
            r is Some <==> old(self).remaining_count() > 0,
            r is Some ==> final(self).remaining_count() == old(self).remaining_count() - 1,
            r is Some <==> old(self).spec_indices().len() > 0,
            r matches Some(c) ==> c.view_index() == old(self).spec_indices()[0] && c.view_chunks()
                == old(self).spec_chunks(),
            r is Some ==> final(self).spec_indices() == old(self).spec_indices().drop_first(),
            r is None ==> final(self).spec_indices().len() == 0,
            final(self).chunk is Some ==> final(self).spec_chunks() == old(self).spec_chunks(),
            r matches Some(c) ==> (final(self).chunk matches Some(p) ==> p.view_raw().spec_size()
                < c.view_raw().spec_size()),
    {
        match self.chunk {
            Some(c) => {
                proof {
                    use_type_invariant(&c);
                }
                let ghost before = *self;
                self.chunk = c.prev();
                proof {
                    assert(self.spec_indices() =~= before.spec_indices().drop_first());
                }
                Some(c)
            },
            None => None,
        }
    }
}

impl<'a> ChunkNextIter<'a> {
    /// The positions of the chunks the iterator has still to yield, in the
    /// order it yields them: from its chunk up to the last.
    pub open spec fn spec_indices(self) -> Seq<int> {
        match self.chunk {
            Some(c) => Seq::new((c.view_chunks().len() - c.view_index()) as nat, |k: int| c.view_index() + k),
            None => Seq::empty(),
        }
    }

    /// The chunks of the allocator the iterator walks; empty once it is done.
    pub open spec fn spec_chunks(self) -> Seq<RawChunk> {
        match self.chunk {
            Some(c) => c.view_chunks(),
            None => Seq::empty(),
        }
    }

    /// How many chunks the iterator has still to yield.
    pub open spec fn remaining_count(self) -> int {
        match self.chunk {
            Some(c) => c.count_after() + 1,
            None => 0,
        }
    }

    /// The next chunk: the one this iterator is at, after which it moves to
    /// the chunk after it.
    pub fn next(&mut self) -> (r: Option<Chunk<'a>>)
        ensures
            r == old(self).chunk,
            old(self).chunk matches Some(c) ==> (if c.view_index() + 1 == c.view_chunks().len() {
                final(self).chunk is None
            } else {
                final(self).chunk matches Some(p) && p.view_index() == c.view_index() + 1
                    && p.view_chunks() == c.view_chunks()
            }),
            old(self).chunk is None ==> final(self).chunk is None,
            r is Some <==> old(self).remaining_count() > 0,
            r is Some ==> final(self).remaining_count() == old(self).remaining_count() - 1,
            r is Some <==> old(self).spec_indices().len() > 0,
            r matches Some(c) ==> c.view_index() == old(self).spec_indices()[0] && c.view_chunks()
                == old(self).spec_chunks(),
            r is Some ==> final(self).spec_indices() == old(self).spec_indices().drop_first(),
            r is None ==> final(self).spec_indices().len() == 0,
            final(self).chunk is Some ==> final(self).spec_chunks() == old(self).spec_chunks(),
            r matches Some(c) ==> (final(self).chunk matches Some(p) ==> c.view_raw().spec_size()
                < p.view_raw().spec_size()),
    {
        match self.chunk {
            Some(c) => {
                proof {
                    use_type_invariant(&c);
                }
                let ghost before = *self;
                self.chunk = c.next();
                proof {
                    assert(self.spec_indices() =~= before.spec_indices().drop_first());
                }
                Some(c)
            },
            None => None,
        }
    }
}

impl<'a> From<Chunk<'a>> for Stats<'a> {
    fn from(chunk: Chunk<'a>) -> (r: Self)
        ensures
            r.view_chunks() == chunk.view_chunks(),
            r.view_current() == Some(chunk.view_index()),
    {
        proof {
            use_type_invariant(&chunk);
        }
        Stats { chunks: chunk.chunks, current: Some(chunk.index) }
    }
}

impl<'a> vstd::std_specs::convert::FromSpecImpl<Chunk<'a>> for Stats<'a> {
    open spec fn obeys_from_spec() -> bool {
        true
    }

    closed spec fn from_spec(v: Chunk<'a>) -> Self {
        Stats { chunks: v.chunks, current: Some(v.index) }
    }
}

impl<'a> Default for ChunkPrevIter<'a> {
    fn default() -> (r: Self)
        ensures
            r.chunk is None,
    {
        ChunkPrevIter { chunk: None }
    }
}

impl<'a> Default for ChunkNextIter<'a> {
    fn default() -> (r: Self)
        ensures
            r.chunk is None,
    {
        ChunkNextIter { chunk: None }
    }
}

} // verus!
