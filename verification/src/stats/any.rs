//! Statistics without ties to a particular allocator type.
use vstd::prelude::*;

verus! {

use crate::chunk_list::{lemma_sum_split, sizes_increase, spec_allocated, spec_remaining, sum_capacity, sum_size};
use crate::raw_chunk::RawChunk;
use crate::stats::{lemma_stats_sums, lemma_sum_prepend, stats_chunks_wf, Chunk, ChunkNextIter, ChunkPrevIter, Stats};

/// Statistics of a bump allocator: its current chunk, if it has one.
#[derive(Clone, Copy)]
pub struct AnyStats<'a> {
    chunk: Option<AnyChunk<'a>>,
}

/// One chunk of a bump allocator.
#[derive(Clone, Copy)]
pub struct AnyChunk<'a> {
    chunks: &'a Vec<RawChunk>,
    index: usize,
}

/// Iterates from a chunk to the chunks before it, the next smaller one
/// first.
#[derive(Clone, Copy)]
pub struct AnyChunkPrevIter<'a> {
    pub chunk: Option<AnyChunk<'a>>,
}

/// Iterates from a chunk to the chunks after it, the next larger one first.
#[derive(Clone, Copy)]
pub struct AnyChunkNextIter<'a> {
    pub chunk: Option<AnyChunk<'a>>,
}

impl<'a> AnyStats<'a> {
    /// The chunks, from the first to the last; empty without a current chunk.
    pub open spec fn view_chunks(self) -> Seq<RawChunk> {
        match self.spec_chunk() {
            Some(c) => c.view_chunks(),
            None => Seq::empty(),
        }
    }

    /// The index of the current chunk, if any.
    pub open spec fn view_current(self) -> Option<int> {
        match self.spec_chunk() {
            Some(c) => Some(c.view_index()),
            None => None,
        }
    }

    /// The current chunk, if any.
    pub closed spec fn spec_chunk(self) -> Option<AnyChunk<'a>> {
        self.chunk
    }

    /// Counting the chunks: the current chunk, the chunks before it and the
    /// chunks after it are what `count` returns, and as many as an iteration
    /// from the smallest or from the largest chunk yields.
    pub proof fn lemma_count_by_iteration(self, c: AnyChunk<'a>)
        requires
            self.spec_chunk() == Some(c),
        ensures
            self.view_chunks().len() == 1 + c.count_before() + c.count_after(),
            (AnyChunkNextIter { chunk: Some(c) }).remaining_count() + c.count_before() == self.view_chunks().len(),
            (AnyChunkPrevIter { chunk: Some(c) }).remaining_count() + c.count_after() == self.view_chunks().len(),
    {
    }

    /// The number of chunks; 0 without a current chunk.
    pub fn count(self) -> (r: usize)
        ensures
            r == (if self.view_current() is Some { self.view_chunks().len() as int } else { 0 }),
    {
        let current = match self.chunk {
            Some(c) => c,
            None => return 0,
        };
        proof {
            use_type_invariant(&current);
        }
        let n = current.chunks.len();
        let cur = current.index;
        let mut sum: usize = 1;
        let mut iter = current.iter_prev();
        loop
            invariant
                iter.chunk matches Some(c) ==> c.view_chunks() == self.view_chunks() && 0 <= c.view_index() < cur
                    && sum == cur - c.view_index(),
                iter.chunk is None ==> sum == cur + 1,
                cur < self.view_chunks().len(),
                self.view_chunks().len() == n,
                current.view_chunks() == self.view_chunks(),
                current.view_index() == cur,
            ensures
                iter.chunk is None,
            decreases (match iter.chunk { Some(c) => c.view_index() + 1, None => 0 }),
        {
            match iter.next() {
                Some(_) => {
                    sum = sum + 1;
                },
                None => break,
            }
        }
        let mut iter = current.iter_next();
        loop
            invariant
                iter.chunk matches Some(c) ==> c.view_chunks() == self.view_chunks() && cur < c.view_index() < self.view_chunks().len()
                    && sum == c.view_index(),
                iter.chunk is None ==> sum == self.view_chunks().len(),
                cur < self.view_chunks().len(),
                self.view_chunks().len() == n,
                current.view_chunks() == self.view_chunks(),
                current.view_index() == cur,
                sum <= self.view_chunks().len(),
            ensures
                iter.chunk is None,
            decreases (match iter.chunk { Some(c) => self.view_chunks().len() - c.view_index(), None => 0 }),
        {
            match iter.next() {
                Some(_) => {
                    sum = sum + 1;
                },
                None => break,
            }
        }
        sum
    }

    /// The total size of the chunks, headers included; 0 without a current
    /// chunk.
    pub fn size(self) -> (r: usize)
        ensures
            r == (if self.view_current() is Some {
                sum_size(self.view_chunks(), 0, self.view_chunks().len() as int)
            } else {
                0
            }),
    {
        let current = match self.chunk {
            Some(c) => c,
            None => return 0,
        };
        proof {
            use_type_invariant(&current);
        }
        let ghost cs = self.view_chunks();
        let cur = current.index;
        let mut sum = current.size();
        let mut iter = current.iter_prev();
        proof {
            lemma_sum_prepend(cs, cur as int, cur + 1);
        }
        loop
            invariant
                stats_chunks_wf(cs),
                cur < cs.len(),
                current.view_chunks() == cs,
                current.view_index() == cur,
                iter.chunk matches Some(c) ==> c.view_chunks() == cs && 0 <= c.view_index() < cur
                    && sum == sum_size(cs, c.view_index() + 1, cur + 1),
                iter.chunk is None ==> sum == sum_size(cs, 0, cur + 1),
            ensures
                iter.chunk is None,
            decreases (match iter.chunk { Some(c) => c.view_index() + 1, None => 0 }),
        {
            let ghost before = iter;
            match iter.next() {
                Some(c) => {
                    proof {
                        let i = c.view_index();
                        lemma_sum_prepend(cs, i, cur + 1);
                        lemma_stats_sums(cs, i, cur + 1);
                    }
                    sum = sum + c.size();
                },
                None => break,
            }
        }
        proof {
            lemma_sum_prepend(cs, cur as int, cur + 1);
        }
        let mut iter = current.iter_next();
        loop
            invariant
                stats_chunks_wf(cs),
                cur < cs.len(),
                current.view_chunks() == cs,
                current.view_index() == cur,
                iter.chunk matches Some(c) ==> c.view_chunks() == cs && cur < c.view_index() < cs.len()
                    && sum == sum_size(cs, 0, c.view_index()),
                iter.chunk is None ==> sum == sum_size(cs, 0, cs.len() as int),
            ensures
                iter.chunk is None,
            decreases (match iter.chunk { Some(c) => cs.len() - c.view_index(), None => 0 }),
        {
            match iter.next() {
                Some(c) => {
                    proof {
                        lemma_stats_sums(cs, 0, c.view_index() + 1);
                    }
                    sum = sum + c.size();
                },
                None => break,
            }
        }
        sum
    }

    /// The total capacity of the chunks; 0 without a current chunk.
    pub fn capacity(self) -> (r: usize)
        ensures
            r == (if self.view_current() is Some {
                sum_capacity(self.view_chunks(), 0, self.view_chunks().len() as int)
            } else {
                0
            }),
    {
        let current = match self.chunk {
            Some(c) => c,
            None => return 0,
        };
        proof {
            use_type_invariant(&current);
        }
        let ghost cs = self.view_chunks();
        let cur = current.index;
        let mut sum = current.capacity();
        let mut iter = current.iter_prev();
        proof {
            lemma_sum_prepend(cs, cur as int, cur + 1);
        }
        loop
            invariant
                stats_chunks_wf(cs),
                cur < cs.len(),
                current.view_chunks() == cs,
                current.view_index() == cur,
                iter.chunk matches Some(c) ==> c.view_chunks() == cs && 0 <= c.view_index() < cur
                    && sum == sum_capacity(cs, c.view_index() + 1, cur + 1),
                iter.chunk is None ==> sum == sum_capacity(cs, 0, cur + 1),
            ensures
                iter.chunk is None,
            decreases (match iter.chunk { Some(c) => c.view_index() + 1, None => 0 }),
        {
            match iter.next() {
                Some(c) => {
                    proof {
                        let i = c.view_index();
                        lemma_sum_prepend(cs, i, cur + 1);
                        lemma_stats_sums(cs, i, cur + 1);
                    }
                    sum = sum + c.capacity();
                },
                None => break,
            }
        }
        proof {
            lemma_sum_prepend(cs, cur as int, cur + 1);
        }
        let mut iter = current.iter_next();
        loop
            invariant
                stats_chunks_wf(cs),
                cur < cs.len(),
                current.view_chunks() == cs,
                current.view_index() == cur,
                iter.chunk matches Some(c) ==> c.view_chunks() == cs && cur < c.view_index() < cs.len()
                    && sum == sum_capacity(cs, 0, c.view_index()),
                iter.chunk is None ==> sum == sum_capacity(cs, 0, cs.len() as int),
            ensures
                iter.chunk is None,
            decreases (match iter.chunk { Some(c) => cs.len() - c.view_index(), None => 0 }),
        {
            match iter.next() {
                Some(c) => {
                    proof {
                        lemma_stats_sums(cs, 0, c.view_index() + 1);
                    }
                    sum = sum + c.capacity();
                },
                None => break,
            }
        }
        sum
    }

    /// The bytes allocated: what is allocated in the current chunk plus the
    /// capacities of the chunks before it; 0 without a current chunk.
    pub fn allocated(self) -> (r: usize)
        ensures
            r == (match self.view_current() {
                Some(cur) => spec_allocated(self.view_chunks(), cur),
                None => 0,
            }),
    {
        let current = match self.chunk {
            Some(c) => c,
            None => return 0,
        };
        proof {
            use_type_invariant(&current);
        }
        let ghost cs = self.view_chunks();
        let cur = current.index;
        let mut sum = current.allocated();
        let mut iter = current.iter_prev();
        proof {
            lemma_stats_sums(cs, 0, cur + 1);
            lemma_sum_split(cs, 0, cur as int, cur + 1);
            assert(sum_capacity(cs, cur as int, cur + 1) == cs[cur as int].spec_capacity()) by {
                assert(sum_capacity(cs, cur as int, cur as int) == 0);
            }
            assert(cs[cur as int].wf());
        }
        loop
            invariant
                stats_chunks_wf(cs),
                cur < cs.len(),
                current.view_chunks() == cs,
                current.view_index() == cur,
                cs[cur as int].wf(),
                iter.chunk matches Some(c) ==> c.view_chunks() == cs && 0 <= c.view_index() < cur
                    && sum == sum_capacity(cs, c.view_index() + 1, cur as int) + cs[cur as int].spec_allocated(),
                iter.chunk is None ==> sum == sum_capacity(cs, 0, cur as int) + cs[cur as int].spec_allocated(),
            ensures
                iter.chunk is None,
            decreases (match iter.chunk { Some(c) => c.view_index() + 1, None => 0 }),
        {
            match iter.next() {
                Some(c) => {
                    proof {
                        let i = c.view_index();
                        lemma_sum_prepend(cs, i, cur as int);
                        lemma_stats_sums(cs, i, cur + 1);
                        lemma_sum_split(cs, i, cur as int, cur + 1);
                        assert(sum_capacity(cs, cur as int, cur + 1) == cs[cur as int].spec_capacity()) by {
                            assert(sum_capacity(cs, cur as int, cur as int) == 0);
                        }
                    }
                    sum = sum + c.capacity();
                },
                None => break,
            }
        }
        sum
    }

    /// The bytes remaining: what remains in the current chunk plus the
    /// capacities of the chunks after it; 0 without a current chunk.
    pub fn remaining(self) -> (r: usize)
        ensures
            r == (match self.view_current() {
                Some(cur) => spec_remaining(self.view_chunks(), cur),
                None => 0,
            }),
    {
        let current = match self.chunk {
            Some(c) => c,
            None => return 0,
        };
        proof {
            use_type_invariant(&current);
        }
        let ghost cs = self.view_chunks();
        let cur = current.index;
        let mut sum = current.remaining();
        let mut iter = current.iter_next();
        proof {
            assert(cs[cur as int].wf());
            assert(sum_capacity(cs, cur + 1, cur + 1) == 0);
        }
        loop
            invariant
                stats_chunks_wf(cs),
                cur < cs.len(),
                current.view_chunks() == cs,
                current.view_index() == cur,
                cs[cur as int].wf(),
                iter.chunk matches Some(c) ==> c.view_chunks() == cs && cur < c.view_index() < cs.len()
                    && sum == cs[cur as int].spec_remaining() + sum_capacity(cs, cur + 1, c.view_index()),
                iter.chunk is None ==> sum == cs[cur as int].spec_remaining() + sum_capacity(cs, cur + 1, cs.len() as int),
            ensures
                iter.chunk is None,
            decreases (match iter.chunk { Some(c) => cs.len() - c.view_index(), None => 0 }),
        {
            match iter.next() {
                Some(c) => {
                    proof {
                        lemma_stats_sums(cs, cur as int, c.view_index() + 1);
                        lemma_sum_split(cs, cur as int, cur + 1, c.view_index() + 1);
                        assert(sum_capacity(cs, cur as int, cur + 1) == cs[cur as int].spec_capacity()) by {
                            assert(sum_capacity(cs, cur as int, cur as int) == 0);
                        }
                    }
                    sum = sum + c.capacity();
                },
                None => break,
            }
        }
        sum
    }

    /// Iterates over all chunks from the first (smallest) to the last.
    pub fn small_to_big(self) -> (r: AnyChunkNextIter<'a>)
        ensures
            r.spec_indices() == Seq::new(
                (if self.view_current() is Some { self.view_chunks().len() } else { 0 }),
                |k: int| k,
            ),
            r.chunk is Some ==> r.spec_chunks() == self.view_chunks(),
            sizes_increase(self.view_chunks()),
            r.remaining_count() == (if self.view_current() is Some { self.view_chunks().len() as int } else { 0 }),
            self.view_current() is None ==> r.chunk is None,
            self.view_current() is Some ==> (r.chunk matches Some(c) && c.view_index() == 0
                && c.view_chunks() == self.view_chunks()),
    {
        let mut start = match self.chunk {
            Some(c) => c,
            None => return AnyChunkNextIter { chunk: None },
        };
        proof {
            use_type_invariant(&start);
        }
        loop
            invariant
                start.view_chunks() == self.view_chunks(),
            ensures
                start.view_index() == 0,
            decreases start.view_index(),
        {
            proof {
                use_type_invariant(&start);
            }
            match start.prev() {
                Some(c) => start = c,
                None => break,
            }
        }
        AnyChunkNextIter { chunk: Some(start) }
    }

    /// Iterates over all chunks from the last (largest) to the first.
    pub fn big_to_small(self) -> (r: AnyChunkPrevIter<'a>)
        ensures
            r.spec_indices() == Seq::new(
                (if self.view_current() is Some { self.view_chunks().len() } else { 0 }),
                |k: int| self.view_chunks().len() - 1 - k,
            ),
            r.chunk is Some ==> r.spec_chunks() == self.view_chunks(),
            sizes_increase(self.view_chunks()),
            r.remaining_count() == (if self.view_current() is Some { self.view_chunks().len() as int } else { 0 }),
            self.view_current() is None ==> r.chunk is None,
            self.view_current() is Some ==> (r.chunk matches Some(c) && c.view_index()
                == self.view_chunks().len() - 1 && c.view_chunks() == self.view_chunks()),
    {
        let mut start = match self.chunk {
            Some(c) => c,
            None => return AnyChunkPrevIter { chunk: None },
        };
        proof {
            use_type_invariant(&start);
        }
        loop
            invariant
                start.view_chunks() == self.view_chunks(),
            ensures
                start.view_index() == self.view_chunks().len() - 1,
            decreases self.view_chunks().len() - start.view_index(),
        {
            proof {
                use_type_invariant(&start);
            }
            match start.next() {
                Some(c) => start = c,
                None => break,
            }
        }
        AnyChunkPrevIter { chunk: Some(start) }
    }

    /// The current chunk, if any.
    pub fn current_chunk(self) -> (r: Option<AnyChunk<'a>>)
        ensures
            r == self.spec_chunk(),
    {
        self.chunk
    }
}

impl<'a> AnyChunk<'a> {
    #[verifier::type_invariant]
    spec fn inv(self) -> bool {
        &&& stats_chunks_wf(self.chunks@)
        &&& self.index < self.chunks@.len()
    }

    /// The chunks of the allocator this chunk belongs to.
    pub closed spec fn view_chunks(self) -> Seq<RawChunk> {
        self.chunks@
    }

    /// The position of this chunk among them.
    pub closed spec fn view_index(self) -> int {
        self.index as int
    }

    /// The chunk itself.
    pub open spec fn view_raw(self) -> RawChunk {
        self.view_chunks()[self.view_index()]
    }

    /// How many chunks come before this one.
    pub open spec fn count_before(self) -> int {
        self.view_index()
    }

    /// How many chunks come after this one.
    pub open spec fn count_after(self) -> int {
        self.view_chunks().len() - 1 - self.view_index()
    }

    /// The chunk before this one, if any.
    pub fn prev(self) -> (r: Option<Self>)
        ensures
            self.view_index() == 0 ==> r is None,
            self.view_index() > 0 ==> (r matches Some(c) && c.view_index() == self.view_index() - 1
                && c.view_chunks() == self.view_chunks()),
            r matches Some(c) ==> c.view_raw().spec_size() < self.view_raw().spec_size(),
    {
        proof {
            use_type_invariant(&self);
        }
        if self.index == 0 {
            None
        } else {
            Some(AnyChunk { chunks: self.chunks, index: self.index - 1 })
        }
    }

    /// The chunk after this one, if any.
    pub fn next(self) -> (r: Option<Self>)
        ensures
            self.view_index() + 1 == self.view_chunks().len() ==> r is None,
            self.view_index() + 1 < self.view_chunks().len() ==> (r matches Some(c) && c.view_index()
                == self.view_index() + 1 && c.view_chunks() == self.view_chunks()),
            r matches Some(c) ==> self.view_raw().spec_size() < c.view_raw().spec_size(),
    {
        proof {
            use_type_invariant(&self);
        }
        if self.index >= self.chunks.len() - 1 {
            None
        } else {
            Some(AnyChunk { chunks: self.chunks, index: self.index + 1 })
        }
    }

    /// Iterates over the chunks before this one.
    pub fn iter_prev(self) -> (r: AnyChunkPrevIter<'a>)
        ensures
            r.remaining_count() == self.count_before(),
            self.view_index() == 0 ==> r.chunk is None,
            self.view_index() > 0 ==> (r.chunk matches Some(c) && c.view_index() == self.view_index() - 1
                && c.view_chunks() == self.view_chunks()),
    {
        AnyChunkPrevIter { chunk: self.prev() }
    }

    /// Iterates over the chunks after this one.
    pub fn iter_next(self) -> (r: AnyChunkNextIter<'a>)
        ensures
            r.remaining_count() == self.count_after(),
            self.view_index() + 1 == self.view_chunks().len() ==> r.chunk is None,
            self.view_index() + 1 < self.view_chunks().len() ==> (r.chunk matches Some(c) && c.view_index()
                == self.view_index() + 1 && c.view_chunks() == self.view_chunks()),
    {
        proof {
            use_type_invariant(&self);
        }
        AnyChunkNextIter { chunk: self.next() }
    }

    /// The size of the chunk, header included.
    pub fn size(self) -> (r: usize)
        ensures
            r == self.view_raw().spec_size(),
            self.view_raw().wf(),
    {
        proof {
            use_type_invariant(&self);
        }
        self.chunks[self.index].size()
    }

    /// The size of the chunk's content.
    pub fn capacity(self) -> (r: usize)
        ensures
            r == self.view_raw().spec_capacity(),
            self.view_raw().wf(),
    {
        proof {
            use_type_invariant(&self);
        }
        self.chunks[self.index].capacity()
    }

    /// The bytes allocated in this chunk.
    pub fn allocated(self) -> (r: usize)
        ensures
            r == self.view_raw().spec_allocated(),
            self.view_raw().wf(),
    {
        proof {
            use_type_invariant(&self);
        }
        self.chunks[self.index].allocated()
    }

    /// The bytes remaining in this chunk.
    pub fn remaining(self) -> (r: usize)
        ensures
            r == self.view_raw().spec_remaining(),
            self.view_raw().wf(),
    {
        proof {
            use_type_invariant(&self);
        }
        self.chunks[self.index].remaining()
    }

    /// The address where the chunk starts.
    pub fn chunk_start(self) -> (r: usize)
        ensures
            r == self.view_raw().chunk_start,
            self.view_raw().wf(),
    {
        proof {
            use_type_invariant(&self);
        }
        self.chunks[self.index].chunk_start()
    }

    /// The address where the chunk ends.
    pub fn chunk_end(self) -> (r: usize)
        ensures
            r == self.view_raw().chunk_end,
            self.view_raw().wf(),
    {
        proof {
            use_type_invariant(&self);
        }
        self.chunks[self.index].chunk_end()
    }

    /// The address where the content starts.
    pub fn content_start(self) -> (r: usize)
        ensures
            r == self.view_raw().spec_content_start(),
            self.view_raw().wf(),
    {
        proof {
            use_type_invariant(&self);
        }
        self.chunks[self.index].content_start()
    }

    /// The address where the content ends.
    pub fn content_end(self) -> (r: usize)
        ensures
            r == self.view_raw().spec_content_end(),
            self.view_raw().wf(),
    {
        proof {
            use_type_invariant(&self);
        }
        self.chunks[self.index].content_end()
    }

    /// The bump position.
    pub fn bump_position(self) -> (r: usize)
        ensures
            r == self.view_raw().pos,
            self.view_raw().wf(),
    {
        proof {
            use_type_invariant(&self);
        }
        self.chunks[self.index].pos()
    }
}

impl<'a> AnyChunkPrevIter<'a> {
    /// The positions of the chunks the iterator has still to yield, in the
    /// order it yields them: from its chunk down to the first.
    pub open spec fn spec_indices(self) -> Seq<int> {
        match self.chunk {
            Some(c) => Seq::new((c.view_index() + 1) as nat, |k: int| c.view_index() - k),
            None => Seq::empty(),
        }
    }

    /// The chunks of the allocator the iterator walks; empty once it is done.
    pub open spec fn spec_chunks(self) -> Seq<RawChunk> {
        match self.chunk {
            Some(c) => c.view_chunks(),
            None => Seq::empty(),
        }
    }

    /// How many chunks the iterator has still to yield.
    pub open spec fn remaining_count(self) -> int {
        match self.chunk {
            Some(c) => c.count_before() + 1,
            None => 0,
        }
    }

    /// The next chunk: the one this iterator is at, after which it moves to
    /// the chunk before it.
    pub fn next(&mut self) -> (r: Option<AnyChunk<'a>>)
        ensures
            r == old(self).chunk,
            old(self).chunk matches Some(c) ==> (if c.view_index() == 0 {
                final(self).chunk is None
            } else {
                final(self).chunk matches Some(p) && p.view_index() == c.view_index() - 1
                    && p.view_chunks() == c.view_chunks()
            }),
            old(self).chunk is None ==> final(self).chunk is None,
            r is Some <==> old(self).remaining_count() > 0,
            r is Some ==> final(self).remaining_count() == old(self).remaining_count() - 1,
            r is Some <==> old(self).spec_indices().len() > 0,
            r matches Some(c) ==> c.view_index() == old(self).spec_indices()[0] && c.view_chunks()
                == old(self).spec_chunks(),
            r is Some ==> final(self).spec_indices() == old(self).spec_indices().drop_first(),
            r is None ==> final(self).spec_indices().len() == 0,
            final(self).chunk is Some ==> final(self).spec_chunks() == old(self).spec_chunks(),
            r matches Some(c) ==> (final(self).chunk matches Some(p) ==> p.view_raw().spec_size()
                < c.view_raw().spec_size()),
    {
        match self.chunk {
            Some(c) => {
                proof {
                    use_type_invariant(&c);
                }
                let ghost before = *self;
                self.chunk = c.prev();
                proof {
                    assert(self.spec_indices() =~= before.spec_indices().drop_first());
                }
                Some(c)
            },
            None => None,
        }
    }
}

impl<'a> AnyChunkNextIter<'a> {
    /// The positions of the chunks the iterator has still to yield, in the
    /// order it yields them: from its chunk up to the last.
    pub open spec fn spec_indices(self) -> Seq<int> {
        match self.chunk {
            Some(c) => Seq::new((c.view_chunks().len() - c.view_index()) as nat, |k: int| c.view_index() + k),
            None => Seq::empty(),
        }
    }

    /// The chunks of the allocator the iterator walks; empty once it is done.
    pub open spec fn spec_chunks(self) -> Seq<RawChunk> {
        match self.chunk {
            Some(c) => c.view_chunks(),
            None => Seq::empty(),
        }
    }

    /// How many chunks the iterator has still to yield.
    pub open spec fn remaining_count(self) -> int {
        match self.chunk {
            Some(c) => c.count_after() + 1,
            None => 0,
        }
    }

    /// The next chunk: the one this iterator is at, after which it moves to
    /// the chunk after it.
    pub fn next(&mut self) -> (r: Option<AnyChunk<'a>>)
        ensures
            r == old(self).chunk,
            old(self).chunk matches Some(c) ==> (if c.view_index() + 1 == c.view_chunks().len() {
                final(self).chunk is None
            } else {
                final(self).chunk matches Some(p) && p.view_index() == c.view_index() + 1
                    && p.view_chunks() == c.view_chunks()
            }),
            old(self).chunk is None ==> final(self).chunk is None,
            r is Some <==> old(self).remaining_count() > 0,
            r is Some ==> final(self).remaining_count() == old(self).remaining_count() - 1,
            r is Some <==> old(self).spec_indices().len() > 0,
            r matches Some(c) ==> c.view_index() == old(self).spec_indices()[0] && c.view_chunks()
                == old(self).spec_chunks(),
            r is Some ==> final(self).spec_indices() == old(self).spec_indices().drop_first(),
            r is None ==> final(self).spec_indices().len() == 0,
            final(self).chunk is Some ==> final(self).spec_chunks() == old(self).spec_chunks(),
            r matches Some(c) ==> (final(self).chunk matches Some(p) ==> c.view_raw().spec_size()
                < p.view_raw().spec_size()),
    {
        match self.chunk {
            Some(c) => {
                proof {
                    use_type_invariant(&c);
                }
                let ghost before = *self;
                self.chunk = c.next();
                proof {
                    assert(self.spec_indices() =~= before.spec_indices().drop_first());
                }
                Some(c)
            },
            None => None,
        }
    }
}

impl<'a> AnyChunk<'a> {
    /// Whether the chunk bumps upwards.
    pub fn is_upwards_allocating(self) -> (r: bool)
        ensures
            r == self.view_raw().up,
    {
        proof {
            use_type_invariant(&self);
        }
        self.chunks[self.index].is_upwards_allocating()
    }
}

impl<'a> From<Stats<'a>> for AnyStats<'a> {
    fn from(value: Stats<'a>) -> (r: Self)
        ensures
            r.view_current() == value.view_current(),
            r.view_chunks() == (if value.view_current() is Some {
                value.view_chunks()
            } else {
                Seq::<RawChunk>::empty()
            }),
    {
        match value.current {
            Some(i) => {
                proof {
                    use_type_invariant(&value);
                }
                AnyStats { chunk: Some(AnyChunk { chunks: value.chunks, index: i }) }
            },
            None => AnyStats { chunk: None },
        }
    }
}

impl<'a> vstd::std_specs::convert::FromSpecImpl<Stats<'a>> for AnyStats<'a> {
    open spec fn obeys_from_spec() -> bool {
        true
    }

    closed spec fn from_spec(v: Stats<'a>) -> Self {
        AnyStats {
            chunk: match v.current {
                Some(i) => Some(AnyChunk { chunks: v.chunks, index: i }),
                None => None,
            },
        }
    }
}

impl<'a> From<Chunk<'a>> for AnyChunk<'a> {
    fn from(value: Chunk<'a>) -> (r: Self)
        ensures
            r.view_chunks() == value.view_chunks(),
            r.view_index() == value.view_index(),
    {
        proof {
            use_type_invariant(&value);
        }
        AnyChunk { chunks: value.chunks, index: value.index }
    }
}

impl<'a> vstd::std_specs::convert::FromSpecImpl<Chunk<'a>> for AnyChunk<'a> {
    open spec fn obeys_from_spec() -> bool {
        true
    }

    closed spec fn from_spec(v: Chunk<'a>) -> Self {
        AnyChunk { chunks: v.chunks, index: v.index }
    }
}

impl<'a> From<AnyChunk<'a>> for AnyStats<'a> {
    fn from(chunk: AnyChunk<'a>) -> (r: Self)
        ensures
            r.view_chunks() == chunk.view_chunks(),
            r.view_current() == Some(chunk.view_index()),
    {
        AnyStats { chunk: Some(chunk) }
    }
}

impl<'a> vstd::std_specs::convert::FromSpecImpl<AnyChunk<'a>> for AnyStats<'a> {
    open spec fn obeys_from_spec() -> bool {
        true
    }

    closed spec fn from_spec(v: AnyChunk<'a>) -> Self {
        AnyStats { chunk: Some(v) }
    }
}

impl<'a> From<ChunkPrevIter<'a>> for AnyChunkPrevIter<'a> {
    fn from(value: ChunkPrevIter<'a>) -> (r: Self)
        ensures
            value.chunk is None ==> r.chunk is None,
            value.chunk matches Some(c) ==> (r.chunk matches Some(a) && a.view_chunks() == c.view_chunks()
                && a.view_index() == c.view_index()),
    {
        match value.chunk {
            Some(c) => AnyChunkPrevIter { chunk: Some(AnyChunk::from(c)) },
            None => AnyChunkPrevIter { chunk: None },
        }
    }
}

impl<'a> vstd::std_specs::convert::FromSpecImpl<ChunkPrevIter<'a>> for AnyChunkPrevIter<'a> {
    open spec fn obeys_from_spec() -> bool {
        true
    }

    closed spec fn from_spec(v: ChunkPrevIter<'a>) -> Self {
        AnyChunkPrevIter {
            chunk: match v.chunk {
                Some(c) => Some(AnyChunk { chunks: c.chunks, index: c.index }),
                None => None,
            },
        }
    }
}

impl<'a> From<ChunkNextIter<'a>> for AnyChunkNextIter<'a> {
    fn from(value: ChunkNextIter<'a>) -> (r: Self)
        ensures
            value.chunk is None ==> r.chunk is None,
            value.chunk matches Some(c) ==> (r.chunk matches Some(a) && a.view_chunks() == c.view_chunks()
                && a.view_index() == c.view_index()),
    {
        match value.chunk {
            Some(c) => AnyChunkNextIter { chunk: Some(AnyChunk::from(c)) },
            None => AnyChunkNextIter { chunk: None },
        }
    }
}

impl<'a> vstd::std_specs::convert::FromSpecImpl<ChunkNextIter<'a>> for AnyChunkNextIter<'a> {
    open spec fn obeys_from_spec() -> bool {
        true
    }

    closed spec fn from_spec(v: ChunkNextIter<'a>) -> Self {
        AnyChunkNextIter {
            chunk: match v.chunk {
                Some(c) => Some(AnyChunk { chunks: c.chunks, index: c.index }),
                None => None,
            },
        }
    }
}

impl<'a> Default for AnyStats<'a> {
    fn default() -> (r: Self)
        ensures
            r.view_current() is None,
    {
        AnyStats { chunk: None }
    }
}

impl<'a> Default for AnyChunkPrevIter<'a> {
    fn default() -> (r: Self)
        ensures
            r.chunk is None,
    {
        AnyChunkPrevIter { chunk: None }
    }
}

impl<'a> Default for AnyChunkNextIter<'a> {
    fn default() -> (r: Self)
        ensures
            r.chunk is None,
    {
        AnyChunkNextIter { chunk: None }
    }
}

} // verus!
