//! The chunks of a bump allocator as a sequence, ordered from the first and
//! smallest to the last and largest, and the statistics computed over it.
use vstd::prelude::*;

verus! {

use crate::chunk_size::CHUNK_HEADER_SIZE;
use crate::raw_chunk::RawChunk;

/// Each chunk is well formed for the bump direction and minimum alignment,
/// with the standard header.
pub open spec fn chunk_ok(c: RawChunk, up: bool, min_align: usize) -> bool {
    &&& c.aligned_wf(min_align)
    &&& c.up == up
    &&& c.header_size == CHUNK_HEADER_SIZE
    &&& c.spec_size() <= isize::MAX - 15
}

/// Two chunks' memory does not overlap.
pub open spec fn regions_disjoint(a: RawChunk, b: RawChunk) -> bool {
    a.chunk_end <= b.chunk_start || b.chunk_end <= a.chunk_start
}

/// The sum of the chunk sizes in `lo..hi`.
pub open spec fn sum_size(cs: Seq<RawChunk>, lo: int, hi: int) -> int
    decreases hi - lo,
{
    if lo >= hi {
        0
    } else {
        sum_size(cs, lo, hi - 1) + cs[hi - 1].spec_size()
    }
}

/// The sum of the chunk capacities in `lo..hi`.
pub open spec fn sum_capacity(cs: Seq<RawChunk>, lo: int, hi: int) -> int
    decreases hi - lo,
{
    if lo >= hi {
        0
    } else {
        sum_capacity(cs, lo, hi - 1) + cs[hi - 1].spec_capacity()
    }
}

/// The sum of what remains in the chunks in `lo..hi`, each as its bump
/// position has it.
pub open spec fn sum_remaining(cs: Seq<RawChunk>, lo: int, hi: int) -> int
    decreases hi - lo,
{
    if lo >= hi {
        0
    } else {
        sum_remaining(cs, lo, hi - 1) + cs[hi - 1].spec_remaining()
    }
}

/// Each chunk is larger than the chunks before it.
pub open spec fn sizes_increase(cs: Seq<RawChunk>) -> bool {
    forall|i: int, j: int| 0 <= i < j < cs.len() ==> (#[trigger] cs[i]).spec_size() < (#[trigger] cs[j]).spec_size()
}

/// The invariant of a chunk sequence: every chunk is well formed, no two
/// overlap, each is larger than the ones before it, and their sizes add up
/// to at most `usize::MAX`.
pub open spec fn chunks_wf(cs: Seq<RawChunk>, up: bool, min_align: usize) -> bool {
    &&& forall|i: int| 0 <= i < cs.len() ==> chunk_ok(#[trigger] cs[i], up, min_align)
    &&& forall|i: int, j: int|
        0 <= i < cs.len() && 0 <= j < cs.len() && i != j ==> regions_disjoint(
            #[trigger] cs[i],
            #[trigger] cs[j],
        )
    &&& sizes_increase(cs)
    &&& sum_size(cs, 0, cs.len() as int) <= usize::MAX
}

/// Bytes allocated: the capacities of the chunks before the current one,
/// which count as full, plus what is allocated in the current one.
pub open spec fn spec_allocated(cs: Seq<RawChunk>, cur: int) -> int {
    sum_capacity(cs, 0, cur) + cs[cur].spec_allocated()
}

/// Bytes remaining: what remains in the current chunk plus the capacities
/// of the chunks after it.
pub open spec fn spec_remaining(cs: Seq<RawChunk>, cur: int) -> int {
    cs[cur].spec_remaining() + sum_capacity(cs, cur + 1, cs.len() as int)
}

/// Whether `addr` belongs to memory that is in use: the content of a chunk
/// before the current one, or the allocated range of the current one.
pub open spec fn live_contains(cs: Seq<RawChunk>, cur: int, addr: int) -> bool {
    ||| exists|i: int|
        0 <= i < cur && #[trigger] cs[i].spec_content_start() <= addr < cs[i].spec_content_end()
    ||| (0 <= cur < cs.len() && cs[cur].spec_allocated_range().0 <= addr
        < cs[cur].spec_allocated_range().1)
}

/// Sums over well-formed chunks are not negative, and no chunk's capacity
/// exceeds its size.
pub proof fn lemma_sum_nonneg(cs: Seq<RawChunk>, lo: int, hi: int)
    requires
        forall|i: int| lo <= i < hi ==> (#[trigger] cs[i]).wf(),
    ensures
        0 <= sum_capacity(cs, lo, hi) <= sum_size(cs, lo, hi),
    decreases hi - lo,
{
    if lo < hi {
        lemma_sum_nonneg(cs, lo, hi - 1);
        assert(cs[hi - 1].wf());
    }
}

/// Sums over adjacent ranges add up.
pub proof fn lemma_sum_split(cs: Seq<RawChunk>, lo: int, mid: int, hi: int)
    requires
        lo <= mid <= hi,
    ensures
        sum_size(cs, lo, hi) == sum_size(cs, lo, mid) + sum_size(cs, mid, hi),
        sum_capacity(cs, lo, hi) == sum_capacity(cs, lo, mid) + sum_capacity(cs, mid, hi),
    decreases hi - mid,
{
    if mid < hi {
        lemma_sum_split(cs, lo, mid, hi - 1);
    }
}

/// Sums depend only on the chunk regions, not on the bump positions.
pub proof fn lemma_sum_same_regions(a: Seq<RawChunk>, b: Seq<RawChunk>, lo: int, hi: int)
    requires
        forall|i: int| lo <= i < hi ==> (#[trigger] a[i]).same_region(b[i]),
    ensures
        sum_size(a, lo, hi) == sum_size(b, lo, hi),
        sum_capacity(a, lo, hi) == sum_capacity(b, lo, hi),
    decreases hi - lo,
{
    if lo < hi {
        lemma_sum_same_regions(a, b, lo, hi - 1);
        assert(a[hi - 1].same_region(b[hi - 1]));
    }
}

/// In a well-formed sequence, every partial sum fits in a `usize`.
pub proof fn lemma_sums_bounded(cs: Seq<RawChunk>, up: bool, min_align: usize, lo: int, hi: int)
    requires
        chunks_wf(cs, up, min_align),
        0 <= lo <= hi <= cs.len(),
    ensures
        0 <= sum_capacity(cs, lo, hi) <= sum_size(cs, lo, hi) <= usize::MAX,
{
    assert forall|i: int| 0 <= i < cs.len() implies (#[trigger] cs[i]).wf() by {
        assert(chunk_ok(cs[i], up, min_align));
    }
    lemma_sum_nonneg(cs, lo, hi);
    lemma_sum_nonneg(cs, 0, lo);
    lemma_sum_nonneg(cs, hi, cs.len() as int);
    lemma_sum_split(cs, 0, lo, hi);
    lemma_sum_split(cs, 0, hi, cs.len() as int);
}

/// Replacing a chunk by one with the same region keeps the sequence well
/// formed and its sums unchanged.
pub proof fn lemma_update_keeps_wf(cs: Seq<RawChunk>, up: bool, min_align: usize, i: int, c: RawChunk)
    requires
        chunks_wf(cs, up, min_align),
        0 <= i < cs.len(),
        c.same_region(cs[i]),
        chunk_ok(c, up, min_align),
    ensures
        chunks_wf(cs.update(i, c), up, min_align),
        sum_size(cs.update(i, c), 0, cs.len() as int) == sum_size(cs, 0, cs.len() as int),
{
    let ns = cs.update(i, c);
    assert forall|j: int| 0 <= j < cs.len() implies (#[trigger] ns[j]).same_region(cs[j]) by {}
    lemma_sum_same_regions(ns, cs, 0, cs.len() as int);
    assert forall|a: int, b: int|
        0 <= a < ns.len() && 0 <= b < ns.len() && a != b implies regions_disjoint(
        #[trigger] ns[a],
        #[trigger] ns[b],
    ) by {
        assert(regions_disjoint(cs[a], cs[b]));
    }
    assert forall|a: int, b: int| 0 <= a < b < ns.len() implies (#[trigger] ns[a]).spec_size() < (
    #[trigger] ns[b]).spec_size() by {
        assert(ns[a].same_region(cs[a]));
        assert(ns[b].same_region(cs[b]));
        assert(cs[a].spec_size() < cs[b].spec_size());
    }
}

/// Appending a chunk that does not overlap the others, and whose size still
/// fits, keeps the sequence well formed.
pub proof fn lemma_push_keeps_wf(cs: Seq<RawChunk>, up: bool, min_align: usize, c: RawChunk)
    requires
        chunks_wf(cs, up, min_align),
        chunk_ok(c, up, min_align),
        forall|i: int| 0 <= i < cs.len() ==> regions_disjoint(#[trigger] cs[i], c),
        cs.len() > 0 ==> cs.last().spec_size() < c.spec_size(),
        sum_size(cs, 0, cs.len() as int) + c.spec_size() <= usize::MAX,
    ensures
        chunks_wf(cs.push(c), up, min_align),
        sum_size(cs.push(c), 0, cs.len() as int + 1) == sum_size(cs, 0, cs.len() as int) + c.spec_size(),
        sum_capacity(cs.push(c), 0, cs.len() as int) == sum_capacity(cs, 0, cs.len() as int),
        sum_size(cs.push(c), 0, cs.len() as int) == sum_size(cs, 0, cs.len() as int),
{
    let ns = cs.push(c);
    assert forall|j: int| 0 <= j < cs.len() implies (#[trigger] ns[j]).same_region(cs[j]) by {}
    lemma_sum_same_regions(ns, cs, 0, cs.len() as int);
    assert forall|a: int, b: int|
        0 <= a < ns.len() && 0 <= b < ns.len() && a != b implies regions_disjoint(
        #[trigger] ns[a],
        #[trigger] ns[b],
    ) by {
        if a < cs.len() && b < cs.len() {
            assert(regions_disjoint(cs[a], cs[b]));
        } else if a < cs.len() {
            assert(regions_disjoint(cs[a], c));
        } else {
            assert(regions_disjoint(cs[b], c));
        }
    }
    assert forall|a: int, b: int| 0 <= a < b < ns.len() implies (#[trigger] ns[a]).spec_size() < (
    #[trigger] ns[b]).spec_size() by {
        if b == cs.len() {
            if a < cs.len() - 1 {
                assert(cs[a].spec_size() < cs[cs.len() - 1].spec_size());
            }
        } else {
            assert(cs[a].spec_size() < cs[b].spec_size());
        }
    }
}

/// Memory in use stays in use when the current chunk moves forward or its
/// allocated range grows, as long as the regions stay and the chunks before
/// the old current one are untouched.
pub proof fn lemma_live_preserved(
    old_cs: Seq<RawChunk>,
    old_cur: int,
    new_cs: Seq<RawChunk>,
    new_cur: int,
    up: bool,
    min_align: usize,
    addr: int,
)
    requires
        chunks_wf(old_cs, up, min_align),
        0 <= old_cur < old_cs.len() <= new_cs.len(),
        old_cur <= new_cur < new_cs.len(),
        forall|i: int| 0 <= i < old_cs.len() ==> (#[trigger] old_cs[i]).same_region(new_cs[i]),
        new_cur == old_cur ==> {
            &&& new_cs[old_cur].spec_allocated_range().0 <= old_cs[old_cur].spec_allocated_range().0
            &&& old_cs[old_cur].spec_allocated_range().1 <= new_cs[old_cur].spec_allocated_range().1
        },
        live_contains(old_cs, old_cur, addr),
    ensures
        live_contains(new_cs, new_cur, addr),
{
    assert(chunk_ok(old_cs[old_cur], up, min_align));
    if exists|i: int|
        0 <= i < old_cur && #[trigger] old_cs[i].spec_content_start() <= addr
            < old_cs[i].spec_content_end() {
        let i = choose|i: int|
            0 <= i < old_cur && #[trigger] old_cs[i].spec_content_start() <= addr
                < old_cs[i].spec_content_end();
        assert(old_cs[i].same_region(new_cs[i]));
        assert(0 <= i < new_cur && new_cs[i].spec_content_start() <= addr < new_cs[i].spec_content_end());
    } else if new_cur > old_cur {
        assert(old_cs[old_cur].same_region(new_cs[old_cur]));
        assert(0 <= old_cur < new_cur && new_cs[old_cur].spec_content_start() <= addr
            < new_cs[old_cur].spec_content_end());
    }
}

/// An allocation inside the free range of the current chunk, or inside a
/// chunk after it, overlaps no memory in use.
pub proof fn lemma_alloc_not_live(
    cs: Seq<RawChunk>,
    cur: int,
    k: int,
    ptr: int,
    size: int,
    up: bool,
    min_align: usize,
    addr: int,
)
    requires
        chunks_wf(cs, up, min_align),
        0 <= cur <= k < cs.len(),
        k == cur ==> cs[cur].spec_remaining_range().0 <= ptr && ptr + size
            <= cs[cur].spec_remaining_range().1,
        k > cur ==> cs[k].spec_content_start() <= ptr && ptr + size <= cs[k].spec_content_end(),
        ptr <= addr < ptr + size,
    ensures
        !live_contains(cs, cur, addr),
{
    assert(chunk_ok(cs[k], up, min_align));
    assert(chunk_ok(cs[cur], up, min_align));
    assert forall|i: int|
        0 <= i < cur implies !(#[trigger] cs[i].spec_content_start() <= addr
        < cs[i].spec_content_end()) by {
        assert(regions_disjoint(cs[i], cs[k]));
        assert(chunk_ok(cs[i], up, min_align));
    }
    if k > cur {
        assert(regions_disjoint(cs[cur], cs[k]));
    }
}

} // verus!
