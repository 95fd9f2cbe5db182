use bump_scope::allocator::BaseAllocator;
use bump_scope::layout::Layout;
use bump_scope::raw_bump::RawBump;
use bump_scope::settings::DefaultSettings;
use bump_scope::stats::any::{AnyChunk, AnyChunkNextIter, AnyChunkPrevIter, AnyStats};
use bump_scope::stats::{Chunk, Stats};

/// Hands out consecutive, 16-aligned address ranges starting at 64 KiB.
struct TestAllocator {
    next: usize,
}

impl TestAllocator {
    fn new() -> Self {
        TestAllocator { next: 0x10000 }
    }
}

impl BaseAllocator for TestAllocator {
    fn allocate(&mut self, layout: Layout) -> Option<(usize, usize)> {
        let align = layout.align().max(16);
        let addr = (self.next + align - 1) / align * align;
        self.next = addr + layout.size();
        Some((addr, layout.size()))
    }

    fn deallocate(&mut self, _addr: usize, _layout: Layout) {}
}

fn new_bump() -> RawBump<TestAllocator, DefaultSettings> {
    RawBump::with_size(512, TestAllocator::new()).unwrap()
}

#[test]
fn check_from_impls() {
    fn accepting_any_stats(_: AnyStats) {}
    fn accepting_any_chunk(_: AnyChunk) {}
    fn accepting_any_chunk_prev_iter(_: AnyChunkPrevIter) {}
    fn accepting_any_chunk_next_iter(_: AnyChunkNextIter) {}

    let bump = new_bump();
    let stats = bump.stats();
    accepting_any_stats(stats.into());
    accepting_any_chunk(stats.get_current_chunk().unwrap().into());
    accepting_any_chunk_next_iter(stats.small_to_big().into());
    accepting_any_chunk_prev_iter(stats.big_to_small().into());
}

#[test]
fn stats_of_a_fresh_bump() {
    let bump = new_bump();
    let stats = bump.stats();
    assert_eq!(stats.count(), 1);
    assert_eq!(stats.allocated(), 0);
    assert_eq!(stats.remaining(), stats.capacity());
    assert!(stats.size() >= 512 - 16);
    let chunk: Chunk = stats.current_chunk();
    assert_eq!(chunk.capacity(), chunk.size() - 32);
    assert_eq!(chunk.content_start(), chunk.chunk_start() + 32);
    assert_eq!(chunk.content_end(), chunk.chunk_end());
    assert_eq!(chunk.bump_position(), chunk.content_start());
    assert!(chunk.prev().is_none());
    assert!(chunk.next().is_none());
}

#[test]
fn allocated_plus_remaining_is_capacity() {
    let mut bump = new_bump();
    let layout = Layout::from_size_align(24, 8).unwrap();
    let addr = bump.allocate(layout).unwrap();
    let stats = bump.stats();
    assert_eq!(stats.allocated(), 24);
    assert_eq!(stats.allocated() + stats.remaining(), stats.capacity());
    assert_eq!(addr % 8, 0);
    let chunk = stats.current_chunk();
    assert_eq!(chunk.bump_position(), addr + 24);
}

#[test]
fn chunks_from_small_to_big() {
    let mut bump = new_bump();
    let first_capacity = bump.stats().capacity();
    let layout = Layout::from_size_align(first_capacity + 1, 1).unwrap();
    bump.allocate(layout).unwrap();
    let stats = bump.stats();
    assert_eq!(stats.count(), 2);
    let mut iter = stats.small_to_big();
    let small = iter.next().unwrap();
    let big = iter.next().unwrap();
    assert!(iter.next().is_none());
    assert!(small.size() < big.size());
    assert_eq!(small.allocated(), 0);
    assert_eq!(stats.allocated(), small.capacity() + first_capacity + 1);
    let mut back = stats.big_to_small();
    assert_eq!(back.next().unwrap().size(), big.size());
    assert_eq!(back.next().unwrap().size(), small.size());
    assert!(back.next().is_none());
    let any: AnyStats = stats.into();
    assert_eq!(any.count(), 2);
    assert_eq!(any.allocated(), stats.allocated());
    let from_chunk: Stats = small.into();
    assert_eq!(from_chunk.count(), 2);
}

fn count_prev(mut iter: bump_scope::stats::ChunkPrevIter) -> usize {
    let mut n = 0;
    while iter.next().is_some() {
        n += 1;
    }
    n
}

fn count_next(mut iter: bump_scope::stats::ChunkNextIter) -> usize {
    let mut n = 0;
    while iter.next().is_some() {
        n += 1;
    }
    n
}

#[test]
fn count_is_current_plus_before_plus_after() {
    let mut bump = new_bump();
    let layout = Layout::from_size_align(bump.stats().capacity() + 1, 1).unwrap();
    bump.allocate(layout).unwrap();
    let layout = Layout::from_size_align(bump.stats().current_chunk().capacity() + 1, 1).unwrap();
    bump.allocate(layout).unwrap();
    let stats = bump.stats();
    assert_eq!(stats.count(), 3);
    let current = stats.current_chunk();
    assert_eq!(stats.count(), 1 + count_prev(current.iter_prev()) + count_next(current.iter_next()));
    assert_eq!(count_next(stats.small_to_big()), stats.count());
    assert_eq!(count_prev(stats.big_to_small()), stats.count());
    let mut iter = stats.small_to_big();
    let mut last_size = 0;
    while let Some(chunk) = iter.next() {
        assert!(chunk.size() > last_size);
        last_size = chunk.size();
    }
}

#[test]
fn chunk_accounting_holds_for_every_chunk() {
    let mut bump = new_bump();
    let layout = Layout::from_size_align(40, 8).unwrap();
    bump.allocate(layout).unwrap();
    let layout = Layout::from_size_align(bump.stats().capacity() + 1, 1).unwrap();
    bump.allocate(layout).unwrap();
    let mut iter = bump.stats().small_to_big();
    while let Some(chunk) = iter.next() {
        assert_eq!(chunk.allocated() + chunk.remaining(), chunk.capacity());
        assert!(chunk.capacity() <= chunk.size());
        assert!(chunk.content_start() <= chunk.bump_position());
        assert!(chunk.bump_position() <= chunk.content_end());
        let any: AnyChunk = chunk.into();
        assert_eq!(any.allocated() + any.remaining(), any.capacity());
        assert!(any.content_start() <= any.bump_position());
    }
}

#[test]
fn any_count_is_current_plus_before_plus_after() {
    let mut bump = new_bump();
    let layout = Layout::from_size_align(bump.stats().capacity() + 1, 1).unwrap();
    bump.allocate(layout).unwrap();
    let any: AnyStats = bump.stats().into();
    assert_eq!(any.count(), 2);
    let current = any.current_chunk().unwrap();
    let mut before = 0;
    let mut prev = current.iter_prev();
    while prev.next().is_some() {
        before += 1;
    }
    let mut after = 0;
    let mut next = current.iter_next();
    while next.next().is_some() {
        after += 1;
    }
    assert_eq!(any.count(), 1 + before + after);
    let mut all = any.small_to_big();
    let first = all.next().unwrap();
    let second = all.next().unwrap();
    assert!(all.next().is_none());
    assert!(first.size() < second.size());
}

#[test]
fn a_new_chunk_is_current_and_at_least_twice_as_large() {
    let mut bump = new_bump();
    let first_size = bump.stats().size();
    let layout = Layout::from_size_align(bump.stats().capacity() + 1, 8).unwrap();
    let addr = bump.allocate(layout).unwrap();
    let stats = bump.stats();
    assert_eq!(stats.count(), 2);
    let current = stats.current_chunk();
    assert!(current.prev().is_some());
    assert!(current.next().is_none());
    assert!(current.size() + bump_scope::chunk_size::ASSUMED_MALLOC_OVERHEAD_SIZE >= 2 * first_size);
    assert_eq!(addr % 8, 0);
    assert!(addr >= current.content_start() && addr + layout.size() <= current.content_end());
}
