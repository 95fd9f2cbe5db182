use bump_scope::allocator::BaseAllocator;
use bump_scope::layout::Layout;
use bump_scope::mut_bump_scope_guard::{MutBumpScopeGuard, MutBumpScopeGuardRoot};
use bump_scope::raw_bump::RawBump;
use bump_scope::settings::DefaultSettings;

/// Hands out consecutive, 16-aligned address ranges starting at 64 KiB and
/// counts what is given back.
struct TestAllocator {
    next: usize,
    freed: usize,
}

impl BaseAllocator for TestAllocator {
    fn allocate(&mut self, layout: Layout) -> Option<(usize, usize)> {
        let align = layout.align().max(16);
        let addr = (self.next + align - 1) / align * align;
        self.next = addr + layout.size();
        Some((addr, layout.size()))
    }

    fn deallocate(&mut self, _addr: usize, _layout: Layout) {
        self.freed += 1;
    }
}

type Bump = RawBump<TestAllocator, DefaultSettings>;

fn new_bump() -> Bump {
    RawBump::with_size(512, TestAllocator { next: 0x10000, freed: 0 }).unwrap()
}

fn str_layout(len: usize) -> Layout {
    Layout::from_size_align(len, 1).unwrap()
}

#[test]
fn nested_scope_guards_restore_allocated_bytes() {
    let mut bump = new_bump();
    {
        let mut guard = MutBumpScopeGuard::new(&mut bump);
        guard.scope().allocate(str_layout(5)).unwrap();
        assert_eq!(guard.stats().allocated(), 5);
        {
            let mut inner = MutBumpScopeGuard::new(guard.scope());
            inner.scope().allocate(str_layout(5)).unwrap();
            assert_eq!(inner.stats().allocated(), 10);
            inner.reset();
            assert_eq!(inner.stats().allocated(), 5);
        }
        assert_eq!(guard.stats().allocated(), 5);
        guard.reset();
        assert_eq!(guard.stats().allocated(), 0);
    }
    assert_eq!(bump.stats().allocated(), 0);
}

#[test]
fn scope_reset_keeps_later_chunks() {
    let mut bump = new_bump();
    let capacity = bump.stats().capacity();
    let mut guard = MutBumpScopeGuard::new(&mut bump);
    guard.scope().allocate(str_layout(capacity + 1)).unwrap();
    assert_eq!(guard.stats().count(), 2);
    guard.reset();
    assert_eq!(guard.stats().allocated(), 0);
    assert_eq!(guard.stats().count(), 2);
    assert_eq!(guard.allocator().freed, 0);
}

#[test]
fn checkpoint_reset_to_restores() {
    let mut bump = new_bump();
    bump.allocate(str_layout(3)).unwrap();
    let checkpoint = bump.checkpoint();
    bump.allocate(str_layout(5)).unwrap();
    assert_eq!(bump.stats().allocated(), 8);
    bump.reset_to(checkpoint);
    assert_eq!(bump.stats().allocated(), 3);
}

#[test]
fn root_guard_resets_to_the_last_chunk() {
    let mut bump = new_bump();
    let capacity = bump.stats().capacity();
    {
        let mut root = MutBumpScopeGuardRoot::new(&mut bump);
        root.scope().allocate(str_layout(capacity + 1)).unwrap();
        assert_eq!(root.stats().count(), 2);
        root.reset();
        assert_eq!(root.stats().count(), 1);
        assert_eq!(root.stats().allocated(), 0);
        assert_eq!(root.allocator().freed, 1);
    }
    assert!(bump.stats().capacity() > capacity);
}

#[test]
fn reset_gives_back_all_but_the_last_chunk() {
    let mut bump = new_bump();
    let capacity = bump.stats().capacity();
    bump.allocate(str_layout(capacity)).unwrap();
    bump.allocate(str_layout(capacity)).unwrap();
    assert_eq!(bump.stats().count(), 2);
    bump.reset();
    assert_eq!(bump.stats().count(), 1);
    assert_eq!(bump.stats().allocated(), 0);
    assert_eq!(bump.allocator().freed, 1);
}

#[test]
fn chunks_double_and_reset_keeps_the_largest() {
    let mut bump = new_bump();
    let first = bump.stats().current_chunk().size();
    let capacity = bump.stats().capacity();
    bump.allocate(str_layout(capacity)).unwrap();
    bump.allocate(str_layout(1)).unwrap();
    assert_eq!(bump.stats().count(), 2);
    let second = bump.stats().current_chunk().size();
    assert!(second > first);
    assert!(second + 16 >= 2 * first);
    bump.reset();
    assert_eq!(bump.stats().count(), 1);
    assert_eq!(bump.stats().current_chunk().size(), second);
}

#[test]
fn allocation_moves_on_to_a_later_chunk() {
    let mut bump = new_bump();
    let checkpoint = bump.checkpoint();
    let capacity = bump.stats().capacity();
    bump.allocate(str_layout(capacity)).unwrap();
    bump.allocate(str_layout(100)).unwrap();
    assert_eq!(bump.stats().count(), 2);
    bump.reset_to(checkpoint);
    assert_eq!(bump.stats().allocated(), 0);
    bump.allocate(str_layout(capacity + 1)).unwrap();
    assert_eq!(bump.stats().count(), 2);
    assert_eq!(bump.stats().allocated(), capacity + capacity + 1);
}

#[test]
fn claim_hands_over_chunks_and_base_allocator() {
    let mut bump = new_bump();
    bump.allocate(str_layout(10)).unwrap();
    let mut claimant = bump.claim();
    assert!(bump.is_claimed());
    assert!(bump.allocate(str_layout(1)).is_err());
    assert_eq!(claimant.stats().allocated(), 10);
    claimant.allocate(str_layout(5)).unwrap();
    assert_eq!(claimant.allocator().freed, 0);
    bump.reclaim(claimant);
    assert!(!bump.is_claimed());
    assert_eq!(bump.stats().allocated(), 15);
    assert_eq!(bump.allocator().next >= 0x10000, true);
}
