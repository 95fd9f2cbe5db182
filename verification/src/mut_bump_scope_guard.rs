//! Scopes of a bump allocator: a guard takes the allocator, hands it out for
//! allocation, and returns it to where it was when the guard was made (the
//! root guard: to its initial state) when reset or given up.
use vstd::prelude::*;

verus! {

use crate::allocator::BaseAllocator;
pub use crate::raw_bump::Checkpoint;
use crate::raw_bump::{lemma_reset_to_checkpoint, RawBump};
use crate::settings::BumpAllocatorSettings;
use crate::stats::Stats;

/// A scope of a bump allocator that returns to the checkpoint taken when the
/// scope began. It borrows the allocator for as long as it lives.
pub struct MutBumpScopeGuard<'a, A, S> {
    /// The allocator.
    pub bump: &'a mut RawBump<A, S>,
    /// The checkpoint the scope returns to.
    pub checkpoint: Checkpoint,
    /// The allocator as it was when the scope began.
    pub start: Ghost<RawBump<A, S>>,
}

impl<'a, A: BaseAllocator, S: BumpAllocatorSettings> MutBumpScopeGuard<'a, A, S> {
    /// The invariant: the allocator grew by allocation out of its state when
    /// the scope began, which was not claimed, and the checkpoint is that
    /// state's position.
    pub open spec fn wf(self) -> bool {
        &&& self.bump.wf()
        &&& self.start@.wf()
        &&& !self.start@.spec_claimed()
        &&& self.start@.checkpoint_of(self.checkpoint)
        &&& self.start@.extended_by(*self.bump)
    }

    /// Begins a scope of `bump`, which is not claimed.
    pub fn new(bump: &'a mut RawBump<A, S>) -> (r: Self)
        requires
            old(bump).wf(),
            !old(bump).spec_claimed(),
        ensures
            r.wf(),
            *r.bump == *old(bump),
            r.start@ == *old(bump),
            *final(r.bump) == *final(bump),
    {
        let checkpoint = bump.checkpoint();
        let ghost start = *bump;
        MutBumpScopeGuard { bump, checkpoint, start: Ghost(start) }
    }

    /// The allocator, for allocating within the scope.
    pub fn scope(&mut self) -> (r: &mut RawBump<A, S>)
        ensures
            *r == *old(self).bump,
            *final(self).bump == *final(r),
            *final(final(self).bump) == *final(old(self).bump),
            final(self).checkpoint == old(self).checkpoint,
            final(self).start == old(self).start,
    {
        &mut *self.bump
    }

    /// Returns the allocator to the checkpoint: its current chunk and the
    /// bump position in it are those from when the scope began, and so are
    /// the allocated bytes; the chunks allocated since stay for reuse.
    pub fn reset(&mut self)
        requires
            old(self).wf(),
        ensures
            final(self).wf(),
            final(self).start == old(self).start,
            final(self).checkpoint == old(self).checkpoint,
            *final(final(self).bump) == *final(old(self).bump),
            final(self).bump.spec_chunks() == old(self).bump.reset_to_chunks(old(self).checkpoint),
            final(self).bump.has_chunk() ==> final(self).bump.spec_current() == old(self).bump.reset_to_current(old(self).checkpoint),
            final(self).bump.spec_claimed() == old(self).bump.spec_claimed(),
            final(self).bump.spec_allocator() == old(self).bump.spec_allocator(),
            old(self).start@.has_chunk() ==> {
                &&& final(self).bump.spec_current() == old(self).start@.spec_current()
                &&& final(self).bump.current_chunk() == old(self).start@.current_chunk()
                &&& final(self).bump.allocated_bytes() == old(self).start@.allocated_bytes()
            },
            !old(self).start@.has_chunk() ==> final(self).bump.allocated_bytes() == 0,
    {
        proof {
            lemma_reset_to_checkpoint(self.start@, self.checkpoint, *self.bump);
        }
        let ghost before = *self.bump;
        self.bump.reset_to(self.checkpoint);
        proof {
            lemma_reset_keeps_scope(self.start@, self.checkpoint, before, *self.bump);
        }
    }

    /// Statistics about the allocator's memory use.
    pub fn stats(&self) -> (r: Stats<'_>)
        requires
            self.wf(),
        ensures
            r.view_chunks() == old(self.bump).spec_chunks(),
            r.view_current() == (if old(self.bump).has_chunk() {
                Some(old(self.bump).spec_current())
            } else {
                None::<int>
            }),
    {
        self.bump.stats()
    }

    /// The base allocator.
    pub fn allocator(&self) -> (r: &A)
        requires
            self.wf(),
        ensures
            *r == old(self.bump).spec_allocator(),
    {
        self.bump.allocator()
    }
}

/// Returning to the checkpoint `cp` of `start` keeps every scope that began
/// at or before `start` valid: the allocator after the reset still grew by
/// allocation out of the state each such scope began with.
pub proof fn lemma_reset_keeps_scope<A, S: BumpAllocatorSettings>(
    start: RawBump<A, S>,
    cp: Checkpoint,
    before: RawBump<A, S>,
    after: RawBump<A, S>,
)
    requires
        start.wf(),
        !start.spec_claimed(),
        start.checkpoint_of(cp),
        before.wf(),
        start.extended_by(before),
        after.spec_chunks() == before.reset_to_chunks(cp),
        after.has_chunk() ==> after.spec_current() == before.reset_to_current(cp),
        after.spec_claimed() == before.spec_claimed(),
    ensures
        start.extended_by(after),
{
    lemma_reset_to_checkpoint(start, cp, before);
    assert forall|i: int| 0 <= i < start.spec_chunks().len() implies (#[trigger] start.spec_chunks()[i]).same_region(
        after.spec_chunks()[i],
    ) by {
        assert(start.spec_chunks()[i].same_region(before.spec_chunks()[i]));
    }
    if !start.has_chunk() && after.has_chunk() {
        assert(after.spec_current() == 0);
    }
}

/// Scopes nest: when a scope begins at `inner`, which grew out of the state
/// `outer` an enclosing scope began with, resetting the inner scope keeps
/// the enclosing scope valid, so that it can be reset in turn.
pub proof fn lemma_nested_scopes<A, S: BumpAllocatorSettings>(
    outer: RawBump<A, S>,
    inner: RawBump<A, S>,
    cp: Checkpoint,
    before: RawBump<A, S>,
    after: RawBump<A, S>,
)
    requires
        outer.wf(),
        !outer.spec_claimed(),
        outer.extended_by(inner),
        inner.wf(),
        !inner.spec_claimed(),
        inner.checkpoint_of(cp),
        before.wf(),
        inner.extended_by(before),
        after.spec_chunks() == before.reset_to_chunks(cp),
        after.has_chunk() ==> after.spec_current() == before.reset_to_current(cp),
        after.spec_claimed() == before.spec_claimed(),
    ensures
        outer.extended_by(after),
{
    crate::raw_bump::lemma_extended_by_transitive(outer, inner, before);
    lemma_reset_to_checkpoint(inner, cp, before);
    assert forall|i: int| 0 <= i < outer.spec_chunks().len() implies (#[trigger] outer.spec_chunks()[i]).same_region(
        after.spec_chunks()[i],
    ) by {
        assert(outer.spec_chunks()[i].same_region(before.spec_chunks()[i]));
    }
    assert forall|i: int| 0 <= i < outer.spec_current() && i < outer.spec_chunks().len() implies #[trigger] after.spec_chunks()[i]
        == outer.spec_chunks()[i] by {
        assert(before.spec_chunks()[i] == outer.spec_chunks()[i]);
        if inner.has_chunk() {
            assert(inner.spec_current() >= outer.spec_current());
        }
    }
    if outer.has_chunk() {
        assert(inner.has_chunk());
    }
}

/// A scope of a whole bump allocator: resetting it resets the allocator.
pub struct MutBumpScopeGuardRoot<'a, A, S> {
    /// The allocator.
    pub bump: &'a mut RawBump<A, S>,
}

impl<'a, A: BaseAllocator, S: BumpAllocatorSettings> MutBumpScopeGuardRoot<'a, A, S> {
    /// Begins a scope of all of `bump`.
    pub fn new(bump: &'a mut RawBump<A, S>) -> (r: Self)
        ensures
            *r.bump == *old(bump),
            *final(r.bump) == *final(bump),
    {
        MutBumpScopeGuardRoot { bump }
    }

    /// The allocator, for allocating within the scope.
    pub fn scope(&mut self) -> (r: &mut RawBump<A, S>)
        ensures
            *r == *old(self).bump,
            *final(self).bump == *final(r),
            *final(final(self).bump) == *final(old(self).bump),
    {
        &mut *self.bump
    }

    /// Resets the allocator: only its last chunk stays, with nothing
    /// allocated.
    pub fn reset(&mut self)
        requires
            old(self).bump.wf(),
        ensures
            final(self).bump.wf(),
            *final(final(self).bump) == *final(old(self).bump),
            final(self).bump.spec_claimed() == old(self).bump.spec_claimed(),
            !old(self).bump.has_chunk() ==> final(self).bump.spec_chunks() == old(self).bump.spec_chunks(),
            old(self).bump.has_chunk() ==> {
                let last = old(self).bump.spec_chunks().last();
                &&& final(self).bump.spec_chunks() == seq![last.with_pos(last.spec_empty_pos())]
                &&& final(self).bump.spec_current() == 0
            },
            final(self).bump.allocated_bytes() == 0,
    {
        self.bump.reset();
    }

    /// Statistics about the allocator's memory use.
    pub fn stats(&self) -> (r: Stats<'_>)
        requires
            self.bump.wf(),
        ensures
            r.view_chunks() == old(self.bump).spec_chunks(),
            r.view_current() == (if old(self.bump).has_chunk() {
                Some(old(self.bump).spec_current())
            } else {
                None::<int>
            }),
    {
        self.bump.stats()
    }

    /// The base allocator of an allocator that is not claimed.
    pub fn allocator(&self) -> (r: &A)
        requires
            self.bump.wf(),
            !self.bump.spec_claimed(),
        ensures
            *r == old(self.bump).spec_allocator(),
    {
        self.bump.allocator()
    }
}

} // verus!
