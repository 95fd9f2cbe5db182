//! The allocator interface a bump allocator gets its chunks from.
use vstd::prelude::*;

verus! {

use crate::layout::Layout;

/// The error of a failed allocation: the base allocator refused, a size
/// overflowed, a fixed-capacity collection was full, or the bump allocator
/// was claimed.
#[derive(Clone, Copy, PartialEq, Eq, Debug, Structural)]
pub struct AllocError;

/// A source of memory blocks, implemented by the users of the bump allocator.
///
/// Nothing is assumed of what an implementation returns: the bump allocator
/// checks every returned block (non-null, aligned, at least as long as
/// requested, not wrapping around the address space, not overlapping its
/// other chunks) and treats a block that fails a check as a failed
/// allocation.
pub trait BaseAllocator {
    /// Allocates a block for `layout`, returning its start address and its
    /// length, which may exceed the requested size.
    fn allocate(&mut self, layout: Layout) -> Option<(usize, usize)>;

    /// Gives back a block that `allocate` returned, with the layout it is
    /// used with.
    fn deallocate(&mut self, addr: usize, layout: Layout);
}

} // verus!
