//! An iterator that moves the elements of a vector out, from either end,
//! while keeping the allocator the vector borrowed.
use vstd::prelude::*;

verus! {

/// The elements not yet handed out, in order, and the allocator they were
/// kept in.
pub struct IntoIter<T, A> {
    /// The elements not yet handed out.
    pub items: Vec<T>,
    /// The allocator, held until the iterator is dropped.
    pub allocator: A,
}

impl<T, A> IntoIter<T, A> {
    /// An iterator over `items` that holds `allocator`.
    pub fn new(items: Vec<T>, allocator: A) -> (r: Self)
        ensures
            r.items@ == items@,
            r.allocator == allocator,
    {
        IntoIter { items, allocator }
    }

    /// The number of elements not yet handed out.
    pub fn len(&self) -> (r: usize)
        ensures
            r == self.items@.len(),
    {
        self.items.len()
    }

    /// Whether all elements were handed out.
    pub fn is_empty(&self) -> (r: bool)
        ensures
            r == (self.items@.len() == 0),
    {
        self.items.len() == 0
    }

    /// The elements not yet handed out.
    pub fn as_slice(&self) -> (r: &[T])
        ensures
            r@ == self.items@,
    {
        self.items.as_slice()
    }

    /// Hands out the first element not yet handed out, if any.
    pub fn next(&mut self) -> (r: Option<T>)
        ensures
            final(self).allocator == old(self).allocator,
            old(self).items@.len() == 0 ==> r is None && final(self).items@ == old(self).items@,
            old(self).items@.len() > 0 ==> r == Some(old(self).items@[0]) && final(self).items@ == old(
                self,
            ).items@.drop_first(),
    {
        if self.items.len() == 0 {
            return None;
        }
        let x = self.items.remove(0);
        proof {
            assert(old(self).items@.remove(0) =~= old(self).items@.drop_first());
        }
        Some(x)
    }

    /// Hands out the last element not yet handed out, if any.
    pub fn next_back(&mut self) -> (r: Option<T>)
        ensures
            final(self).allocator == old(self).allocator,
            old(self).items@.len() == 0 ==> r is None && final(self).items@ == old(self).items@,
            old(self).items@.len() > 0 ==> r == Some(old(self).items@.last()) && final(self).items@ == old(
                self,
            ).items@.drop_last(),
    {
        self.items.pop()
    }
}

} // verus!
