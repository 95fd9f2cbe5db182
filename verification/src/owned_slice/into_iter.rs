//! An iterator that moves the elements of a vector out, from either end.
use vstd::prelude::*;

verus! {

/// The elements not yet handed out, in order.
pub struct IntoIter<T> {
    items: Vec<T>,
}

impl<T> View for IntoIter<T> {
    type V = Seq<T>;

    closed spec fn view(&self) -> Seq<T> {
        self.items@
    }
}

impl<T> IntoIter<T> {
    /// An iterator over the elements of `items`.
    pub fn new(items: Vec<T>) -> (r: Self)
        ensures
            r@ == items@,
    {
        IntoIter { items }
    }

    /// An iterator with no elements.
    pub fn empty() -> (r: Self)
        ensures
            r@ == Seq::<T>::empty(),
    {
        IntoIter { items: Vec::new() }
    }

    /// The number of elements not yet handed out.
    pub fn len(&self) -> (r: usize)
        ensures
            r == self@.len(),
    {
        self.items.len()
    }

    /// Whether all elements were handed out.
    pub fn is_empty(&self) -> (r: bool)
        ensures
            r == (self@.len() == 0),
    {
        self.items.len() == 0
    }

    /// The elements not yet handed out.
    pub fn as_slice(&self) -> (r: &[T])
        ensures
            r@ == self@,
    {
        self.items.as_slice()
    }

    /// The elements not yet handed out, as a vector.
    pub fn into_boxed_slice(self) -> (r: Vec<T>)
        ensures
            r@ == self@,
    {
        self.items
    }

    /// Hands out the first element not yet handed out, if any.
    pub fn next(&mut self) -> (r: Option<T>)
        ensures
            old(self)@.len() == 0 ==> r is None && final(self)@ == old(self)@,
            old(self)@.len() > 0 ==> r == Some(old(self)@[0]) && final(self)@ == old(self)@.drop_first(),
    {
        if self.items.len() == 0 {
            return None;
        }
        let x = self.items.remove(0);
        proof {
            assert(old(self)@.remove(0) =~= old(self)@.drop_first());
        }
        Some(x)
    }

    /// Hands out the last element not yet handed out, if any.
    pub fn next_back(&mut self) -> (r: Option<T>)
        ensures
            old(self)@.len() == 0 ==> r is None && final(self)@ == old(self)@,
            old(self)@.len() > 0 ==> r == Some(old(self)@.last()) && final(self)@ == old(self)@.drop_last(),
    {
        self.items.pop()
    }
}

impl<T> Default for IntoIter<T> {
    fn default() -> (r: Self)
        ensures
            r@ == Seq::<T>::empty(),
    {
        Self::empty()
    }
}

} // verus!
