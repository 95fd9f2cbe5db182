//! A growable vector whose elements are added at the front, in room that is
//! prepared in a mutably borrowed bump allocator without moving its bump
//! position.
//!
//! The room is prepared in the current chunk's free range (or in a later
//! chunk), at an address aligned for the elements, and the vector grows by
//! preparing larger room: at least twice the capacity, the required length,
//! and a small minimum. [`MutBumpVecRev::into_boxed_slice`] finally
//! allocates the elements' room in the bump allocator.
use vstd::prelude::*;

verus! {

use crate::allocator::{AllocError, BaseAllocator};
use crate::fixed_bump_vec::{array_into_vec, array_views, flatten_arrays};
use crate::mut_bump_vec::into_iter::IntoIter;
use crate::range::{range_end, range_in_bounds, range_start, slice_range, Bound};
use crate::raw_bump::RawBump;
use crate::settings::BumpAllocatorSettings;
use crate::{min_non_zero_cap, spec_min_non_zero_cap};
use crate::align::{lemma_aligned_to_smaller_pow2, lemma_round_up, round_up};
use crate::chunk_list::chunk_ok;
use crate::layout::Layout;
use crate::raw_chunk::{lemma_pow2_16, lemma_round_down_bounded, lemma_round_up_bounded, RawChunk};
use vstd::layout::{align_of, size_of};

/// The capacity growing by `additional` elements asks for at least: twice
/// the capacity, the length plus `additional`, and the minimum non-zero
/// capacity for elements of `size` bytes, whichever is largest.
pub open spec fn grow_amortized_capacity(len: int, cap: int, additional: int, size: int) -> int {
    let required = len + additional;
    let doubled = 2 * cap;
    let m = if doubled > required { doubled } else { required };
    let min = spec_min_non_zero_cap(size);
    if m > min { m } else { min }
}

/// Popping what was pushed gives it back and restores the elements: a push
/// puts the value at the front and a pop takes the front.
pub proof fn lemma_pop_undoes_push<T>(s: Seq<T>, v: T)
    ensures
        (seq![v] + s).len() > 0,
        (seq![v] + s)[0] == v,
        (seq![v] + s).drop_first() == s,
{
    assert((seq![v] + s).drop_first() =~= s);
}

/// Room for `cap` elements of `T` at `ptr` in the free range of chunk `c`:
/// `ptr` is aligned for `T` and the room lies within the free range.
pub open spec fn room_at<T>(c: RawChunk, ptr: int, cap: int) -> bool {
    &&& ptr % (align_of::<T>() as int) == 0
    &&& c.spec_remaining_range().0 <= ptr
    &&& ptr + cap * size_of::<T>() <= c.spec_remaining_range().1
}

/// Prepared room for `cap` elements holds an allocation of `len <= cap` of
/// them: bumping in the chunk where the room is succeeds.
pub proof fn lemma_room_fits<T>(c: RawChunk, min_align: usize, p: int, cap: int, len: int)
    requires
        c.aligned_wf(min_align),
        crate::settings::supported_min_align(min_align),
        room_at::<T>(c, p, cap),
        0 <= len <= cap,
        size_of::<T>() * len <= usize::MAX,
        align_of::<T>() <= usize::MAX,
    ensures
        c.spec_alloc(min_align, (size_of::<T>() * len) as usize, align_of::<T>() as usize) is Some,
{
    broadcast use vstd::layout::align_properties, vstd::layout::align_nonzero;

    crate::settings::lemma_supported_min_align(min_align);
    let s = size_of::<T>() as int;
    let sz = s * len;
    let capb = s * cap;
    assert(0 <= sz <= capb) by (nonlinear_arith)
        requires
            0 <= len <= cap,
            0 <= s,
            sz == s * len,
            capb == s * cap,
    ;
    assert(capb == cap * size_of::<T>());
    let align = align_of::<T>() as int;
    lemma_pow2_16();
    lemma_aligned_to_smaller_pow2(c.spec_content_start(), 16, min_align as int);
    lemma_aligned_to_smaller_pow2(c.spec_content_end(), 16, min_align as int);
    if c.up {
        let ptr0 = round_up(c.pos as int, align);
        lemma_round_up_bounded(c.pos as int, align, p);
        lemma_round_up(c.pos as int, align);
        lemma_round_up_bounded(ptr0 + sz, min_align as int, c.spec_content_end());
    } else {
        let x = c.pos - sz;
        if align >= min_align {
            lemma_round_down_bounded(x, align, p);
        } else {
            lemma_round_down_bounded(x, min_align as int, c.spec_content_start());
        }
    }
}

/// Room for `cap` elements of `T` can be prepared in `bump` without asking
/// its base allocator: the array's layout is valid, and the array fits in the
/// free range of the current chunk or, once reset, of a later chunk.
pub open spec fn room_available<T, A, S: BumpAllocatorSettings>(bump: RawBump<A, S>, cap: int) -> bool {
    let l = Layout::spec_array::<T>(cap);
    &&& 0 <= cap <= usize::MAX
    &&& crate::layout::layout_ok(size_of::<T>() * cap, align_of::<T>() as int)
    &&& !bump.spec_claimed()
    &&& bump.has_chunk()
    &&& (RawBump::<A, S>::fits(bump.current_chunk(), l, true) || bump.later_fits(l, true))
}

/// A vector that grows at its front, in room prepared in the bump allocator
/// it borrows.
pub struct MutBumpVecRev<'a, T, A, S> {
    /// The bump allocator the room is prepared in.
    pub bump: &'a mut RawBump<A, S>,
    /// The elements, from the front.
    pub items: Vec<T>,
    /// The number of elements the prepared room holds.
    pub cap: usize,
}

impl<'a, T, A, S: BumpAllocatorSettings> MutBumpVecRev<'a, T, A, S> {
    /// The elements, from the front.
    pub open spec fn spec_items(self) -> Seq<T> {
        self.items@
    }

    /// The number of elements the prepared room holds.
    pub open spec fn spec_capacity(self) -> nat {
        self.cap as nat
    }

    /// The invariant: the allocator is well formed, the elements fit in the
    /// capacity, a zero-sized `T` has capacity `usize::MAX`, and the room's
    /// size fits in an `isize`.
    pub open spec fn wf(self) -> bool {
        &&& self.bump.wf()
        &&& self.spec_items().len() <= self.spec_capacity()
        &&& size_of::<T>() == 0 ==> self.spec_capacity() == usize::MAX
        &&& size_of::<T>() * self.spec_capacity() <= isize::MAX
    }

    /// Making room for `additional` more elements succeeds without asking the
    /// base allocator: they fit in the spare capacity, or the vector can grow
    /// to [`grow_amortized_capacity`] in room that is available
    /// ([`room_available`]).
    pub open spec fn growth_owed(self, additional: int) -> bool {
        ||| additional <= self.spec_capacity() - self.spec_items().len()
        ||| {
            &&& size_of::<T>() != 0
            &&& self.spec_items().len() + additional <= usize::MAX
            &&& room_available::<T, A, S>(
                *self.bump,
                grow_amortized_capacity(
                    self.spec_items().len() as int,
                    self.spec_capacity() as int,
                    additional,
                    size_of::<T>() as int,
                ),
            )
        }
    }

    /// Making room for exactly `additional` more elements succeeds without
    /// asking the base allocator: they fit in the spare capacity, or room for
    /// the length plus `additional` is available ([`room_available`]).
    pub open spec fn exact_growth_owed(self, additional: int) -> bool {
        ||| additional <= self.spec_capacity() - self.spec_items().len()
        ||| {
            &&& size_of::<T>() != 0
            &&& self.spec_items().len() + additional <= usize::MAX
            &&& room_available::<T, A, S>(*self.bump, self.spec_items().len() + additional)
        }
    }

    /// For a `T` that is not zero-sized, room for the capacity is free in the
    /// allocator's current chunk, at an address aligned for `T`.
    pub open spec fn room_prepared(self) -> bool {
        size_of::<T>() != 0 && self.spec_capacity() > 0 ==> {
            &&& self.bump.has_chunk()
            &&& exists|p: int| #[trigger] room_at::<T>(self.bump.current_chunk(), p, self.spec_capacity() as int)
        }
    }
}

impl<'a, T, A: BaseAllocator, S: BumpAllocatorSettings> MutBumpVecRev<'a, T, A, S> {
    /// An empty vector without room (`usize::MAX` for a zero-sized `T`).
    pub fn new_in(bump: &'a mut RawBump<A, S>) -> (r: Self)
        requires
            old(bump).wf(),
        ensures
            r.wf(),
            r.room_prepared(),
            r.spec_items() == Seq::<T>::empty(),
            r.spec_capacity() == (if size_of::<T>() == 0 { usize::MAX as nat } else { 0 }),
            *r.bump == *old(bump),
            *final(r.bump) == *final(bump),
    {
        if core::mem::size_of::<T>() == 0 {
            proof {
                assert(size_of::<T>() * usize::MAX == 0) by (nonlinear_arith)
                    requires
                        size_of::<T>() == 0,
                ;
            }
            MutBumpVecRev { bump, items: Vec::new(), cap: usize::MAX }
        } else {
            MutBumpVecRev { bump, items: Vec::new(), cap: 0 }
        }
    }

    /// An empty vector with room for at least `capacity` elements prepared in
    /// `bump`. Nothing is prepared for a zero-sized `T` or a capacity of 0;
    /// otherwise this fails when the room cannot be prepared.
    pub fn try_with_capacity_in(capacity: usize, bump: &'a mut RawBump<A, S>) -> (r: Result<Self, AllocError>)
        requires
            old(bump).wf(),
        ensures
            r matches Ok(v) ==> {
                &&& v.wf()
                &&& v.room_prepared()
                &&& v.spec_items() == Seq::<T>::empty()
                &&& v.spec_capacity() >= capacity
                &&& size_of::<T>() == 0 ==> v.spec_capacity() == usize::MAX
                &&& capacity == 0 && size_of::<T>() != 0 ==> v.spec_capacity() == 0
                &&& old(bump).extended_by(*v.bump)
                &&& *final(v.bump) == *final(bump)
            },
            size_of::<T>() == 0 || capacity == 0 ==> r is Ok,
            room_available::<T, A, S>(*old(bump), capacity as int) ==> r is Ok,
            r is Err ==> old(bump).extended_by(*final(bump)),
    {
        if core::mem::size_of::<T>() == 0 || capacity == 0 {
            let r = Self::new_in(bump);
            proof {
                crate::raw_bump::lemma_extended_by_refl(*old(bump));
            }
            return Ok(r);
        }
        let (ptr, cap) = bump.prepare_slice_allocation::<T>(capacity)?;
        proof {
            assert(size_of::<T>() * cap <= isize::MAX) by (nonlinear_arith)
                requires
                    cap * size_of::<T>() <= isize::MAX,
            ;
            assert(room_at::<T>(bump.current_chunk(), ptr as int, cap as int));
        }
        Ok(MutBumpVecRev { bump, items: Vec::new(), cap })
    }

    /// A vector of `count` values with room prepared in `bump`: `value`
    /// itself at the front, then `count - 1` clones of it. Fails when the
    /// room cannot be prepared.
    pub fn try_from_elem_in(value: T, count: usize, bump: &'a mut RawBump<A, S>) -> (r: Result<Self, AllocError>) where
        T: Clone,
        requires
            old(bump).wf(),
        ensures
            r matches Ok(v) ==> {
                &&& v.wf()
                &&& v.room_prepared()
                &&& v.spec_items().len() == count
                &&& count > 0 ==> v.spec_items()[0] == value
                &&& forall|i: int| 1 <= i < count ==> cloned::<T>(value, #[trigger] v.spec_items()[i])
                &&& v.spec_capacity() >= count
                &&& old(bump).extended_by(*v.bump)
                &&& *final(v.bump) == *final(bump)
            },
            size_of::<T>() == 0 || count == 0 ==> r is Ok,
            room_available::<T, A, S>(*old(bump), count as int) ==> r is Ok,
            r is Err ==> old(bump).extended_by(*final(bump)),
    {
        let mut v = Self::try_with_capacity_in(count, bump)?;
        let res = v.extend_with(count, value);
        proof {
            assert(res is Ok);
            assert(v.spec_items().subrange(count as int, count as int) == Seq::<T>::empty());
        }
        Ok(v)
    }

    /// A vector holding the elements of `array`, in order, with room
    /// prepared in `bump`. Fails when the room cannot be prepared.
    pub fn try_from_array_in<const N: usize>(array: [T; N], bump: &'a mut RawBump<A, S>) -> (r: Result<Self, AllocError>)
        requires
            old(bump).wf(),
        ensures
            r matches Ok(v) ==> {
                &&& v.wf()
                &&& v.room_prepared()
                &&& v.spec_items() == array@
                &&& v.spec_capacity() >= N
                &&& old(bump).extended_by(*v.bump)
                &&& *final(v.bump) == *final(bump)
            },
            size_of::<T>() == 0 || N == 0 ==> r is Ok,
            room_available::<T, A, S>(*old(bump), N as int) ==> r is Ok,
            r is Err ==> old(bump).extended_by(*final(bump)),
    {
        let mut v = Self::try_with_capacity_in(N, bump)?;
        let items = array_into_vec(array);
        v.prepend(items);
        Ok(v)
    }

    /// A vector holding the elements of `iter` in reverse order, each put at
    /// the front in turn, with room for all of them prepared in `bump`.
    /// Fails when the room cannot be prepared.
    pub fn try_from_iter_in(iter: Vec<T>, bump: &'a mut RawBump<A, S>) -> (r: Result<Self, AllocError>)
        requires
            old(bump).wf(),
        ensures
            r matches Ok(v) ==> {
                &&& v.wf()
                &&& v.room_prepared()
                &&& v.spec_items() == iter@.reverse()
                &&& v.spec_capacity() >= iter@.len()
                &&& old(bump).extended_by(*v.bump)
                &&& *final(v.bump) == *final(bump)
            },
            size_of::<T>() == 0 || iter@.len() == 0 ==> r is Ok,
            room_available::<T, A, S>(*old(bump), iter@.len() as int) ==> r is Ok,
            r is Err ==> old(bump).extended_by(*final(bump)),
    {
        let mut v = Self::try_with_capacity_in(iter.len(), bump)?;
        let ghost items = iter@;
        let mut rest = iter;
        let mut front: Vec<T> = Vec::new();
        while rest.len() > 0
            invariant
                rest@ == items.take(rest@.len() as int),
                rest@.len() <= items.len(),
                front@ == items.subrange(rest@.len() as int, items.len() as int).reverse(),
            decreases rest@.len(),
        {
            let ghost k = rest@.len() as int;
            let x = rest.pop().unwrap();
            proof {
                assert(items.subrange(k - 1, items.len() as int) == seq![x] + items.subrange(k, items.len() as int));
                assert(items.subrange(k - 1, items.len() as int).reverse() =~= items.subrange(
                    k,
                    items.len() as int,
                ).reverse().push(x));
            }
            front.push(x);
        }
        proof {
            assert(items.subrange(0, items.len() as int) == items);
        }
        v.prepend(front);
        Ok(v)
    }

    /// The number of elements the prepared room holds.
    pub fn capacity(&self) -> (r: usize)
        ensures
            r == self.spec_capacity(),
    {
        self.cap
    }

    /// The number of elements.
    pub fn len(&self) -> (r: usize)
        ensures
            r == self.spec_items().len(),
    {
        self.items.len()
    }

    /// Whether there are no elements.
    pub fn is_empty(&self) -> (r: bool)
        ensures
            r == (self.spec_items().len() == 0),
    {
        self.items.len() == 0
    }

    /// An iterator that moves the elements out, from the front, and holds the
    /// allocator until it is dropped.
    pub fn into_iter(self) -> (r: IntoIter<T, &'a mut RawBump<A, S>>)
        ensures
            r.items@ == self.spec_items(),
            *r.allocator == *old(self.bump),
            *final(r.allocator) == *final(self.bump),
    {
        IntoIter::new(self.items, self.bump)
    }

    /// The elements, from the front.
    pub fn as_slice(&self) -> (r: &[T])
        ensures
            r@ == self.spec_items(),
    {
        self.items.as_slice()
    }

    /// Allocates the elements' room in the bump allocator, in the current
    /// chunk where it was prepared, and hands out the elements. Nothing is
    /// allocated for a zero-sized `T` or an empty vector.
    pub fn into_boxed_slice(self) -> (r: Vec<T>)
        requires
            self.wf(),
            self.room_prepared(),
        ensures
            r@ == self.spec_items(),
            size_of::<T>() == 0 || self.spec_items().len() == 0 ==> *final(self.bump) == *old(self.bump),
            size_of::<T>() != 0 && self.spec_items().len() > 0 ==> exists|ptr: usize|
                {
                    &&& #[trigger] old(self.bump).alloc_post(
                        *final(self.bump),
                        Layout::spec_array::<T>(self.spec_items().len() as int),
                        Ok(ptr),
                    )
                    &&& old(self.bump).alloc_fast_path(
                        *final(self.bump),
                        Layout::spec_array::<T>(self.spec_items().len() as int),
                        Ok(ptr),
                    )
                },
    {
        let len = self.items.len();
        if core::mem::size_of::<T>() == 0 || len == 0 {
            return self.items;
        }
        proof {
            assert(size_of::<T>() * len <= size_of::<T>() * self.cap) by (nonlinear_arith)
                requires
                    len <= self.cap,
            ;
        }
        vstd::layout::layout_for_type_is_valid::<T>();
        proof {
            crate::layout::lemma_valid_array_size::<T>(len as nat);
        }
        let layout = match Layout::array::<T>(len) {
            Ok(l) => l,
            Err(_) => {
                proof {
                    assert(false);
                }
                return self.items;
            },
        };
        proof {
            let c = self.bump.current_chunk();
            let p = choose|p: int| #[trigger] room_at::<T>(c, p, self.cap as int);
            assert(chunk_ok(self.bump.spec_chunks()[self.bump.spec_current()], S::spec_up(), S::spec_min_align()));
            lemma_room_fits::<T>(c, S::spec_min_align(), p, self.cap as int, len as int);
        }
        let res = self.bump.allocate(layout);
        proof {
            assert(res is Ok);
            let ptr = res->Ok_0;
            assert(old(self.bump).alloc_post(*self.bump, layout, Ok(ptr)));
        }
        self.items
    }

    /// Prepares room for at least `new_capacity` elements, which must not be
    /// fewer than the elements; the elements move there.
    fn grow_to(&mut self, new_capacity: usize) -> (r: Result<(), AllocError>)
        requires
            old(self).wf(),
            size_of::<T>() != 0,
            new_capacity >= old(self).spec_items().len(),
        ensures
            final(self).wf(),
            final(self).spec_items() == old(self).spec_items(),
            old(self).bump.extended_by(*final(self).bump),
            *final(final(self).bump) == *final(old(self).bump),
            r is Ok ==> final(self).spec_capacity() >= new_capacity && final(self).room_prepared(),
            r is Err ==> final(self).spec_capacity() == old(self).spec_capacity(),
            room_available::<T, A, S>(*old(self).bump, new_capacity as int) ==> r is Ok,
    {
        let (ptr, cap) = self.bump.prepare_slice_allocation::<T>(new_capacity)?;
        proof {
            assert(size_of::<T>() * cap <= isize::MAX) by (nonlinear_arith)
                requires
                    cap * size_of::<T>() <= isize::MAX,
            ;
            assert(room_at::<T>(self.bump.current_chunk(), ptr as int, cap as int));
        }
        self.cap = cap;
        Ok(())
    }

    /// Prepares room for at least `additional` more elements, growing to at
    /// least [`grow_amortized_capacity`]; fails for a zero-sized `T`, when the
    /// length would overflow, or when the room cannot be prepared.
    fn grow_amortized(&mut self, additional: usize) -> (r: Result<(), AllocError>)
        requires
            old(self).wf(),
        ensures
            final(self).wf(),
            final(self).spec_items() == old(self).spec_items(),
            old(self).bump.extended_by(*final(self).bump),
            *final(final(self).bump) == *final(old(self).bump),
            size_of::<T>() == 0 || old(self).spec_items().len() + additional > usize::MAX ==> r is Err
                && *final(self) == *old(self),
            r is Ok ==> final(self).spec_capacity() >= grow_amortized_capacity(
                old(self).spec_items().len() as int,
                old(self).spec_capacity() as int,
                additional as int,
                size_of::<T>() as int,
            ) && final(self).room_prepared(),
            r is Err ==> final(self).spec_capacity() == old(self).spec_capacity(),
            size_of::<T>() != 0 && old(self).spec_items().len() + additional <= usize::MAX && room_available::<T, A, S>(
                *old(self).bump,
                grow_amortized_capacity(
                    old(self).spec_items().len() as int,
                    old(self).spec_capacity() as int,
                    additional as int,
                    size_of::<T>() as int,
                ),
            ) ==> r is Ok,
    {
        let size = core::mem::size_of::<T>();
        if size == 0 {
            return Err(AllocError);
        }
        let required = match self.items.len().checked_add(additional) {
            Some(required) => required,
            None => return Err(AllocError),
        };
        proof {
            assert(self.cap <= isize::MAX) by (nonlinear_arith)
                requires
                    size_of::<T>() * self.cap <= isize::MAX,
                    size_of::<T>() >= 1,
            ;
        }
        let doubled = self.cap * 2;
        let m = if doubled > required {
            doubled
        } else {
            required
        };
        let min = min_non_zero_cap(size);
        let new_capacity = if m > min {
            m
        } else {
            min
        };
        self.grow_to(new_capacity)
    }

    /// Prepares room for exactly the length plus `additional` elements (or
    /// more, as the free range allows); fails as growing does.
    fn grow_exact(&mut self, additional: usize) -> (r: Result<(), AllocError>)
        requires
            old(self).wf(),
        ensures
            final(self).wf(),
            final(self).spec_items() == old(self).spec_items(),
            old(self).bump.extended_by(*final(self).bump),
            *final(final(self).bump) == *final(old(self).bump),
            size_of::<T>() == 0 || old(self).spec_items().len() + additional > usize::MAX ==> r is Err
                && *final(self) == *old(self),
            r is Ok ==> final(self).spec_capacity() >= old(self).spec_items().len() + additional
                && final(self).room_prepared(),
            r is Err ==> final(self).spec_capacity() == old(self).spec_capacity(),
            size_of::<T>() != 0 && old(self).spec_items().len() + additional <= usize::MAX && room_available::<T, A, S>(
                *old(self).bump,
                old(self).spec_items().len() + additional,
            ) ==> r is Ok,
    {
        if core::mem::size_of::<T>() == 0 {
            return Err(AllocError);
        }
        let required = match self.items.len().checked_add(additional) {
            Some(required) => required,
            None => return Err(AllocError),
        };
        self.grow_to(required)
    }

    /// Makes sure `additional` more elements fit: nothing changes when they
    /// already do; otherwise the vector grows to at least
    /// [`grow_amortized_capacity`].
    pub fn try_reserve(&mut self, additional: usize) -> (r: Result<(), AllocError>)
        requires
            old(self).wf(),
        ensures
            old(self).growth_owed(additional as int) ==> r is Ok,
            final(self).wf(),
            old(self).room_prepared() && r is Ok ==> final(self).room_prepared(),
            final(self).spec_items() == old(self).spec_items(),
            old(self).bump.extended_by(*final(self).bump),
            *final(final(self).bump) == *final(old(self).bump),
            additional <= old(self).spec_capacity() - old(self).spec_items().len() ==> r is Ok && *final(self) == *old(self),
            additional > old(self).spec_capacity() - old(self).spec_items().len() && r is Ok ==> final(self).spec_capacity()
                >= grow_amortized_capacity(
                old(self).spec_items().len() as int,
                old(self).spec_capacity() as int,
                additional as int,
                size_of::<T>() as int,
            ) && final(self).room_prepared(),
            r is Ok ==> final(self).spec_capacity() - final(self).spec_items().len() >= additional,
            r is Err ==> final(self).spec_capacity() == old(self).spec_capacity(),
    {
        if additional > self.cap - self.items.len() {
            self.grow_amortized(additional)
        } else {
            Ok(())
        }
    }

    /// Makes sure `additional` more elements fit: nothing changes when they
    /// already do; otherwise the vector grows to hold at least the length
    /// plus `additional`.
    pub fn try_reserve_exact(&mut self, additional: usize) -> (r: Result<(), AllocError>)
        requires
            old(self).wf(),
        ensures
            old(self).exact_growth_owed(additional as int) ==> r is Ok,
            final(self).wf(),
            old(self).room_prepared() && r is Ok ==> final(self).room_prepared(),
            final(self).spec_items() == old(self).spec_items(),
            old(self).bump.extended_by(*final(self).bump),
            *final(final(self).bump) == *final(old(self).bump),
            additional <= old(self).spec_capacity() - old(self).spec_items().len() ==> r is Ok && *final(self) == *old(self),
            r is Ok ==> final(self).spec_capacity() - final(self).spec_items().len() >= additional,
            r is Err ==> final(self).spec_capacity() == old(self).spec_capacity(),
    {
        if additional > self.cap - self.items.len() {
            self.grow_exact(additional)
        } else {
            Ok(())
        }
    }

    /// Adds `value` at the front, growing when the vector is full.
    pub fn try_push(&mut self, value: T) -> (r: Result<(), AllocError>)
        requires
            old(self).wf(),
        ensures
            old(self).growth_owed(1) ==> r is Ok,
            final(self).wf(),
            old(self).room_prepared() && r is Ok ==> final(self).room_prepared(),
            old(self).bump.extended_by(*final(self).bump),
            *final(final(self).bump) == *final(old(self).bump),
            old(self).spec_items().len() < old(self).spec_capacity() ==> r is Ok && *final(self).bump == *old(self).bump
                && final(self).spec_capacity() == old(self).spec_capacity(),
            r is Ok ==> final(self).spec_items() == seq![value] + old(self).spec_items(),
            r is Err ==> final(self).spec_items() == old(self).spec_items(),
    {
        if self.cap == self.items.len() {
            self.grow_amortized(1)?;
        }
        self.items.insert(0, value);
        Ok(())
    }

    /// Adds the value `f` returns at the front, growing when the vector is
    /// full; `f` is not called when growing fails.
    pub fn try_push_with(&mut self, f: impl FnOnce() -> T) -> (r: Result<(), AllocError>)
        requires
            old(self).wf(),
            call_requires(f, ()),
        ensures
            old(self).growth_owed(1) ==> r is Ok,
            final(self).wf(),
            old(self).room_prepared() && r is Ok ==> final(self).room_prepared(),
            old(self).bump.extended_by(*final(self).bump),
            *final(final(self).bump) == *final(old(self).bump),
            old(self).spec_items().len() < old(self).spec_capacity() ==> r is Ok,
            r is Ok ==> exists|v: T| #[trigger] call_ensures(f, (), v) && final(self).spec_items() == seq![v] + old(self).spec_items(),
            r is Err ==> final(self).spec_items() == old(self).spec_items(),
    {
        if self.cap == self.items.len() {
            self.grow_amortized(1)?;
        }
        let v = f();
        self.items.insert(0, v);
        Ok(())
    }

    /// Removes and returns the first element, if any.
    pub fn pop(&mut self) -> (r: Option<T>)
        requires
            old(self).wf(),
        ensures
            final(self).wf(),
            *final(self).bump == *old(self).bump,
            *final(final(self).bump) == *final(old(self).bump),
            final(self).spec_capacity() == old(self).spec_capacity(),
            old(self).spec_items().len() == 0 ==> r is None && final(self).spec_items() == old(self).spec_items(),
            old(self).spec_items().len() > 0 ==> r == Some(old(self).spec_items()[0]) && final(self).spec_items()
                == old(self).spec_items().drop_first(),
    {
        if self.items.len() == 0 {
            return None;
        }
        let x = self.items.remove(0);
        proof {
            assert(old(self).spec_items().remove(0) =~= old(self).spec_items().drop_first());
        }
        Some(x)
    }

    /// Removes all elements.
    pub fn clear(&mut self)
        requires
            old(self).wf(),
        ensures
            final(self).wf(),
            *final(self).bump == *old(self).bump,
            *final(final(self).bump) == *final(old(self).bump),
            final(self).spec_capacity() == old(self).spec_capacity(),
            final(self).spec_items() == Seq::<T>::empty(),
    {
        self.items.clear();
    }

    /// Keeps the last `len` elements; does nothing when there are not more.
    pub fn truncate(&mut self, len: usize)
        requires
            old(self).wf(),
        ensures
            final(self).wf(),
            *final(self).bump == *old(self).bump,
            *final(final(self).bump) == *final(old(self).bump),
            final(self).spec_capacity() == old(self).spec_capacity(),
            final(self).spec_items() == (if len < old(self).spec_items().len() {
                old(self).spec_items().subrange(old(self).spec_items().len() - len, old(self).spec_items().len() as int)
            } else {
                old(self).spec_items()
            }),
    {
        let n = self.items.len();
        if len >= n {
            return;
        }
        let tail = self.items.split_off(n - len);
        self.items = tail;
    }

    /// Removes and returns the element at `index`, shifting the ones before
    /// it back.
    pub fn remove(&mut self, index: usize) -> (r: T)
        requires
            old(self).wf(),
            index < old(self).spec_items().len(),
        ensures
            final(self).wf(),
            *final(self).bump == *old(self).bump,
            *final(final(self).bump) == *final(old(self).bump),
            final(self).spec_capacity() == old(self).spec_capacity(),
            r == old(self).spec_items()[index as int],
            final(self).spec_items() == old(self).spec_items().remove(index as int),
    {
        self.items.remove(index)
    }

    /// Removes and returns the element at `index`, putting the first element
    /// in its place.
    pub fn swap_remove(&mut self, index: usize) -> (r: T)
        requires
            old(self).wf(),
            index < old(self).spec_items().len(),
        ensures
            final(self).wf(),
            *final(self).bump == *old(self).bump,
            *final(final(self).bump) == *final(old(self).bump),
            final(self).spec_capacity() == old(self).spec_capacity(),
            r == old(self).spec_items()[index as int],
            final(self).spec_items() == old(self).spec_items().update(index as int, old(self).spec_items()[0]).drop_first(),
    {
        let first = self.items.remove(0);
        if index == 0 {
            proof {
                assert(old(self).spec_items().remove(0) =~= old(self).spec_items().update(0, old(self).spec_items()[0]).drop_first());
            }
            return first;
        }
        let v = self.items.remove(index - 1);
        self.items.insert(index - 1, first);
        proof {
            assert(self.spec_items() =~= old(self).spec_items().update(index as int, old(self).spec_items()[0]).drop_first());
        }
        v
    }

    /// Inserts `element` at `index`, growing when the vector is full.
    pub fn try_insert(&mut self, index: usize, element: T) -> (r: Result<(), AllocError>)
        requires
            old(self).wf(),
            index <= old(self).spec_items().len(),
        ensures
            old(self).growth_owed(1) ==> r is Ok,
            final(self).wf(),
            old(self).room_prepared() && r is Ok ==> final(self).room_prepared(),
            old(self).bump.extended_by(*final(self).bump),
            *final(final(self).bump) == *final(old(self).bump),
            old(self).spec_items().len() < old(self).spec_capacity() ==> r is Ok && *final(self).bump == *old(self).bump,
            r is Ok ==> final(self).spec_items() == old(self).spec_items().insert(index as int, element),
            r is Err ==> final(self).spec_items() == old(self).spec_items(),
    {
        if self.cap == self.items.len() {
            self.grow_amortized(1)?;
        }
        self.items.insert(index, element);
        Ok(())
    }

    /// Puts `front` before the elements, which fit.
    fn prepend(&mut self, front: Vec<T>)
        requires
            old(self).wf(),
            front@.len() + old(self).spec_items().len() <= old(self).spec_capacity(),
        ensures
            final(self).wf(),
            *final(self).bump == *old(self).bump,
            *final(final(self).bump) == *final(old(self).bump),
            final(self).spec_capacity() == old(self).spec_capacity(),
            final(self).spec_items() == front@ + old(self).spec_items(),
    {
        let mut front = front;
        let mut rest: Vec<T> = Vec::new();
        core::mem::swap(&mut rest, &mut self.items);
        front.append(&mut rest);
        self.items = front;
    }

    /// Puts copies of the elements of `slice` before the elements, growing
    /// when they do not fit.
    pub fn try_extend_from_slice_copy(&mut self, slice: &[T]) -> (r: Result<(), AllocError>) where T: Copy
        requires
            old(self).wf(),
        ensures
            old(self).growth_owed(slice@.len() as int) ==> r is Ok,
            final(self).wf(),
            old(self).room_prepared() && r is Ok ==> final(self).room_prepared(),
            old(self).bump.extended_by(*final(self).bump),
            *final(final(self).bump) == *final(old(self).bump),
            slice@.len() <= old(self).spec_capacity() - old(self).spec_items().len() ==> r is Ok && *final(self).bump
                == *old(self).bump,
            r is Ok ==> final(self).spec_items() == slice@ + old(self).spec_items(),
            r is Err ==> final(self).spec_items() == old(self).spec_items(),
    {
        self.try_reserve(slice.len())?;
        let front = vstd::slice::slice_to_vec(slice);
        self.prepend(front);
        Ok(())
    }

    /// Puts clones of the elements of `slice` before the elements, growing
    /// when they do not fit.
    pub fn try_extend_from_slice_clone(&mut self, slice: &[T]) -> (r: Result<(), AllocError>) where T: Clone
        requires
            old(self).wf(),
        ensures
            old(self).growth_owed(slice@.len() as int) ==> r is Ok,
            final(self).wf(),
            old(self).room_prepared() && r is Ok ==> final(self).room_prepared(),
            old(self).bump.extended_by(*final(self).bump),
            *final(final(self).bump) == *final(old(self).bump),
            slice@.len() <= old(self).spec_capacity() - old(self).spec_items().len() ==> r is Ok && *final(self).bump
                == *old(self).bump,
            r is Ok ==> {
                &&& final(self).spec_items().len() == slice@.len() + old(self).spec_items().len()
                &&& final(self).spec_items().subrange(slice@.len() as int, final(self).spec_items().len() as int)
                    == old(self).spec_items()
                &&& forall|i: int| 0 <= i < slice@.len() ==> cloned::<T>(slice@[i], #[trigger] final(self).spec_items()[i])
            },
            r is Err ==> final(self).spec_items() == old(self).spec_items(),
    {
        self.try_reserve(slice.len())?;
        let mut front: Vec<T> = Vec::new();
        let mut i: usize = 0;
        while i < slice.len()
            invariant
                i <= slice@.len(),
                front@.len() == i,
                forall|k: int| 0 <= k < i ==> cloned::<T>(slice@[k], #[trigger] front@[k]),
            decreases slice@.len() - i,
        {
            let v = slice[i].clone();
            front.push(v);
            i += 1;
        }
        let ghost f = front@;
        self.prepend(front);
        proof {
            assert(self.spec_items().subrange(slice@.len() as int, self.spec_items().len() as int) =~= old(self).spec_items());
            assert forall|k: int| 0 <= k < slice@.len() implies cloned::<T>(slice@[k], #[trigger] self.spec_items()[k]) by {
                assert(self.spec_items()[k] == f[k]);
            }
        }
        Ok(())
    }

    /// Puts copies of the elements in the range, which must lie within the
    /// vector, before the elements, growing when they do not fit.
    pub fn try_extend_from_within_copy(&mut self, start: Bound, end: Bound) -> (r: Result<(), AllocError>) where
        T: Copy,
        requires
            old(self).wf(),
            range_in_bounds(start, end, old(self).spec_items().len() as int),
        ensures
            old(self).growth_owed(range_end(end, old(self).spec_items().len() as int) - range_start(start)) ==> r is Ok,
            final(self).wf(),
            old(self).room_prepared() && r is Ok ==> final(self).room_prepared(),
            old(self).bump.extended_by(*final(self).bump),
            *final(final(self).bump) == *final(old(self).bump),
            ({
                let n = old(self).spec_items().len() as int;
                let (s, e) = (range_start(start), range_end(end, n));
                &&& e - s <= old(self).spec_capacity() - n ==> r is Ok && *final(self).bump == *old(self).bump
                &&& r is Ok ==> final(self).spec_items() == old(self).spec_items().subrange(s, e) + old(self).spec_items()
                &&& r is Err ==> final(self).spec_items() == old(self).spec_items()
            }),
    {
        let (s, e) = slice_range(start, end, self.items.len());
        self.try_reserve(e - s)?;
        let part = vstd::slice::slice_subrange(self.items.as_slice(), s, e);
        let front = vstd::slice::slice_to_vec(part);
        self.prepend(front);
        Ok(())
    }

    /// Puts clones of the elements in the range, which must lie within the
    /// vector, before the elements, growing when they do not fit.
    pub fn try_extend_from_within_clone(&mut self, start: Bound, end: Bound) -> (r: Result<(), AllocError>) where
        T: Clone,
        requires
            old(self).wf(),
            range_in_bounds(start, end, old(self).spec_items().len() as int),
        ensures
            old(self).growth_owed(range_end(end, old(self).spec_items().len() as int) - range_start(start)) ==> r is Ok,
            final(self).wf(),
            old(self).room_prepared() && r is Ok ==> final(self).room_prepared(),
            old(self).bump.extended_by(*final(self).bump),
            *final(final(self).bump) == *final(old(self).bump),
            ({
                let n = old(self).spec_items().len() as int;
                let (s, e) = (range_start(start), range_end(end, n));
                &&& e - s <= old(self).spec_capacity() - n ==> r is Ok && *final(self).bump == *old(self).bump
                &&& r is Ok ==> final(self).spec_items().len() == (e - s) + n
                    && final(self).spec_items().subrange(e - s, (e - s) + n) == old(self).spec_items()
                    && forall|i: int| 0 <= i < e - s ==> cloned::<T>(old(self).spec_items()[s + i], #[trigger] final(self).spec_items()[i])
                &&& r is Err ==> final(self).spec_items() == old(self).spec_items()
            }),
    {
        let (s, e) = slice_range(start, end, self.items.len());
        self.try_reserve(e - s)?;
        let mut front: Vec<T> = Vec::new();
        let mut j: usize = s;
        while j < e
            invariant
                s <= j <= e <= self.spec_items().len(),
                self.spec_items() == old(self).spec_items(),
                front@.len() == j - s,
                forall|k: int| 0 <= k < j - s ==> cloned::<T>(old(self).spec_items()[s + k], #[trigger] front@[k]),
            decreases e - j,
        {
            let v = self.items[j].clone();
            front.push(v);
            j += 1;
        }
        let ghost f = front@;
        self.prepend(front);
        proof {
            let n = old(self).spec_items().len() as int;
            assert(self.spec_items().subrange(e - s, (e - s) + n) =~= old(self).spec_items());
            assert forall|k: int| 0 <= k < e - s implies cloned::<T>(old(self).spec_items()[s + k], #[trigger] self.spec_items()[k]) by {
                assert(self.spec_items()[k] == f[k]);
            }
        }
        Ok(())
    }

    /// Puts the elements of `array`, in order, before the elements, growing
    /// when they do not fit.
    pub fn try_extend_from_array<const N: usize>(&mut self, array: [T; N]) -> (r: Result<(), AllocError>)
        requires
            old(self).wf(),
        ensures
            old(self).growth_owed(N as int) ==> r is Ok,
            final(self).wf(),
            old(self).room_prepared() && r is Ok ==> final(self).room_prepared(),
            old(self).bump.extended_by(*final(self).bump),
            *final(final(self).bump) == *final(old(self).bump),
            N <= old(self).spec_capacity() - old(self).spec_items().len() ==> r is Ok && *final(self).bump
                == *old(self).bump,
            r is Ok ==> final(self).spec_items() == array@ + old(self).spec_items(),
            r is Err ==> final(self).spec_items() == old(self).spec_items(),
    {
        self.try_reserve(N)?;
        let front = array_into_vec(array);
        self.prepend(front);
        Ok(())
    }

    /// Puts the elements of `other` before the elements, growing when they do
    /// not fit.
    pub fn try_append(&mut self, other: Vec<T>) -> (r: Result<(), AllocError>)
        requires
            old(self).wf(),
        ensures
            old(self).growth_owed(other@.len() as int) ==> r is Ok,
            final(self).wf(),
            old(self).room_prepared() && r is Ok ==> final(self).room_prepared(),
            old(self).bump.extended_by(*final(self).bump),
            *final(final(self).bump) == *final(old(self).bump),
            other@.len() <= old(self).spec_capacity() - old(self).spec_items().len() ==> r is Ok && *final(self).bump
                == *old(self).bump,
            r is Ok ==> final(self).spec_items() == other@ + old(self).spec_items(),
            r is Err ==> final(self).spec_items() == old(self).spec_items(),
    {
        self.try_reserve(other.len())?;
        self.prepend(other);
        Ok(())
    }

    /// Puts `n` values before the elements, growing when they do not fit:
    /// `value` itself at the front, then `n - 1` clones of it.
    fn extend_with(&mut self, n: usize, value: T) -> (r: Result<(), AllocError>) where T: Clone
        requires
            old(self).wf(),
        ensures
            old(self).growth_owed(n as int) ==> r is Ok,
            final(self).wf(),
            old(self).room_prepared() && r is Ok ==> final(self).room_prepared(),
            old(self).bump.extended_by(*final(self).bump),
            *final(final(self).bump) == *final(old(self).bump),
            n <= old(self).spec_capacity() - old(self).spec_items().len() ==> r is Ok && *final(self).bump == *old(self).bump
                && final(self).spec_capacity() == old(self).spec_capacity(),
            r is Ok ==> {
                &&& final(self).spec_items().len() == n + old(self).spec_items().len()
                &&& final(self).spec_items().subrange(n as int, final(self).spec_items().len() as int) == old(self).spec_items()
                &&& n > 0 ==> final(self).spec_items()[0] == value
                &&& forall|i: int| 1 <= i < n ==> cloned::<T>(value, #[trigger] final(self).spec_items()[i])
            },
            r is Err ==> final(self).spec_items() == old(self).spec_items(),
    {
        self.try_reserve(n)?;
        let mut front: Vec<T> = Vec::new();
        if n > 0 {
            let mut k: usize = 1;
            while k < n
                invariant
                    1 <= k <= n,
                    front@.len() == k - 1,
                    forall|i: int| 0 <= i < k - 1 ==> cloned::<T>(value, #[trigger] front@[i]),
                decreases n - k,
            {
                let c = value.clone();
                front.push(c);
                k += 1;
            }
            let ghost clones = front@;
            front.insert(0, value);
            proof {
                assert forall|i: int| 1 <= i < n implies cloned::<T>(value, #[trigger] front@[i]) by {
                    assert(front@[i] == clones[i - 1]);
                }
            }
        }
        let ghost f = front@;
        self.prepend(front);
        proof {
            assert(self.spec_items().subrange(n as int, self.spec_items().len() as int) =~= old(self).spec_items());
            assert forall|i: int| 1 <= i < n implies cloned::<T>(value, #[trigger] self.spec_items()[i]) by {
                assert(self.spec_items()[i] == f[i]);
            }
        }
        Ok(())
    }

    /// Resizes the vector to `new_len` elements: keeps the last `new_len`
    /// when it is not shorter, else puts `value` and `new_len - len - 1`
    /// clones of it before the elements, growing when they do not fit.
    pub fn try_resize(&mut self, new_len: usize, value: T) -> (r: Result<(), AllocError>) where T: Clone
        requires
            old(self).wf(),
        ensures
            new_len > old(self).spec_items().len() && old(self).growth_owed(new_len - old(self).spec_items().len()) ==> r is Ok,
            final(self).wf(),
            old(self).room_prepared() && r is Ok ==> final(self).room_prepared(),
            old(self).bump.extended_by(*final(self).bump),
            *final(final(self).bump) == *final(old(self).bump),
            ({
                let old_items = old(self).spec_items();
                let n = new_len - old_items.len();
                &&& new_len <= old_items.len() ==> r is Ok && final(self).spec_items() == old_items.subrange(
                    old_items.len() - new_len,
                    old_items.len() as int,
                )
                &&& new_len <= old(self).spec_capacity() ==> r is Ok
                &&& new_len > old_items.len() && r is Ok ==> {
                    &&& final(self).spec_items().len() == new_len
                    &&& final(self).spec_items().subrange(n, new_len as int) == old_items
                    &&& final(self).spec_items()[0] == value
                    &&& forall|i: int| 1 <= i < n ==> cloned::<T>(value, #[trigger] final(self).spec_items()[i])
                }
                &&& r is Err ==> final(self).spec_items() == old_items
            }),
    {
        let len = self.items.len();
        if new_len > len {
            self.extend_with(new_len - len, value)
        } else {
            self.truncate(new_len);
            Ok(())
        }
    }

    /// Resizes the vector to `new_len` elements: keeps the last `new_len`
    /// when it is not shorter, else puts the values of `new_len - len` calls
    /// of `f` before the elements, each new one at the front, growing when
    /// they do not fit.
    pub fn try_resize_with<F: FnMut() -> T>(&mut self, new_len: usize, f: F) -> (r: Result<(), AllocError>)
        requires
            old(self).wf(),
            call_requires(f, ()),
        ensures
            new_len > old(self).spec_items().len() && old(self).growth_owed(new_len - old(self).spec_items().len()) ==> r is Ok,
            final(self).wf(),
            old(self).room_prepared() && r is Ok ==> final(self).room_prepared(),
            old(self).bump.extended_by(*final(self).bump),
            *final(final(self).bump) == *final(old(self).bump),
            ({
                let old_items = old(self).spec_items();
                let n = new_len - old_items.len();
                &&& new_len <= old_items.len() ==> r is Ok && final(self).spec_items() == old_items.subrange(
                    old_items.len() - new_len,
                    old_items.len() as int,
                )
                &&& new_len <= old(self).spec_capacity() ==> r is Ok
                &&& new_len > old_items.len() && r is Ok ==> {
                    &&& final(self).spec_items().len() == new_len
                    &&& final(self).spec_items().subrange(n, new_len as int) == old_items
                    &&& forall|i: int| 0 <= i < n ==> call_ensures(f, (), #[trigger] final(self).spec_items()[i])
                }
                &&& r is Err ==> final(self).spec_items() == old_items
            }),
    {
        let len = self.items.len();
        if new_len <= len {
            self.truncate(new_len);
            return Ok(());
        }
        let n = new_len - len;
        self.try_reserve(n)?;
        let ghost b1 = *self.bump;
        let ghost f0 = f;
        let mut f = f;
        let mut k: usize = 0;
        while k < n
            invariant
                *self.bump == b1,
                old(self).bump.extended_by(b1),
                *final(self.bump) == *final(old(self).bump),
                f == f0,
                call_requires(f, ()),
                k <= n,
                n + len <= self.spec_capacity(),
                len == old(self).spec_items().len(),
                self.wf(),
                old(self).room_prepared() ==> self.room_prepared(),
                self.spec_items().len() == len + k,
                self.spec_items().subrange(k as int, (len + k) as int) == old(self).spec_items(),
                forall|i: int| 0 <= i < k ==> call_ensures(f0, (), #[trigger] self.spec_items()[i]),
            decreases n - k,
        {
            let v = f();
            let ghost before = self.spec_items();
            self.items.insert(0, v);
            proof {
                assert(self.spec_items().subrange(k + 1, (len + k + 1) as int) =~= before.subrange(k as int, (len + k) as int));
                assert forall|i: int| 0 <= i < k + 1 implies call_ensures(f0, (), #[trigger] self.spec_items()[i]) by {
                    if i > 0 {
                        assert(self.spec_items()[i] == before[i - 1]);
                    }
                }
            }
            k += 1;
        }
        Ok(())
    }
}

impl<'a, T, A, S: BumpAllocatorSettings, const N: usize> MutBumpVecRev<'a, [T; N], A, S> {
    /// The elements of the arrays, in order, in the same room: the capacity
    /// is multiplied by `N` (`usize::MAX` for a zero-sized `T`). For a
    /// zero-sized `T` the number of elements must fit in a `usize`.
    pub fn into_flattened(self) -> (r: MutBumpVecRev<'a, T, A, S>)
        requires
            self.wf(),
            size_of::<[T; N]>() == N * size_of::<T>(),
            size_of::<T>() == 0 ==> self.spec_items().len() * N <= usize::MAX,
        ensures
            r.wf(),
            self.room_prepared() && align_of::<[T; N]>() == align_of::<T>() ==> r.room_prepared(),
            r.spec_items() == array_views(self.spec_items()).flatten(),
            r.spec_capacity() == (if size_of::<T>() == 0 {
                usize::MAX as int
            } else {
                self.spec_capacity() * N
            }),
            *r.bump == *old(self.bump),
            *final(r.bump) == *final(self.bump),
    {
        let cap = self.cap;
        let ghost n = self.spec_items().len() as int;
        proof {
            if size_of::<T>() != 0 {
                assert(n * N <= cap * N) by (nonlinear_arith)
                    requires
                        0 <= n <= cap,
                ;
                assert(cap * N <= size_of::<[T; N]>() * cap) by (nonlinear_arith)
                    requires
                        size_of::<[T; N]>() == N * size_of::<T>(),
                        size_of::<T>() >= 1,
                        cap >= 0,
                ;
            }
        }
        let items = flatten_arrays(self.items);
        if core::mem::size_of::<T>() == 0 {
            proof {
                assert(size_of::<T>() * usize::MAX == 0) by (nonlinear_arith)
                    requires
                        size_of::<T>() == 0,
                ;
            }
            return MutBumpVecRev { bump: self.bump, items, cap: usize::MAX };
        }
        proof {
            assert(size_of::<T>() * (cap * N) == size_of::<[T; N]>() * cap) by (nonlinear_arith)
                requires
                    size_of::<[T; N]>() == N * size_of::<T>(),
            ;
            assert((cap * N) * size_of::<T>() == cap * size_of::<[T; N]>()) by (nonlinear_arith)
                requires
                    size_of::<[T; N]>() == N * size_of::<T>(),
            ;
            assert(cap * N > 0 ==> cap > 0 && size_of::<[T; N]>() > 0) by (nonlinear_arith)
                requires
                    size_of::<[T; N]>() == N * size_of::<T>(),
                    size_of::<T>() > 0,
                    cap >= 0,
            ;
        }
        let ghost old_room = self.room_prepared();
        let ghost c = self.bump.current_chunk();
        let r = MutBumpVecRev { bump: self.bump, items, cap: cap * N };
        proof {
            if old_room && align_of::<[T; N]>() == align_of::<T>() && cap * N > 0 {
                let p = choose|p: int| #[trigger] room_at::<[T; N]>(c, p, cap as int);
                assert(room_at::<T>(r.bump.current_chunk(), p, r.spec_capacity() as int));
            }
        }
        r
    }
}

} // verus!
