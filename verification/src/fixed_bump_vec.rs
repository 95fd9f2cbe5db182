//! A vector with a fixed capacity, whose buffer is allocated once in a bump
//! allocator and never grows.
//!
//! Operations that add elements fail with [`AllocError`] when the capacity
//! does not suffice (the `try_` methods), or require that it does (the
//! others). For a zero-sized element type the capacity is `usize::MAX`.
use vstd::prelude::*;

verus! {

use crate::allocator::{AllocError, BaseAllocator};
use crate::layout::{layout_ok, Layout};
use crate::owned_slice::into_iter::IntoIter;
use crate::range::{range_end, range_in_bounds, range_start, slice_range, Bound};
use crate::raw_bump::RawBump;
use crate::settings::BumpAllocatorSettings;
use vstd::arithmetic::div_mod::{
    lemma_div_by_multiple, lemma_div_is_ordered, lemma_fundamental_div_mod, lemma_mod_pos_bound,
};
use vstd::layout::{align_of, size_of};
use vstd::std_specs::cmp::PartialEqSpec;

/// The capacity of a vector of `T` that holds no buffer: `usize::MAX` for a
/// zero-sized `T`, else 0.
pub open spec fn empty_capacity<T>() -> nat {
    if size_of::<T>() == 0 {
        usize::MAX as nat
    } else {
        0
    }
}

/// The capacity of a vector of `T` with a buffer for `capacity` elements:
/// `usize::MAX` for a zero-sized `T`.
pub open spec fn buffer_capacity<T>(capacity: nat) -> nat {
    if size_of::<T>() == 0 {
        usize::MAX as nat
    } else {
        capacity
    }
}

/// The elements of `s` at the positions where `keep` holds, in order.
pub open spec fn kept<T>(s: Seq<T>, keep: Seq<bool>) -> Seq<T>
    decreases s.len(),
{
    if s.len() == 0 {
        Seq::empty()
    } else {
        let rest = kept(s.drop_last(), keep.take(s.len() - 1));
        if keep[s.len() - 1] {
            rest.push(s.last())
        } else {
            rest
        }
    }
}

/// The capacities after splitting the range `s..e` off a vector of `T` of
/// length `len` and capacity `cap`: first the vector's, then that of the part
/// split off. The buffer is divided where the two parts meet: the part that
/// lies at the buffer's start keeps exactly its elements' room, the other
/// the rest.
pub open spec fn split_off_capacities<T>(len: int, cap: int, s: int, e: int) -> (int, int) {
    if size_of::<T>() == 0 {
        (cap, cap)
    } else if e == len {
        (s, cap - s)
    } else if s == 0 {
        (cap - e, e)
    } else if s == e {
        (cap, 0)
    } else if s < len - e {
        (cap - (e - s), e - s)
    } else {
        (len - (e - s), cap - (len - (e - s)))
    }
}

/// Where the buffers of the two parts start after splitting off `s..e` from
/// a vector of length `len`, as offsets in elements from the buffer before:
/// that of the part that stays, and that of the part split off. When the
/// range is empty and lies strictly inside, the part split off gets no
/// buffer of its own (see [`FixedBumpVec::new`]) and its offset means
/// nothing.
pub open spec fn split_off_offsets(len: int, s: int, e: int) -> (int, int) {
    if e == len {
        (0, s)
    } else if s == 0 {
        (e, 0)
    } else if s == e {
        (0, 0)
    } else if s < len - e {
        (e - s, 0)
    } else {
        (0, len - (e - s))
    }
}

/// Splitting divides the buffer: for a `T` that is not zero-sized, the two
/// capacities add up to the capacity before, and each part still holds its
/// elements.
pub proof fn lemma_split_off_divides_buffer<T>(len: int, cap: int, s: int, e: int)
    requires
        size_of::<T>() != 0,
        0 <= s <= e <= len <= cap,
    ensures
        split_off_capacities::<T>(len, cap, s, e).0 + split_off_capacities::<T>(len, cap, s, e).1 == cap,
        split_off_capacities::<T>(len, cap, s, e).0 >= len - (e - s),
        split_off_capacities::<T>(len, cap, s, e).1 >= e - s,
{
}

/// Popping what was pushed gives it back and restores the elements.
pub proof fn lemma_pop_undoes_push<T>(s: Seq<T>, v: T)
    ensures
        s.push(v).len() > 0,
        s.push(v).last() == v,
        s.push(v).drop_last() == s,
{
    assert(s.push(v).drop_last() =~= s);
}

/// A smaller capacity's buffer is no larger.
pub proof fn lemma_buffer_size_monotone(size: int, a: int, b: int)
    requires
        0 <= size,
        0 <= a <= b,
    ensures
        size * a <= size * b,
{
    assert(size * a <= size * b) by (nonlinear_arith)
        requires
            0 <= size,
            0 <= a <= b,
    ;
}

/// Whether `i` is an index below `n`.
pub open spec fn index_below(i: int, n: int) -> bool {
    0 <= i < n
}

/// The flags of `d` that equal `v`.
pub open spec fn flags_equal(d: Seq<bool>, v: bool) -> Seq<bool> {
    Seq::new(d.len(), |i: int| d[i] == v)
}

/// Keeping a prefix of one more element keeps what the shorter prefix kept
/// and, when its flag is set, that element.
pub proof fn lemma_kept_push<T>(s: Seq<T>, keep: Seq<bool>, i: int)
    requires
        0 <= i < s.len(),
        i < keep.len(),
    ensures
        kept(s.take(i + 1), keep.take(i + 1)) == (if keep[i] {
            kept(s.take(i), keep.take(i)).push(s[i])
        } else {
            kept(s.take(i), keep.take(i))
        }),
{
    assert(s.take(i + 1).drop_last() == s.take(i));
    assert(keep.take(i + 1).take(i) == keep.take(i));
}

/// The capacity of a buffer of `cap` elements of `st` bytes reused for
/// elements of `su` bytes, `su <= st`: its `len` elements still fit, and the
/// reused buffer is no larger.
pub proof fn lemma_map_capacity(len: int, cap: int, st: int, su: int)
    requires
        0 < su <= st,
        0 <= len <= cap,
    ensures
        len <= (cap * st) / su,
        su * ((cap * st) / su) <= cap * st,
{
    let x = cap * st;
    assert(len * su <= cap * st) by (nonlinear_arith)
        requires
            0 < su <= st,
            0 <= len <= cap,
    ;
    assert(0 <= x) by (nonlinear_arith)
        requires
            0 < st,
            0 <= cap,
            x == cap * st,
    ;
    lemma_div_is_ordered(len * su, x, su);
    lemma_div_by_multiple(len, su);
    lemma_fundamental_div_mod(x, su);
    lemma_mod_pos_bound(x, su);
}

/// What deduplicating the first `i` elements of `s` leaves, given what
/// happened at each later element `j < i`: `res[j]` holds whether element
/// `j` was dropped as a duplicate, the value it was left with, and the value
/// the last element kept was left with. The first element is kept as it is.
pub open spec fn dedup_fold<T>(s: Seq<T>, res: Seq<(bool, T, T)>, i: int) -> Seq<T>
    decreases i,
{
    if i <= 0 {
        Seq::empty()
    } else if i == 1 {
        seq![s[0]]
    } else {
        let st = dedup_fold(s, res, i - 1);
        let (dup, a, k) = res[i - 1];
        if dup {
            st.drop_last().push(k)
        } else {
            st.drop_last().push(k).push(a)
        }
    }
}

/// Recording one more step keeps what the earlier steps left.
pub proof fn lemma_dedup_fold_push<T>(s: Seq<T>, res: Seq<(bool, T, T)>, x: (bool, T, T), i: int)
    requires
        i <= res.len(),
    ensures
        dedup_fold(s, res.push(x), i) == dedup_fold(s, res, i),
    decreases i,
{
    if i > 1 {
        lemma_dedup_fold_push(s, res, x, i - 1);
        assert(res.push(x)[i - 1] == res[i - 1]);
    }
}

/// Once an element was seen something is left, and never more than the
/// elements seen.
pub proof fn lemma_dedup_fold_len<T>(s: Seq<T>, res: Seq<(bool, T, T)>, i: int)
    requires
        i >= 1,
    ensures
        1 <= dedup_fold(s, res, i).len() <= i,
    decreases i,
{
    if i > 1 {
        lemma_dedup_fold_len(s, res, i - 1);
    }
}

/// The total length of the buffers.
pub open spec fn total_len(bufs: Seq<&[u8]>) -> int
    decreases bufs.len(),
{
    if bufs.len() == 0 {
        0
    } else {
        total_len(bufs.drop_last()) + bufs.last()@.len()
    }
}

/// The buffers' bytes, one after the other.
pub open spec fn concat_bufs(bufs: Seq<&[u8]>) -> Seq<u8>
    decreases bufs.len(),
{
    if bufs.len() == 0 {
        Seq::empty()
    } else {
        concat_bufs(bufs.drop_last()) + bufs.last()@
    }
}

/// A prefix of the buffers is no longer than all of them, and their bytes
/// are as long as their total length.
pub proof fn lemma_total_len_prefix(bufs: Seq<&[u8]>, i: int)
    requires
        0 <= i <= bufs.len(),
    ensures
        0 <= total_len(bufs.take(i)) <= total_len(bufs),
        concat_bufs(bufs).len() == total_len(bufs),
    decreases bufs.len(),
{
    if bufs.len() > 0 {
        if i == bufs.len() {
            assert(bufs.take(i) == bufs);
            lemma_total_len_prefix(bufs.drop_last(), i - 1);
        } else {
            assert(bufs.take(i) == bufs.drop_last().take(i));
            lemma_total_len_prefix(bufs.drop_last(), i);
        }
    }
}

/// The elements of `v` in reverse order.
fn reverse_vec<T>(v: Vec<T>) -> (r: Vec<T>)
    ensures
        r@.len() == v@.len(),
        forall|j: int| 0 <= j < v@.len() ==> #[trigger] r@[j] == v@[v@.len() - 1 - j],
{
    let ghost orig = v@;
    let mut v = v;
    let mut r: Vec<T> = Vec::new();
    while v.len() > 0
        invariant
            v@ == orig.take(v@.len() as int),
            v@.len() <= orig.len(),
            r@.len() == orig.len() - v@.len(),
            forall|j: int| 0 <= j < r@.len() ==> #[trigger] r@[j] == orig[orig.len() - 1 - j],
        decreases v@.len(),
    {
        let x = v.pop().unwrap();
        r.push(x);
    }
    r
}

/// A sequence being read into a vector has more elements than fit: `len`
/// elements were announced or read where at most `at_most` fit.
#[derive(Clone, Copy, PartialEq, Eq, Debug, Structural)]
pub struct TooManyElements {
    pub len: usize,
    pub at_most: usize,
}

/// A vector with a fixed capacity.
pub struct FixedBumpVec<T> {
    initialized: Vec<T>,
    capacity: usize,
    buffer: Ghost<int>,
}

impl<T> View for FixedBumpVec<T> {
    type V = Seq<T>;

    closed spec fn view(&self) -> Seq<T> {
        self.initialized@
    }
}

impl<T> FixedBumpVec<T> {
    /// The number of elements the vector can hold.
    pub closed spec fn spec_capacity(self) -> nat {
        self.capacity as nat
    }

    /// The address of the buffer, where the first element is kept.
    pub closed spec fn spec_buffer(self) -> int {
        self.buffer@
    }

    /// The invariant: the elements fit in the capacity, a zero-sized `T` has
    /// capacity `usize::MAX`, and the buffer's size fits in an `isize`.
    pub open spec fn wf(self) -> bool {
        &&& self@.len() <= self.spec_capacity()
        &&& size_of::<T>() == 0 ==> self.spec_capacity() == usize::MAX
        &&& size_of::<T>() * self.spec_capacity() <= isize::MAX
    }

    /// An empty vector without a buffer.
    pub fn new() -> (r: Self)
        ensures
            r.wf(),
            r@ == Seq::<T>::empty(),
            r.spec_capacity() == empty_capacity::<T>(),
            r.spec_buffer() == align_of::<T>(),
    {
        let capacity = if core::mem::size_of::<T>() == 0 {
            usize::MAX
        } else {
            0
        };
        FixedBumpVec { initialized: Vec::new(), capacity, buffer: Ghost(align_of::<T>() as int) }
    }

    /// An empty vector with room for `capacity` elements, whose buffer is
    /// allocated in `allocator`. Nothing is allocated for a zero-sized `T` or
    /// a capacity of 0; otherwise this fails when the buffer's layout is not
    /// valid or the allocation fails.
    pub fn try_with_capacity_in<A: BaseAllocator, S: BumpAllocatorSettings>(
        capacity: usize,
        allocator: &mut RawBump<A, S>,
    ) -> (r: Result<Self, AllocError>)
        requires
            old(allocator).wf(),
        ensures
            final(allocator).wf(),
            r matches Ok(v) ==> v.wf() && v@ == Seq::<T>::empty() && v.spec_capacity() == buffer_capacity::<
                T,
            >(capacity as nat),
            size_of::<T>() == 0 || capacity == 0 ==> r is Ok && *final(allocator) == *old(allocator),
            layout_ok((size_of::<T>() * capacity) as int, align_of::<T>() as int) && old(allocator).alloc_owed(
                Layout::spec_array::<T>(capacity as int),
            ) ==> r is Ok,
            size_of::<T>() != 0 && capacity != 0 && !layout_ok(
                (size_of::<T>() * capacity) as int,
                align_of::<T>() as int,
            ) ==> r is Err && *final(allocator) == *old(allocator),
            size_of::<T>() != 0 && capacity != 0 && layout_ok(
                (size_of::<T>() * capacity) as int,
                align_of::<T>() as int,
            ) ==> exists|res: Result<usize, AllocError>|
                (res is Ok <==> r is Ok) && (r matches Ok(v) ==> res == Ok::<usize, AllocError>(v.spec_buffer() as usize))
                && #[trigger] old(allocator).alloc_post(
                    *final(allocator),
                    Layout::spec_array::<T>(capacity as int),
                    res,
                ) && old(allocator).alloc_fast_path(*final(allocator), Layout::spec_array::<T>(capacity as int), res) && (!(old(
                    allocator,
                ).has_chunk() && RawBump::<A, S>::fits(old(allocator).current_chunk(), Layout::spec_array::<T>(capacity as int), false))
                    ==> old(allocator).alloc_later_path(*final(allocator), Layout::spec_array::<T>(capacity as int), res)),
    {
        if core::mem::size_of::<T>() == 0 {
            return Ok(FixedBumpVec::new());
        }
        if capacity == 0 {
            return Ok(FixedBumpVec::new());
        }
        let res = allocator.alloc_slice::<T>(capacity);
        match res {
            Ok(addr) => {
                proof {
                    assert(layout_ok((size_of::<T>() * capacity) as int, align_of::<T>() as int));
                }
                Ok(FixedBumpVec { initialized: Vec::new(), capacity, buffer: Ghost(addr as int) })
            },
            Err(e) => Err(e),
        }
    }

    /// A full vector made of `initialized`; its capacity is its length
    /// (`usize::MAX` for a zero-sized `T`). Where `initialized` keeps its
    /// elements is not known here, so the buffer's address is left open.
    pub fn from_init(initialized: Vec<T>) -> (r: Self)
        requires
            size_of::<T>() * initialized@.len() <= isize::MAX,
        ensures
            r.wf(),
            r@ == initialized@,
            r.spec_capacity() == buffer_capacity::<T>(initialized@.len()),
    {
        let len = initialized.len();
        if core::mem::size_of::<T>() == 0 {
            proof {
                assert(size_of::<T>() * usize::MAX == 0);
            }
            return FixedBumpVec { initialized, capacity: usize::MAX, buffer: Ghost(arbitrary()) };
        }
        let capacity = len;
        FixedBumpVec { initialized, capacity, buffer: Ghost(arbitrary()) }
    }

    /// A full vector of the elements of `iter`, whose buffer for exactly
    /// that many elements is allocated in `allocator`; fails as
    /// [`try_with_capacity_in`](Self::try_with_capacity_in) does.
    pub fn try_from_iter_in<A: BaseAllocator, S: BumpAllocatorSettings>(
        iter: Vec<T>,
        allocator: &mut RawBump<A, S>,
    ) -> (r: Result<Self, AllocError>)
        requires
            old(allocator).wf(),
        ensures
            final(allocator).wf(),
            r matches Ok(v) ==> v.wf() && v@ == iter@ && v.spec_capacity() == buffer_capacity::<T>(
                iter@.len(),
            ),
            size_of::<T>() == 0 || iter@.len() == 0 ==> r is Ok && *final(allocator) == *old(allocator),
            layout_ok((size_of::<T>() * iter@.len()) as int, align_of::<T>() as int) && old(allocator).alloc_owed(
                Layout::spec_array::<T>(iter@.len() as int),
            ) ==> r is Ok,
            size_of::<T>() != 0 && iter@.len() != 0 && !layout_ok(
                (size_of::<T>() * iter@.len()) as int,
                align_of::<T>() as int,
            ) ==> r is Err && *final(allocator) == *old(allocator),
            size_of::<T>() != 0 && iter@.len() != 0 && layout_ok(
                (size_of::<T>() * iter@.len()) as int,
                align_of::<T>() as int,
            ) ==> exists|res: Result<usize, AllocError>|
                (res is Ok <==> r is Ok) && #[trigger] old(allocator).alloc_post(
                    *final(allocator),
                    Layout::spec_array::<T>(iter@.len() as int),
                    res,
                ) && old(allocator).alloc_fast_path(*final(allocator), Layout::spec_array::<T>(iter@.len() as int), res) && (!(old(
                    allocator,
                ).has_chunk() && RawBump::<A, S>::fits(old(allocator).current_chunk(), Layout::spec_array::<T>(iter@.len() as int), false))
                    ==> old(allocator).alloc_later_path(*final(allocator), Layout::spec_array::<T>(iter@.len() as int), res)),
    {
        let mut v = Self::try_with_capacity_in(iter.len(), allocator)?;
        v.append(iter);
        Ok(v)
    }

    /// The same as [`try_from_iter_in`](Self::try_from_iter_in): the number
    /// of elements is known in advance.
    pub fn try_from_iter_exact_in<A: BaseAllocator, S: BumpAllocatorSettings>(
        iter: Vec<T>,
        allocator: &mut RawBump<A, S>,
    ) -> (r: Result<Self, AllocError>)
        requires
            old(allocator).wf(),
        ensures
            final(allocator).wf(),
            r matches Ok(v) ==> v.wf() && v@ == iter@ && v.spec_capacity() == buffer_capacity::<T>(
                iter@.len(),
            ),
            size_of::<T>() == 0 || iter@.len() == 0 ==> r is Ok && *final(allocator) == *old(allocator),
            layout_ok((size_of::<T>() * iter@.len()) as int, align_of::<T>() as int) && old(allocator).alloc_owed(
                Layout::spec_array::<T>(iter@.len() as int),
            ) ==> r is Ok,
            size_of::<T>() != 0 && iter@.len() != 0 && !layout_ok(
                (size_of::<T>() * iter@.len()) as int,
                align_of::<T>() as int,
            ) ==> r is Err && *final(allocator) == *old(allocator),
            size_of::<T>() != 0 && iter@.len() != 0 && layout_ok(
                (size_of::<T>() * iter@.len()) as int,
                align_of::<T>() as int,
            ) ==> exists|res: Result<usize, AllocError>|
                (res is Ok <==> r is Ok) && #[trigger] old(allocator).alloc_post(
                    *final(allocator),
                    Layout::spec_array::<T>(iter@.len() as int),
                    res,
                ) && old(allocator).alloc_fast_path(*final(allocator), Layout::spec_array::<T>(iter@.len() as int), res) && (!(old(
                    allocator,
                ).has_chunk() && RawBump::<A, S>::fits(old(allocator).current_chunk(), Layout::spec_array::<T>(iter@.len() as int), false))
                    ==> old(allocator).alloc_later_path(*final(allocator), Layout::spec_array::<T>(iter@.len() as int), res)),
    {
        Self::try_from_iter_in(iter, allocator)
    }

    /// The number of elements the vector can hold.
    pub fn capacity(&self) -> (r: usize)
        ensures
            r == self.spec_capacity(),
    {
        self.capacity
    }

    /// The number of elements; at most the capacity.
    pub fn len(&self) -> (r: usize)
        requires
            self.wf(),
        ensures
            r == self@.len(),
            r <= self.spec_capacity(),
    {
        self.initialized.len()
    }

    /// Whether the vector has no elements.
    pub fn is_empty(&self) -> (r: bool)
        ensures
            r == (self@.len() == 0),
    {
        self.initialized.len() == 0
    }

    /// Whether the vector holds as many elements as its capacity.
    pub fn is_full(&self) -> (r: bool)
        ensures
            r == (self@.len() >= self.spec_capacity()),
    {
        self.initialized.len() >= self.capacity
    }

    /// The elements, without the spare capacity.
    pub fn into_boxed_slice(self) -> (r: Vec<T>)
        ensures
            r@ == self@,
    {
        self.initialized
    }

    /// An iterator that moves the elements out, in order.
    pub fn into_iter(self) -> (r: IntoIter<T>)
        ensures
            r@ == self@,
    {
        IntoIter::new(self.initialized)
    }

    /// The elements as a slice.
    pub fn as_slice(&self) -> (r: &[T])
        ensures
            r@ == self@,
    {
        self.initialized.as_slice()
    }

    /// Removes and returns the last element, if any.
    pub fn pop(&mut self) -> (r: Option<T>)
        requires
            old(self).wf(),
        ensures
            final(self).wf(),
            final(self).spec_capacity() == old(self).spec_capacity(),
            final(self).spec_buffer() == old(self).spec_buffer(),
            old(self)@.len() == 0 ==> r is None && final(self)@ == old(self)@,
            old(self)@.len() > 0 ==> r == Some(old(self)@.last()) && final(self)@ == old(
                self,
            )@.drop_last(),
    {
        self.initialized.pop()
    }

    /// Removes and returns the last element when `predicate` returns true
    /// for it; `predicate` may change it, and an element that stays is as
    /// `predicate` left it. Nothing happens to an empty vector.
    pub fn pop_if(&mut self, predicate: impl FnOnce(&mut T) -> bool) -> (r: Option<T>)
        requires
            old(self).wf(),
            forall|x: &mut T| call_requires(predicate, (x,)),
        ensures
            final(self).wf(),
            final(self).spec_capacity() == old(self).spec_capacity(),
            final(self).spec_buffer() == old(self).spec_buffer(),
            old(self)@.len() == 0 ==> r is None && final(self)@ == old(self)@,
            old(self)@.len() > 0 ==> exists|m: &mut T, b: bool|
                {
                    &&& *m == old(self)@.last()
                    &&& #[trigger] call_ensures(predicate, (m,), b)
                    &&& if b {
                        r == Some(*final(m)) && final(self)@ == old(self)@.drop_last()
                    } else {
                        r is None && final(self)@ == old(self)@.drop_last().push(*final(m))
                    }
                },
    {
        if self.initialized.len() == 0 {
            return None;
        }
        let mut x = self.initialized.pop().unwrap();
        let b = predicate(&mut x);
        if b {
            Some(x)
        } else {
            self.initialized.push(x);
            None
        }
    }

    /// Removes all elements.
    pub fn clear(&mut self)
        requires
            old(self).wf(),
        ensures
            final(self).wf(),
            final(self)@ == Seq::<T>::empty(),
            final(self).spec_capacity() == old(self).spec_capacity(),
            final(self).spec_buffer() == old(self).spec_buffer(),
    {
        self.initialized.clear();
    }

    /// Shortens the vector to `len` elements; does nothing when it is not
    /// longer than that.
    pub fn truncate(&mut self, len: usize)
        requires
            old(self).wf(),
        ensures
            final(self).wf(),
            final(self)@ == (if len < old(self)@.len() {
                old(self)@.subrange(0, len as int)
            } else {
                old(self)@
            }),
            final(self).spec_capacity() == old(self).spec_capacity(),
            final(self).spec_buffer() == old(self).spec_buffer(),
    {
        self.initialized.truncate(len);
    }

    /// Removes and returns the element at `index`, shifting the later ones
    /// down.
    pub fn remove(&mut self, index: usize) -> (r: T)
        requires
            old(self).wf(),
            index < old(self)@.len(),
        ensures
            final(self).wf(),
            r == old(self)@[index as int],
            final(self)@ == old(self)@.remove(index as int),
            final(self).spec_capacity() == old(self).spec_capacity(),
            final(self).spec_buffer() == old(self).spec_buffer(),
    {
        self.initialized.remove(index)
    }

    /// Removes and returns the element at `index`, putting the last element
    /// in its place.
    pub fn swap_remove(&mut self, index: usize) -> (r: T)
        requires
            old(self).wf(),
            index < old(self)@.len(),
        ensures
            final(self).wf(),
            r == old(self)@[index as int],
            final(self)@ == old(self)@.update(index as int, old(self)@.last()).drop_last(),
            final(self).spec_capacity() == old(self).spec_capacity(),
            final(self).spec_buffer() == old(self).spec_buffer(),
    {
        self.initialized.swap_remove(index)
    }

    /// Succeeds when `additional` more elements fit in the spare capacity.
    pub fn try_reserve(&mut self, additional: usize) -> (r: Result<(), AllocError>)
        requires
            old(self).wf(),
        ensures
            final(self).wf(),
            r is Ok <==> additional <= old(self).spec_capacity() - old(self)@.len(),
            *final(self) == *old(self),
    {
        if additional > self.capacity - self.initialized.len() {
            Err(AllocError)
        } else {
            Ok(())
        }
    }

    /// Checks that `additional` more elements fit in the spare capacity,
    /// which the caller guarantees; the vector does not change.
    pub fn reserve(&mut self, additional: usize)
        requires
            old(self).wf(),
            additional <= old(self).spec_capacity() - old(self)@.len(),
        ensures
            final(self).wf(),
            *final(self) == *old(self),
    {
    }

    /// Appends `value`, failing when the vector is full.
    pub fn try_push(&mut self, value: T) -> (r: Result<(), AllocError>)
        requires
            old(self).wf(),
        ensures
            final(self).wf(),
            r is Ok <==> old(self)@.len() < old(self).spec_capacity(),
            r is Ok ==> final(self)@ == old(self)@.push(value),
            r is Err ==> final(self)@ == old(self)@,
            final(self).spec_capacity() == old(self).spec_capacity(),
            final(self).spec_buffer() == old(self).spec_buffer(),
    {
        if self.initialized.len() >= self.capacity {
            return Err(AllocError);
        }
        self.initialized.push(value);
        Ok(())
    }

    /// Appends `value` to a vector that is not full.
    pub fn push(&mut self, value: T)
        requires
            old(self).wf(),
            old(self)@.len() < old(self).spec_capacity(),
        ensures
            final(self).wf(),
            final(self)@ == old(self)@.push(value),
            final(self).spec_capacity() == old(self).spec_capacity(),
            final(self).spec_buffer() == old(self).spec_buffer(),
    {
        self.initialized.push(value);
    }

    /// Appends the value `f` returns, failing without calling `f` when the
    /// vector is full.
    pub fn try_push_with(&mut self, f: impl FnOnce() -> T) -> (r: Result<(), AllocError>)
        requires
            old(self).wf(),
            old(self)@.len() < old(self).spec_capacity() ==> call_requires(f, ()),
        ensures
            final(self).wf(),
            r is Ok <==> old(self)@.len() < old(self).spec_capacity(),
            r is Ok ==> exists|v: T|
                #[trigger] call_ensures(f, (), v) && final(self)@ == old(self)@.push(v),
            r is Err ==> final(self)@ == old(self)@,
            final(self).spec_capacity() == old(self).spec_capacity(),
            final(self).spec_buffer() == old(self).spec_buffer(),
    {
        if self.initialized.len() >= self.capacity {
            return Err(AllocError);
        }
        let v = f();
        self.initialized.push(v);
        Ok(())
    }

    /// Appends the value `f` returns to a vector that is not full.
    pub fn push_with(&mut self, f: impl FnOnce() -> T)
        requires
            old(self).wf(),
            call_requires(f, ()),
            old(self)@.len() < old(self).spec_capacity(),
        ensures
            final(self).wf(),
            exists|v: T| #[trigger] call_ensures(f, (), v) && final(self)@ == old(self)@.push(v),
            final(self).spec_capacity() == old(self).spec_capacity(),
            final(self).spec_buffer() == old(self).spec_buffer(),
    {
        let v = f();
        self.initialized.push(v);
    }

    /// Inserts `element` at `index`, shifting the later elements up; fails
    /// when the vector is full.
    pub fn try_insert(&mut self, index: usize, element: T) -> (r: Result<(), AllocError>)
        requires
            old(self).wf(),
            index <= old(self)@.len(),
        ensures
            final(self).wf(),
            r is Ok <==> old(self)@.len() < old(self).spec_capacity(),
            r is Ok ==> final(self)@ == old(self)@.insert(index as int, element),
            r is Err ==> final(self)@ == old(self)@,
            final(self).spec_capacity() == old(self).spec_capacity(),
            final(self).spec_buffer() == old(self).spec_buffer(),
    {
        if self.initialized.len() >= self.capacity {
            return Err(AllocError);
        }
        self.initialized.insert(index, element);
        Ok(())
    }

    /// Inserts `element` at `index` in a vector that is not full.
    pub fn insert(&mut self, index: usize, element: T)
        requires
            old(self).wf(),
            index <= old(self)@.len(),
            old(self)@.len() < old(self).spec_capacity(),
        ensures
            final(self).wf(),
            final(self)@ == old(self)@.insert(index as int, element),
            final(self).spec_capacity() == old(self).spec_capacity(),
            final(self).spec_buffer() == old(self).spec_buffer(),
    {
        self.initialized.insert(index, element);
    }

    /// Appends the elements of `slice`, which fit in the spare capacity.
    fn extend_copy_unchecked(&mut self, slice: &[T]) where T: Copy
        requires
            old(self).wf(),
            old(self)@.len() + slice@.len() <= old(self).spec_capacity(),
        ensures
            final(self).wf(),
            final(self)@ == old(self)@ + slice@,
            final(self).spec_capacity() == old(self).spec_capacity(),
            final(self).spec_buffer() == old(self).spec_buffer(),
    {
        let mut i: usize = 0;
        while i < slice.len()
            invariant
                i <= slice@.len(),
                self.wf(),
                self.spec_capacity() == old(self).spec_capacity(),
                self.spec_buffer() == old(self).spec_buffer(),
                old(self)@.len() + slice@.len() <= self.spec_capacity(),
                self@ == old(self)@ + slice@.subrange(0, i as int),
            decreases slice@.len() - i,
        {
            self.initialized.push(slice[i]);
            proof {
                assert(slice@.subrange(0, i + 1) == slice@.subrange(0, i as int).push(slice@[i as int]));
            }
            i += 1;
        }
        proof {
            assert(slice@.subrange(0, slice@.len() as int) == slice@);
        }
    }

    /// Appends copies of the elements of `slice`; fails, changing nothing,
    /// when they do not fit in the spare capacity.
    pub fn try_extend_from_slice_copy(&mut self, slice: &[T]) -> (r: Result<(), AllocError>) where
        T: Copy,
        requires
            old(self).wf(),
        ensures
            final(self).wf(),
            r is Ok <==> slice@.len() <= old(self).spec_capacity() - old(self)@.len(),
            r is Ok ==> final(self)@ == old(self)@ + slice@,
            r is Err ==> final(self)@ == old(self)@,
            final(self).spec_capacity() == old(self).spec_capacity(),
            final(self).spec_buffer() == old(self).spec_buffer(),
    {
        if slice.len() > self.capacity - self.initialized.len() {
            return Err(AllocError);
        }
        self.extend_copy_unchecked(slice);
        Ok(())
    }

    /// Appends copies of the elements of `slice`, which fit in the spare
    /// capacity.
    pub fn extend_from_slice_copy(&mut self, slice: &[T]) where T: Copy
        requires
            old(self).wf(),
            slice@.len() <= old(self).spec_capacity() - old(self)@.len(),
        ensures
            final(self).wf(),
            final(self)@ == old(self)@ + slice@,
            final(self).spec_capacity() == old(self).spec_capacity(),
            final(self).spec_buffer() == old(self).spec_buffer(),
    {
        self.extend_copy_unchecked(slice);
    }

    /// Appends clones of the elements of `slice`, which fit in the spare
    /// capacity.
    fn extend_clone_unchecked(&mut self, slice: &[T]) where T: Clone
        requires
            old(self).wf(),
            old(self)@.len() + slice@.len() <= old(self).spec_capacity(),
        ensures
            final(self).wf(),
            final(self)@.len() == old(self)@.len() + slice@.len(),
            final(self)@.subrange(0, old(self)@.len() as int) == old(self)@,
            forall|i: int|
                0 <= i < slice@.len() ==> cloned::<T>(slice@[i], #[trigger] final(self)@[old(self)@.len() + i]),
            final(self).spec_capacity() == old(self).spec_capacity(),
            final(self).spec_buffer() == old(self).spec_buffer(),
    {
        let mut i: usize = 0;
        while i < slice.len()
            invariant
                i <= slice@.len(),
                self.wf(),
                self.spec_capacity() == old(self).spec_capacity(),
                self.spec_buffer() == old(self).spec_buffer(),
                old(self)@.len() + slice@.len() <= self.spec_capacity(),
                self@.len() == old(self)@.len() + i,
                self@.subrange(0, old(self)@.len() as int) == old(self)@,
                forall|k: int|
                    0 <= k < i ==> cloned::<T>(slice@[k], #[trigger] self@[old(self)@.len() + k]),
            decreases slice@.len() - i,
        {
            let v = slice[i].clone();
            let ghost before = self@;
            self.initialized.push(v);
            proof {
                assert(self@.subrange(0, old(self)@.len() as int) == before.subrange(0, old(self)@.len() as int));
                assert forall|k: int| 0 <= k < i + 1 implies cloned::<T>(slice@[k], #[trigger] self@[old(self)@.len() + k]) by {
                    if k < i {
                        assert(self@[old(self)@.len() + k] == before[old(self)@.len() + k]);
                    }
                }
            }
            i += 1;
        }
    }

    /// Appends clones of the elements of `slice`; fails, changing nothing,
    /// when they do not fit in the spare capacity.
    pub fn try_extend_from_slice_clone(&mut self, slice: &[T]) -> (r: Result<(), AllocError>) where
        T: Clone,
        requires
            old(self).wf(),
        ensures
            final(self).wf(),
            r is Ok <==> slice@.len() <= old(self).spec_capacity() - old(self)@.len(),
            r is Ok ==> final(self)@.len() == old(self)@.len() + slice@.len()
                && final(self)@.subrange(0, old(self)@.len() as int) == old(self)@
                && forall|i: int|
                0 <= i < slice@.len() ==> cloned::<T>(slice@[i], #[trigger] final(self)@[old(self)@.len() + i]),
            r is Err ==> final(self)@ == old(self)@,
            final(self).spec_capacity() == old(self).spec_capacity(),
            final(self).spec_buffer() == old(self).spec_buffer(),
    {
        if slice.len() > self.capacity - self.initialized.len() {
            return Err(AllocError);
        }
        self.extend_clone_unchecked(slice);
        Ok(())
    }

    /// Appends clones of the elements of `slice`, which fit in the spare
    /// capacity.
    pub fn extend_from_slice_clone(&mut self, slice: &[T]) where T: Clone
        requires
            old(self).wf(),
            slice@.len() <= old(self).spec_capacity() - old(self)@.len(),
        ensures
            final(self).wf(),
            final(self)@.len() == old(self)@.len() + slice@.len(),
            final(self)@.subrange(0, old(self)@.len() as int) == old(self)@,
            forall|i: int|
                0 <= i < slice@.len() ==> cloned::<T>(slice@[i], #[trigger] final(self)@[old(self)@.len() + i]),
            final(self).spec_capacity() == old(self).spec_capacity(),
            final(self).spec_buffer() == old(self).spec_buffer(),
    {
        self.extend_clone_unchecked(slice);
    }

    /// Appends copies of the elements in the range, which must lie within the
    /// vector; fails, changing nothing, when they do not fit in the spare
    /// capacity.
    pub fn try_extend_from_within_copy(&mut self, start: Bound, end: Bound) -> (r: Result<(), AllocError>) where
        T: Copy,
        requires
            old(self).wf(),
            range_in_bounds(start, end, old(self)@.len() as int),
        ensures
            final(self).wf(),
            ({
                let (s, e) = (range_start(start), range_end(end, old(self)@.len() as int));
                &&& r is Ok <==> e - s <= old(self).spec_capacity() - old(self)@.len()
                &&& r is Ok ==> final(self)@ == old(self)@ + old(self)@.subrange(s, e)
                &&& r is Err ==> final(self)@ == old(self)@
            }),
            final(self).spec_capacity() == old(self).spec_capacity(),
            final(self).spec_buffer() == old(self).spec_buffer(),
    {
        let (s, e) = slice_range(start, end, self.initialized.len());
        if e - s > self.capacity - self.initialized.len() {
            return Err(AllocError);
        }
        let mut j: usize = s;
        while j < e
            invariant
                s <= j <= e <= old(self)@.len(),
                self.wf(),
                self.spec_capacity() == old(self).spec_capacity(),
                self.spec_buffer() == old(self).spec_buffer(),
                old(self)@.len() + (e - s) <= self.spec_capacity(),
                self@ == old(self)@ + old(self)@.subrange(s as int, j as int),
            decreases e - j,
        {
            let v = self.initialized[j];
            self.initialized.push(v);
            proof {
                assert(old(self)@.subrange(s as int, j + 1) == old(self)@.subrange(s as int, j as int).push(old(self)@[j as int]));
            }
            j += 1;
        }
        Ok(())
    }

    /// Appends copies of the elements in the range, which must lie within the
    /// vector and fit in the spare capacity.
    pub fn extend_from_within_copy(&mut self, start: Bound, end: Bound) where T: Copy
        requires
            old(self).wf(),
            range_in_bounds(start, end, old(self)@.len() as int),
            range_end(end, old(self)@.len() as int) - range_start(start) <= old(self).spec_capacity() - old(self)@.len(),
        ensures
            final(self).wf(),
            final(self)@ == old(self)@ + old(self)@.subrange(range_start(start), range_end(end, old(self)@.len() as int)),
            final(self).spec_capacity() == old(self).spec_capacity(),
            final(self).spec_buffer() == old(self).spec_buffer(),
    {
        let r = self.try_extend_from_within_copy(start, end);
    }

    /// Appends clones of the elements in the range, which must lie within the
    /// vector; fails, changing nothing, when they do not fit in the spare
    /// capacity.
    pub fn try_extend_from_within_clone(&mut self, start: Bound, end: Bound) -> (r: Result<(), AllocError>) where
        T: Clone,
        requires
            old(self).wf(),
            range_in_bounds(start, end, old(self)@.len() as int),
        ensures
            final(self).wf(),
            ({
                let (s, e) = (range_start(start), range_end(end, old(self)@.len() as int));
                let n = old(self)@.len() as int;
                &&& r is Ok <==> e - s <= old(self).spec_capacity() - n
                &&& r is Ok ==> final(self)@.len() == n + (e - s)
                    && final(self)@.subrange(0, n) == old(self)@
                    && forall|i: int| 0 <= i < e - s ==> cloned::<T>(old(self)@[s + i], #[trigger] final(self)@[n + i])
                &&& r is Err ==> final(self)@ == old(self)@
            }),
            final(self).spec_capacity() == old(self).spec_capacity(),
            final(self).spec_buffer() == old(self).spec_buffer(),
    {
        let (s, e) = slice_range(start, end, self.initialized.len());
        if e - s > self.capacity - self.initialized.len() {
            return Err(AllocError);
        }
        let ghost n = old(self)@.len() as int;
        let mut j: usize = s;
        while j < e
            invariant
                s <= j <= e <= n,
                n == old(self)@.len(),
                self.wf(),
                self.spec_capacity() == old(self).spec_capacity(),
                self.spec_buffer() == old(self).spec_buffer(),
                n + (e - s) <= self.spec_capacity(),
                self@.len() == n + (j - s),
                self@.subrange(0, n) == old(self)@,
                forall|i: int| 0 <= i < j - s ==> cloned::<T>(old(self)@[s + i], #[trigger] self@[n + i]),
            decreases e - j,
        {
            proof {
                assert(self@[j as int] == old(self)@[j as int]);
            }
            let v = self.initialized[j].clone();
            let ghost before = self@;
            self.initialized.push(v);
            proof {
                assert(self@.subrange(0, n) == before.subrange(0, n));
                assert forall|i: int| 0 <= i < j + 1 - s implies cloned::<T>(old(self)@[s + i], #[trigger] self@[n + i]) by {
                    if i < j - s {
                        assert(self@[n + i] == before[n + i]);
                    }
                }
            }
            j += 1;
        }
        Ok(())
    }

    /// Appends clones of the elements in the range, which must lie within the
    /// vector and fit in the spare capacity.
    pub fn extend_from_within_clone(&mut self, start: Bound, end: Bound) where T: Clone
        requires
            old(self).wf(),
            range_in_bounds(start, end, old(self)@.len() as int),
            range_end(end, old(self)@.len() as int) - range_start(start) <= old(self).spec_capacity() - old(self)@.len(),
        ensures
            final(self).wf(),
            ({
                let (s, e) = (range_start(start), range_end(end, old(self)@.len() as int));
                let n = old(self)@.len() as int;
                &&& final(self)@.len() == n + (e - s)
                &&& final(self)@.subrange(0, n) == old(self)@
                &&& forall|i: int| 0 <= i < e - s ==> cloned::<T>(old(self)@[s + i], #[trigger] final(self)@[n + i])
            }),
            final(self).spec_capacity() == old(self).spec_capacity(),
            final(self).spec_buffer() == old(self).spec_buffer(),
    {
        let r = self.try_extend_from_within_clone(start, end);
    }

    /// Appends the elements of `other`; fails, changing nothing, when they
    /// do not fit in the spare capacity.
    pub fn try_append(&mut self, other: Vec<T>) -> (r: Result<(), AllocError>)
        requires
            old(self).wf(),
        ensures
            final(self).wf(),
            r is Ok <==> other@.len() <= old(self).spec_capacity() - old(self)@.len(),
            r is Ok ==> final(self)@ == old(self)@ + other@,
            r is Err ==> final(self)@ == old(self)@,
            final(self).spec_capacity() == old(self).spec_capacity(),
            final(self).spec_buffer() == old(self).spec_buffer(),
    {
        if other.len() > self.capacity - self.initialized.len() {
            return Err(AllocError);
        }
        let mut other = other;
        self.initialized.append(&mut other);
        Ok(())
    }

    /// Moves the elements of `other` to the end of the vector, leaving `other`
    /// empty; fails, changing neither, when they do not fit in the spare
    /// capacity.
    pub fn try_append_from(&mut self, other: &mut Vec<T>) -> (r: Result<(), AllocError>)
        requires
            old(self).wf(),
        ensures
            final(self).wf(),
            r is Ok <==> old(other)@.len() <= old(self).spec_capacity() - old(self)@.len(),
            r is Ok ==> final(self)@ == old(self)@ + old(other)@ && final(other)@.len() == 0,
            r is Err ==> final(self)@ == old(self)@ && final(other)@ == old(other)@,
            final(self).spec_capacity() == old(self).spec_capacity(),
            final(self).spec_buffer() == old(self).spec_buffer(),
    {
        if other.len() > self.capacity - self.initialized.len() {
            return Err(AllocError);
        }
        self.initialized.append(other);
        Ok(())
    }

    /// Moves the elements of `other`, which fit in the spare capacity, to the
    /// end of the vector, leaving `other` empty.
    pub fn append_from(&mut self, other: &mut Vec<T>)
        requires
            old(self).wf(),
            old(other)@.len() <= old(self).spec_capacity() - old(self)@.len(),
        ensures
            final(self).wf(),
            final(self)@ == old(self)@ + old(other)@,
            final(other)@.len() == 0,
            final(self).spec_capacity() == old(self).spec_capacity(),
            final(self).spec_buffer() == old(self).spec_buffer(),
    {
        self.initialized.append(other);
    }

    /// Appends the elements of `other`, which fit in the spare capacity.
    pub fn append(&mut self, other: Vec<T>)
        requires
            old(self).wf(),
            other@.len() <= old(self).spec_capacity() - old(self)@.len(),
        ensures
            final(self).wf(),
            final(self)@ == old(self)@ + other@,
            final(self).spec_capacity() == old(self).spec_capacity(),
            final(self).spec_buffer() == old(self).spec_buffer(),
    {
        let mut other = other;
        self.initialized.append(&mut other);
    }

    /// Removes the elements in the range, which must lie within the vector,
    /// and returns them in order.
    pub fn drain(&mut self, start: Bound, end: Bound) -> (r: Vec<T>)
        requires
            old(self).wf(),
            range_in_bounds(start, end, old(self)@.len() as int),
        ensures
            final(self).wf(),
            ({
                let (s, e) = (range_start(start), range_end(end, old(self)@.len() as int));
                &&& r@ == old(self)@.subrange(s, e)
                &&& final(self)@ == old(self)@.subrange(0, s) + old(self)@.subrange(e, old(self)@.len() as int)
            }),
            final(self).spec_capacity() == old(self).spec_capacity(),
            final(self).spec_buffer() == old(self).spec_buffer(),
    {
        let (s, e) = slice_range(start, end, self.initialized.len());
        let mut tail = self.initialized.split_off(e);
        let drained = self.initialized.split_off(s);
        self.initialized.append(&mut tail);
        drained
    }

    /// Splits the range off the vector and returns it as a vector of its own;
    /// the range must lie within the vector. The remaining elements keep
    /// their order, and the buffer is divided between the two vectors as
    /// [`split_off_capacities`] and [`split_off_offsets`] say.
    pub fn split_off(&mut self, start: Bound, end: Bound) -> (r: Self)
        requires
            old(self).wf(),
            range_in_bounds(start, end, old(self)@.len() as int),
        ensures
            final(self).wf(),
            r.wf(),
            ({
                let n = old(self)@.len() as int;
                let (s, e) = (range_start(start), range_end(end, n));
                let caps = split_off_capacities::<T>(n, old(self).spec_capacity() as int, s, e);
                &&& r@ == old(self)@.subrange(s, e)
                &&& final(self)@ == old(self)@.subrange(0, s) + old(self)@.subrange(e, n)
                &&& final(self).spec_capacity() == caps.0
                &&& r.spec_capacity() == caps.1
            }),
            ({
                let n = old(self)@.len() as int;
                let (s, e) = (range_start(start), range_end(end, n));
                let offs = split_off_offsets(n, s, e);
                &&& size_of::<T>() == 0 ==> final(self).spec_buffer() == old(self).spec_buffer()
                &&& size_of::<T>() != 0 ==> final(self).spec_buffer() == old(self).spec_buffer() + offs.0 * size_of::<T>()
                &&& size_of::<T>() != 0 && (s != e || e == n || s == 0) ==> r.spec_buffer() == old(self).spec_buffer()
                    + offs.1 * size_of::<T>()
                &&& size_of::<T>() != 0 && s == e && e != n && s != 0 ==> r.spec_buffer() == align_of::<T>()
            }),
    {
        let len = self.initialized.len();
        let (s, e) = slice_range(start, end, len);
        let cap = self.capacity;
        let mut tail = self.initialized.split_off(e);
        let taken = self.initialized.split_off(s);
        self.initialized.append(&mut tail);
        proof {
            assert(self@ == old(self)@.subrange(0, s as int) + old(self)@.subrange(e as int, len as int));
            lemma_buffer_size_monotone(size_of::<T>() as int, 0, cap as int);
        }
        if core::mem::size_of::<T>() == 0 {
            return FixedBumpVec { initialized: taken, capacity: usize::MAX, buffer: Ghost(align_of::<T>() as int) };
        }
        let (self_cap, taken_cap) = if e == len {
            (s, cap - s)
        } else if s == 0 {
            (cap - e, e)
        } else if s == e {
            (cap, 0)
        } else if s < len - e {
            (cap - (e - s), e - s)
        } else {
            (len - (e - s), cap - (len - (e - s)))
        };
        proof {
            lemma_buffer_size_monotone(size_of::<T>() as int, self_cap as int, cap as int);
            lemma_buffer_size_monotone(size_of::<T>() as int, taken_cap as int, cap as int);
        }
        let ghost buf = self.buffer@;
        let ghost offs = split_off_offsets(len as int, s as int, e as int);
        let ghost taken_buf = if s == e && e != len && s != 0 {
            align_of::<T>() as int
        } else {
            buf + offs.1 * size_of::<T>()
        };
        self.capacity = self_cap;
        self.buffer = Ghost(buf + offs.0 * size_of::<T>());
        FixedBumpVec { initialized: taken, capacity: taken_cap, buffer: Ghost(taken_buf) }
    }

    /// Keeps the elements for which `f` returns `keep_when`, in order, and
    /// returns the others, in order. `f` is called once on each element, in
    /// order, and may change it; `d` records what it returned and `vals` the
    /// elements as `f` left them.
    fn partition_by<F: FnMut(&mut T) -> bool>(&mut self, f: F, keep_when: bool) -> (r: (
        Vec<T>,
        Ghost<Seq<bool>>,
        Ghost<Seq<T>>,
    ))
        requires
            old(self).wf(),
            forall|x: &mut T| call_requires(f, (x,)),
        ensures
            final(self).wf(),
            final(self).spec_capacity() == old(self).spec_capacity(),
            final(self).spec_buffer() == old(self).spec_buffer(),
            r.1@.len() == old(self)@.len(),
            r.2@.len() == old(self)@.len(),
            forall|i: int|
                #[trigger] index_below(i, old(self)@.len() as int) ==> exists|m: &mut T|
                    *m == old(self)@[i] && *final(m) == r.2@[i] && #[trigger] call_ensures(f, (m,), r.1@[i]),
            final(self)@ == kept(r.2@, flags_equal(r.1@, keep_when)),
            r.0@ == kept(r.2@, flags_equal(r.1@, !keep_when)),
    {
        let ghost n = old(self)@.len() as int;
        let mut items: Vec<T> = Vec::new();
        core::mem::swap(&mut self.initialized, &mut items);
        let mut rev = reverse_vec(items);
        let mut removed: Vec<T> = Vec::new();
        let ghost f0 = f;
        let mut f = f;
        let ghost mut d: Seq<bool> = Seq::empty();
        let ghost mut vals: Seq<T> = Seq::empty();
        let mut i: usize = 0;
        while rev.len() > 0
            invariant
                f == f0,
                old(self).wf(),
                n == old(self)@.len(),
                i <= n,
                rev@.len() == n - i,
                forall|j: int| 0 <= j < rev@.len() ==> #[trigger] rev@[j] == old(self)@[n - 1 - j],
                forall|x: &mut T| call_requires(f, (x,)),
                d.len() == i,
                vals.len() == i,
                forall|k: int|
                    #[trigger] index_below(k, i as int) ==> exists|m: &mut T|
                        *m == old(self)@[k] && *final(m) == vals[k] && #[trigger] call_ensures(f0, (m,), d[k]),
                self.spec_capacity() == old(self).spec_capacity(),
                self.spec_buffer() == old(self).spec_buffer(),
                self.wf(),
                self@ == kept(vals, flags_equal(d, keep_when)),
                removed@ == kept(vals, flags_equal(d, !keep_when)),
                self@.len() <= i,
            decreases rev@.len(),
        {
            let mut x = rev.pop().unwrap();
            proof {
                assert(x == old(self)@[i as int]);
            }
            let ghost before = x;
            let b = f(&mut x);
            proof {
                let d2 = d.push(b);
                let v2 = vals.push(x);
                assert(exists|m: &mut T| *m == before && *final(m) == x && call_ensures(f, (m,), b));
                let m = choose|m: &mut T| *m == before && *final(m) == x && call_ensures(f, (m,), b);
                assert forall|k: int|
                    #[trigger] index_below(k, i + 1) implies exists|m2: &mut T|
                    *m2 == old(self)@[k] && *final(m2) == v2[k] && #[trigger] call_ensures(f0, (m2,), d2[k]) by {
                    if k < i {
                        assert(index_below(k, i as int));
                        assert(d2[k] == d[k] && v2[k] == vals[k]);
                    } else {
                        assert(*m == old(self)@[k] && *final(m) == v2[k] && call_ensures(f0, (m,), d2[k]));
                    }
                }
                assert(flags_equal(d2, keep_when).take(i as int) == flags_equal(d, keep_when));
                assert(flags_equal(d2, !keep_when).take(i as int) == flags_equal(d, !keep_when));
                assert(v2.take(i as int) == vals);
                lemma_kept_push(v2, flags_equal(d2, keep_when), i as int);
                lemma_kept_push(v2, flags_equal(d2, !keep_when), i as int);
                assert(flags_equal(d2, keep_when).take(i + 1) == flags_equal(d2, keep_when));
                assert(flags_equal(d2, !keep_when).take(i + 1) == flags_equal(d2, !keep_when));
                assert(v2.take(i + 1) == v2);
                d = d2;
                vals = v2;
            }
            if b == keep_when {
                self.initialized.push(x);
            } else {
                removed.push(x);
            }
            i += 1;
        }
        (removed, Ghost(d), Ghost(vals))
    }

    /// Keeps the elements for which `f` returns true, in order; `f` is called
    /// once on each element, in order, and the elements kept are as `f` left
    /// them.
    pub fn retain<F: FnMut(&mut T) -> bool>(&mut self, f: F)
        requires
            old(self).wf(),
            forall|x: &mut T| call_requires(f, (x,)),
        ensures
            final(self).wf(),
            final(self).spec_capacity() == old(self).spec_capacity(),
            final(self).spec_buffer() == old(self).spec_buffer(),
            exists|keep: Seq<bool>, vals: Seq<T>|
                #![trigger kept(vals, keep)]
                {
                    &&& keep.len() == old(self)@.len()
                    &&& vals.len() == old(self)@.len()
                    &&& forall|i: int|
                        #[trigger] index_below(i, old(self)@.len() as int) ==> exists|m: &mut T|
                            *m == old(self)@[i] && *final(m) == vals[i] && #[trigger] call_ensures(f, (m,), keep[i])
                    &&& final(self)@ == kept(vals, keep)
                },
    {
        let (_removed, Ghost(d), Ghost(vals)) = self.partition_by(f, true);
        proof {
            assert(flags_equal(d, true) == d);
        }
    }

    /// Removes the elements for which `filter` returns true and returns them,
    /// both parts in order; `filter` is called once on each element, in
    /// order, and both parts hold the elements as `filter` left them.
    pub fn extract_if<F: FnMut(&mut T) -> bool>(&mut self, filter: F) -> (r: Vec<T>)
        requires
            old(self).wf(),
            forall|x: &mut T| call_requires(filter, (x,)),
        ensures
            final(self).wf(),
            final(self).spec_capacity() == old(self).spec_capacity(),
            final(self).spec_buffer() == old(self).spec_buffer(),
            exists|taken: Seq<bool>, vals: Seq<T>|
                #![trigger kept(vals, taken)]
                {
                    &&& taken.len() == old(self)@.len()
                    &&& vals.len() == old(self)@.len()
                    &&& forall|i: int|
                        #[trigger] index_below(i, old(self)@.len() as int) ==> exists|m: &mut T|
                            *m == old(self)@[i] && *final(m) == vals[i] && #[trigger] call_ensures(filter, (m,), taken[i])
                    &&& r@ == kept(vals, taken)
                    &&& final(self)@ == kept(vals, flags_equal(taken, false))
                },
    {
        let (removed, Ghost(d), Ghost(vals)) = self.partition_by(filter, false);
        proof {
            assert(flags_equal(d, true) == d);
        }
        removed
    }

    /// Resizes the vector to `new_len` elements: truncates it when it is not
    /// shorter, else appends `new_len - len` values, clones of `value` and
    /// then `value` itself; fails, changing nothing, when they do not fit in
    /// the spare capacity.
    pub fn try_resize(&mut self, new_len: usize, value: T) -> (r: Result<(), AllocError>) where
        T: Clone,
        requires
            old(self).wf(),
        ensures
            final(self).wf(),
            final(self).spec_capacity() == old(self).spec_capacity(),
            final(self).spec_buffer() == old(self).spec_buffer(),
            r is Ok <==> new_len <= old(self)@.len() || new_len <= old(self).spec_capacity(),
            r is Err ==> final(self)@ == old(self)@,
            r is Ok && new_len <= old(self)@.len() ==> final(self)@ == old(self)@.subrange(0, new_len as int),
            r is Ok && new_len > old(self)@.len() ==> {
                &&& final(self)@.len() == new_len
                &&& final(self)@.subrange(0, old(self)@.len() as int) == old(self)@
                &&& forall|i: int|
                    old(self)@.len() <= i < new_len - 1 ==> cloned::<T>(value, #[trigger] final(self)@[i])
                &&& final(self)@[new_len - 1] == value
            },
    {
        let len = self.initialized.len();
        if new_len <= len {
            self.initialized.truncate(new_len);
            return Ok(());
        }
        if new_len - len > self.capacity - len {
            return Err(AllocError);
        }
        let mut k: usize = len + 1;
        while k < new_len
            invariant
                len + 1 <= k <= new_len,
                len == old(self)@.len(),
                new_len <= self.spec_capacity(),
                self.wf(),
                self.spec_capacity() == old(self).spec_capacity(),
                self.spec_buffer() == old(self).spec_buffer(),
                self@.len() == k - 1,
                self@.subrange(0, len as int) == old(self)@,
                forall|i: int| len <= i < k - 1 ==> cloned::<T>(value, #[trigger] self@[i]),
            decreases new_len - k,
        {
            let v = value.clone();
            let ghost before = self@;
            self.initialized.push(v);
            proof {
                assert(self@.subrange(0, len as int) == before.subrange(0, len as int));
                assert forall|i: int| len <= i < k implies cloned::<T>(value, #[trigger] self@[i]) by {
                    if i < k - 1 {
                        assert(self@[i] == before[i]);
                    }
                }
            }
            k += 1;
        }
        let ghost before = self@;
        self.initialized.push(value);
        proof {
            assert(self@.subrange(0, len as int) == before.subrange(0, len as int));
            assert forall|i: int| len <= i < new_len - 1 implies cloned::<T>(value, #[trigger] self@[i]) by {
                assert(self@[i] == before[i]);
            }
        }
        Ok(())
    }

    /// Resizes the vector to `new_len` elements, which fit in the capacity;
    /// see [`try_resize`](Self::try_resize).
    pub fn resize(&mut self, new_len: usize, value: T) where T: Clone
        requires
            old(self).wf(),
            new_len <= old(self)@.len() || new_len <= old(self).spec_capacity(),
        ensures
            final(self).wf(),
            final(self).spec_capacity() == old(self).spec_capacity(),
            final(self).spec_buffer() == old(self).spec_buffer(),
            new_len <= old(self)@.len() ==> final(self)@ == old(self)@.subrange(0, new_len as int),
            new_len > old(self)@.len() ==> {
                &&& final(self)@.len() == new_len
                &&& final(self)@.subrange(0, old(self)@.len() as int) == old(self)@
                &&& forall|i: int|
                    old(self)@.len() <= i < new_len - 1 ==> cloned::<T>(value, #[trigger] final(self)@[i])
                &&& final(self)@[new_len - 1] == value
            },
    {
        let _ = self.try_resize(new_len, value);
    }

    /// Resizes the vector to `new_len` elements: truncates it when it is not
    /// shorter, else appends the values of `new_len - len` calls of `f`;
    /// fails, changing nothing and without calling `f`, when they do not fit
    /// in the spare capacity.
    pub fn try_resize_with<F: FnMut() -> T>(&mut self, new_len: usize, f: F) -> (r: Result<(), AllocError>)
        requires
            old(self).wf(),
            call_requires(f, ()),
        ensures
            final(self).wf(),
            final(self).spec_capacity() == old(self).spec_capacity(),
            final(self).spec_buffer() == old(self).spec_buffer(),
            r is Ok <==> new_len <= old(self)@.len() || new_len <= old(self).spec_capacity(),
            r is Err ==> final(self)@ == old(self)@,
            r is Ok && new_len <= old(self)@.len() ==> final(self)@ == old(self)@.subrange(0, new_len as int),
            r is Ok && new_len > old(self)@.len() ==> {
                &&& final(self)@.len() == new_len
                &&& final(self)@.subrange(0, old(self)@.len() as int) == old(self)@
                &&& forall|i: int| old(self)@.len() <= i < new_len ==> call_ensures(f, (), #[trigger] final(self)@[i])
            },
    {
        let len = self.initialized.len();
        if new_len <= len {
            self.initialized.truncate(new_len);
            return Ok(());
        }
        if new_len - len > self.capacity - len {
            return Err(AllocError);
        }
        let ghost f0 = f;
        let mut f = f;
        let mut k: usize = len;
        while k < new_len
            invariant
                f == f0,
                call_requires(f, ()),
                len <= k <= new_len,
                len == old(self)@.len(),
                new_len <= self.spec_capacity(),
                self.wf(),
                self.spec_capacity() == old(self).spec_capacity(),
                self.spec_buffer() == old(self).spec_buffer(),
                self@.len() == k,
                self@.subrange(0, len as int) == old(self)@,
                forall|i: int| len <= i < k ==> call_ensures(f0, (), #[trigger] self@[i]),
            decreases new_len - k,
        {
            let v = f();
            let ghost before = self@;
            self.initialized.push(v);
            proof {
                assert(self@.subrange(0, len as int) == before.subrange(0, len as int));
                assert forall|i: int| len <= i < k + 1 implies call_ensures(f0, (), #[trigger] self@[i]) by {
                    if i < k {
                        assert(self@[i] == before[i]);
                    }
                }
            }
            k += 1;
        }
        Ok(())
    }

    /// Resizes the vector to `new_len` elements, which fit in the capacity;
    /// see [`try_resize_with`](Self::try_resize_with).
    pub fn resize_with<F: FnMut() -> T>(&mut self, new_len: usize, f: F)
        requires
            old(self).wf(),
            call_requires(f, ()),
            new_len <= old(self)@.len() || new_len <= old(self).spec_capacity(),
        ensures
            final(self).wf(),
            final(self).spec_capacity() == old(self).spec_capacity(),
            final(self).spec_buffer() == old(self).spec_buffer(),
            new_len <= old(self)@.len() ==> final(self)@ == old(self)@.subrange(0, new_len as int),
            new_len > old(self)@.len() ==> {
                &&& final(self)@.len() == new_len
                &&& final(self)@.subrange(0, old(self)@.len() as int) == old(self)@
                &&& forall|i: int| old(self)@.len() <= i < new_len ==> call_ensures(f, (), #[trigger] final(self)@[i])
            },
    {
        let _ = self.try_resize_with(new_len, f);
    }

    /// Applies `f` to each element, in order, and reuses the buffer for the
    /// results; `U` may be neither larger nor more strictly aligned than `T`.
    /// The capacity becomes the number of `U`s that fit in the buffer
    /// (`usize::MAX` for a zero-sized `U`).
    pub fn map_in_place<U, F: FnMut(T) -> U>(self, f: F) -> (r: FixedBumpVec<U>)
        requires
            self.wf(),
            size_of::<U>() <= size_of::<T>(),
            align_of::<U>() <= align_of::<T>(),
            forall|x: T| call_requires(f, (x,)),
        ensures
            r.wf(),
            r@.len() == self@.len(),
            forall|i: int| 0 <= i < self@.len() ==> call_ensures(f, (self@[i],), #[trigger] r@[i]),
            r.spec_capacity() == (if size_of::<U>() == 0 {
                usize::MAX as int
            } else {
                ((self.spec_capacity() * size_of::<T>()) as int) / (size_of::<U>() as int)
            }),
            size_of::<U>() != 0 ==> r.spec_buffer() == self.spec_buffer(),
    {
        let cap = self.capacity;
        let ghost n = self@.len() as int;
        let ghost items = self@;
        proof {
            assert(size_of::<T>() * cap <= isize::MAX);
        }
        let mut rev = reverse_vec(self.initialized);
        let mut out: Vec<U> = Vec::new();
        let ghost f0 = f;
        let mut f = f;
        let mut i: usize = 0;
        while rev.len() > 0
            invariant
                f == f0,
                forall|x: T| call_requires(f, (x,)),
                n == items.len(),
                n <= cap,
                i <= n,
                rev@.len() == n - i,
                forall|j: int| 0 <= j < rev@.len() ==> #[trigger] rev@[j] == items[n - 1 - j],
                out@.len() == i,
                forall|k: int| 0 <= k < i ==> call_ensures(f0, (items[k],), #[trigger] out@[k]),
            decreases rev@.len(),
        {
            let x = rev.pop().unwrap();
            proof {
                assert(x == items[i as int]);
            }
            let y = f(x);
            out.push(y);
            i += 1;
        }
        let su = core::mem::size_of::<U>();
        if su == 0 {
            proof {
                assert(size_of::<U>() * usize::MAX == 0);
            }
            return FixedBumpVec { initialized: out, capacity: usize::MAX, buffer: Ghost(self.buffer@) };
        }
        let st = core::mem::size_of::<T>();
        proof {
            lemma_map_capacity(n, cap as int, st as int, su as int);
            assert(cap * st == st * cap) by (nonlinear_arith);
        }
        let new_cap = (cap * st) / su;
        FixedBumpVec { initialized: out, capacity: new_cap, buffer: Ghost(self.buffer@) }
    }

    /// Removes each element for which `same_bucket` holds of it and of the
    /// last element kept before it; the first element is always kept. Both
    /// are passed by mutable reference, the later one first, and stay as
    /// `same_bucket` left them (see [`dedup_fold`]).
    pub fn dedup_by<F: FnMut(&mut T, &mut T) -> bool>(&mut self, same_bucket: F)
        requires
            old(self).wf(),
            forall|a: &mut T, b: &mut T| call_requires(same_bucket, (a, b)),
        ensures
            final(self).wf(),
            final(self).spec_capacity() == old(self).spec_capacity(),
            final(self).spec_buffer() == old(self).spec_buffer(),
            exists|res: Seq<(bool, T, T)>|
                #![trigger dedup_fold(old(self)@, res, old(self)@.len() as int)]
                {
                    &&& res.len() == old(self)@.len()
                    &&& forall|i: int|
                        #[trigger] index_below(i, old(self)@.len() as int) && 1 <= i ==> exists|ma: &mut T, mb: &mut T|
                            {
                                &&& *ma == old(self)@[i]
                                &&& *mb == dedup_fold(old(self)@, res, i).last()
                                &&& *final(ma) == res[i].1
                                &&& *final(mb) == res[i].2
                                &&& #[trigger] call_ensures(same_bucket, (ma, mb), res[i].0)
                            }
                    &&& final(self)@ == dedup_fold(old(self)@, res, old(self)@.len() as int)
                },
    {
        let ghost n = old(self)@.len() as int;
        let mut items: Vec<T> = Vec::new();
        core::mem::swap(&mut self.initialized, &mut items);
        let mut rev = reverse_vec(items);
        let ghost f0 = same_bucket;
        let mut same_bucket = same_bucket;
        let ghost mut res: Seq<(bool, T, T)> = Seq::empty();
        let mut i: usize = 0;
        while rev.len() > 0
            invariant
                same_bucket == f0,
                forall|a: &mut T, b: &mut T| call_requires(same_bucket, (a, b)),
                old(self).wf(),
                n == old(self)@.len(),
                i <= n,
                rev@.len() == n - i,
                forall|j: int| 0 <= j < rev@.len() ==> #[trigger] rev@[j] == old(self)@[n - 1 - j],
                res.len() == i,
                forall|k: int|
                    #[trigger] index_below(k, i as int) && 1 <= k ==> exists|ma: &mut T, mb: &mut T|
                        {
                            &&& *ma == old(self)@[k]
                            &&& *mb == dedup_fold(old(self)@, res, k).last()
                            &&& *final(ma) == res[k].1
                            &&& *final(mb) == res[k].2
                            &&& #[trigger] call_ensures(f0, (ma, mb), res[k].0)
                        },
                self.spec_capacity() == old(self).spec_capacity(),
                self.spec_buffer() == old(self).spec_buffer(),
                self.wf(),
                self@ == dedup_fold(old(self)@, res, i as int),
            decreases rev@.len(),
        {
            let mut x = rev.pop().unwrap();
            proof {
                assert(x == old(self)@[i as int]);
                if i > 0 {
                    lemma_dedup_fold_len(old(self)@, res, i as int);
                }
            }
            if i == 0 {
                proof {
                    res = res.push((true, x, x));
                }
                self.initialized.push(x);
            } else {
                let ghost before_a = x;
                let mut last = self.initialized.pop().unwrap();
                let ghost before_k = last;
                let dup = same_bucket(&mut x, &mut last);
                proof {
                    assert(exists|ma: &mut T, mb: &mut T|
                        *ma == before_a && *mb == before_k && *final(ma) == x && *final(mb) == last
                            && call_ensures(same_bucket, (ma, mb), dup));
                    let (ma, mb) = choose|ma: &mut T, mb: &mut T|
                        *ma == before_a && *mb == before_k && *final(ma) == x && *final(mb) == last
                            && call_ensures(same_bucket, (ma, mb), dup);
                    let res2 = res.push((dup, x, last));
                    assert forall|k: int|
                        #[trigger] index_below(k, i + 1) && 1 <= k implies exists|ma2: &mut T, mb2: &mut T|
                        {
                            &&& *ma2 == old(self)@[k]
                            &&& *mb2 == dedup_fold(old(self)@, res2, k).last()
                            &&& *final(ma2) == res2[k].1
                            &&& *final(mb2) == res2[k].2
                            &&& #[trigger] call_ensures(f0, (ma2, mb2), res2[k].0)
                        } by {
                        lemma_dedup_fold_push(old(self)@, res, (dup, x, last), k);
                        if k < i {
                            assert(index_below(k, i as int));
                            assert(res2[k] == res[k]);
                        } else {
                            assert(*ma == old(self)@[k] && *mb == dedup_fold(old(self)@, res2, k).last()
                                && *final(ma) == res2[k].1 && *final(mb) == res2[k].2
                                && call_ensures(f0, (ma, mb), res2[k].0));
                        }
                    }
                    lemma_dedup_fold_push(old(self)@, res, (dup, x, last), i as int);
                    res = res2;
                }
                self.initialized.push(last);
                if !dup {
                    self.initialized.push(x);
                }
            }
            i += 1;
            proof {
                lemma_dedup_fold_len(old(self)@, res, i as int);
            }
        }
    }

    /// Removes each element equal to the last element kept before it; the
    /// first element is always kept, and the elements are not changed. Where
    /// `T`'s equality is the one its specification describes, the decisions
    /// follow it (see [`dedup_fold`]).
    pub fn dedup(&mut self) where T: PartialEq
        requires
            old(self).wf(),
        ensures
            final(self).wf(),
            final(self).spec_capacity() == old(self).spec_capacity(),
            final(self).spec_buffer() == old(self).spec_buffer(),
            exists|res: Seq<(bool, T, T)>|
                #![trigger dedup_fold(old(self)@, res, old(self)@.len() as int)]
                {
                    &&& res.len() == old(self)@.len()
                    &&& forall|i: int|
                        #[trigger] index_below(i, old(self)@.len() as int) && 1 <= i ==> {
                            &&& res[i].1 == old(self)@[i]
                            &&& res[i].2 == dedup_fold(old(self)@, res, i).last()
                            &&& T::obeys_eq_spec() ==> res[i].0 == old(self)@[i].eq_spec(
                                &dedup_fold(old(self)@, res, i).last(),
                            )
                        }
                    &&& final(self)@ == dedup_fold(old(self)@, res, old(self)@.len() as int)
                },
    {
        let same = |a: &mut T, b: &mut T| -> (r: bool)
            ensures
                T::obeys_eq_spec() ==> r == (*old(a)).eq_spec(&*old(b)),
                *final(a) == *old(a),
                *final(b) == *old(b),
            { (*a).eq(&*b) };
        self.dedup_by(same);
    }

    /// Removes each element whose key, as `key` gives it, equals that of the
    /// last element kept before it; the first element is always kept. For
    /// each later element, `key` is called on it and then on the last kept
    /// one, both by mutable reference, and they stay as `key` left them;
    /// where `K`'s equality is the one its specification describes, the
    /// decisions follow it (see [`dedup_fold`]).
    pub fn dedup_by_key<K: PartialEq, F: FnMut(&mut T) -> K>(&mut self, key: F)
        requires
            old(self).wf(),
            forall|a: &mut T| call_requires(key, (a,)),
        ensures
            final(self).wf(),
            final(self).spec_capacity() == old(self).spec_capacity(),
            final(self).spec_buffer() == old(self).spec_buffer(),
            exists|res: Seq<(bool, T, T)>, ka: Seq<K>, kb: Seq<K>|
                #![trigger dedup_fold(old(self)@, res, old(self)@.len() as int), ka.len(), kb.len()]
                {
                    &&& res.len() == old(self)@.len()
                    &&& ka.len() == old(self)@.len()
                    &&& kb.len() == old(self)@.len()
                    &&& forall|i: int|
                        #[trigger] index_below(i, old(self)@.len() as int) && 1 <= i ==> {
                            &&& exists|ma: &mut T|
                                *ma == old(self)@[i] && *final(ma) == res[i].1 && #[trigger] call_ensures(key, (ma,), ka[i])
                            &&& exists|mb: &mut T|
                                *mb == dedup_fold(old(self)@, res, i).last() && *final(mb) == res[i].2
                                    && #[trigger] call_ensures(key, (mb,), kb[i])
                            &&& K::obeys_eq_spec() ==> res[i].0 == ka[i].eq_spec(&kb[i])
                        }
                    &&& final(self)@ == dedup_fold(old(self)@, res, old(self)@.len() as int)
                },
    {
        let ghost n = old(self)@.len() as int;
        let mut items: Vec<T> = Vec::new();
        core::mem::swap(&mut self.initialized, &mut items);
        let mut rev = reverse_vec(items);
        let ghost f0 = key;
        let mut key = key;
        let ghost mut res: Seq<(bool, T, T)> = Seq::empty();
        let ghost mut kas: Seq<K> = Seq::empty();
        let ghost mut kbs: Seq<K> = Seq::empty();
        let mut i: usize = 0;
        while rev.len() > 0
            invariant
                key == f0,
                forall|a: &mut T| call_requires(key, (a,)),
                old(self).wf(),
                n == old(self)@.len(),
                i <= n,
                rev@.len() == n - i,
                forall|j: int| 0 <= j < rev@.len() ==> #[trigger] rev@[j] == old(self)@[n - 1 - j],
                res.len() == i,
                kas.len() == i,
                kbs.len() == i,
                forall|k: int|
                    #[trigger] index_below(k, i as int) && 1 <= k ==> {
                        &&& exists|ma: &mut T|
                            *ma == old(self)@[k] && *final(ma) == res[k].1 && #[trigger] call_ensures(f0, (ma,), kas[k])
                        &&& exists|mb: &mut T|
                            *mb == dedup_fold(old(self)@, res, k).last() && *final(mb) == res[k].2
                                && #[trigger] call_ensures(f0, (mb,), kbs[k])
                        &&& K::obeys_eq_spec() ==> res[k].0 == kas[k].eq_spec(&kbs[k])
                    },
                self.spec_capacity() == old(self).spec_capacity(),
                self.spec_buffer() == old(self).spec_buffer(),
                self.wf(),
                self@ == dedup_fold(old(self)@, res, i as int),
            decreases rev@.len(),
        {
            let mut x = rev.pop().unwrap();
            proof {
                assert(x == old(self)@[i as int]);
                if i > 0 {
                    lemma_dedup_fold_len(old(self)@, res, i as int);
                }
            }
            if i == 0 {
                proof {
                    res = res.push((true, x, x));
                    kas = kas.push(vstd::pervasive::arbitrary());
                    kbs = kbs.push(vstd::pervasive::arbitrary());
                }
                self.initialized.push(x);
            } else {
                let ghost before_a = x;
                let mut last = self.initialized.pop().unwrap();
                let ghost before_k = last;
                let ka = key(&mut x);
                let kb = key(&mut last);
                let dup = ka.eq(&kb);
                proof {
                    assert(exists|ma: &mut T| *ma == before_a && *final(ma) == x && call_ensures(key, (ma,), ka));
                    assert(exists|mb: &mut T| *mb == before_k && *final(mb) == last && call_ensures(key, (mb,), kb));
                    let ma = choose|ma: &mut T| *ma == before_a && *final(ma) == x && call_ensures(key, (ma,), ka);
                    let mb = choose|mb: &mut T| *mb == before_k && *final(mb) == last && call_ensures(key, (mb,), kb);
                    let res2 = res.push((dup, x, last));
                    let kas2 = kas.push(ka);
                    let kbs2 = kbs.push(kb);
                    assert forall|k: int|
                        #[trigger] index_below(k, i + 1) && 1 <= k implies {
                            &&& exists|ma2: &mut T|
                                *ma2 == old(self)@[k] && *final(ma2) == res2[k].1 && #[trigger] call_ensures(f0, (ma2,), kas2[k])
                            &&& exists|mb2: &mut T|
                                *mb2 == dedup_fold(old(self)@, res2, k).last() && *final(mb2) == res2[k].2
                                    && #[trigger] call_ensures(f0, (mb2,), kbs2[k])
                            &&& K::obeys_eq_spec() ==> res2[k].0 == kas2[k].eq_spec(&kbs2[k])
                        } by {
                        lemma_dedup_fold_push(old(self)@, res, (dup, x, last), k);
                        if k < i {
                            assert(index_below(k, i as int));
                            assert(res2[k] == res[k] && kas2[k] == kas[k] && kbs2[k] == kbs[k]);
                        } else {
                            assert(*ma == old(self)@[k] && *final(ma) == res2[k].1 && call_ensures(f0, (ma,), kas2[k]));
                            assert(*mb == dedup_fold(old(self)@, res2, k).last() && *final(mb) == res2[k].2
                                && call_ensures(f0, (mb,), kbs2[k]));
                        }
                    }
                    lemma_dedup_fold_push(old(self)@, res, (dup, x, last), i as int);
                    res = res2;
                    kas = kas2;
                    kbs = kbs2;
                }
                self.initialized.push(last);
                if !dup {
                    self.initialized.push(x);
                }
            }
            i += 1;
            proof {
                lemma_dedup_fold_len(old(self)@, res, i as int);
            }
        }
    }

    /// Before reading a sequence into the spare capacity: refuses a sequence
    /// whose announced length exceeds the spare capacity.
    pub fn check_size_hint(&self, size_hint: Option<usize>) -> (r: Result<(), TooManyElements>)
        requires
            self.wf(),
        ensures
            ({
                let spare = self.spec_capacity() - self@.len();
                match size_hint {
                    Some(n) => if n > spare {
                        r == Err::<(), TooManyElements>(TooManyElements { len: n, at_most: spare as usize })
                    } else {
                        r is Ok
                    },
                    None => r is Ok,
                }
            }),
    {
        let remaining = self.capacity - self.initialized.len();
        match size_hint {
            Some(n) => if n > remaining {
                Err(TooManyElements { len: n, at_most: remaining })
            } else {
                Ok(())
            },
            None => Ok(()),
        }
    }

    /// Reading a sequence: appends its next element, or, when the vector is
    /// full, refuses it, reporting one more element than the vector holds
    /// against `remaining`, the spare capacity when reading began.
    pub fn push_read_element(&mut self, elem: T, remaining: usize) -> (r: Result<(), TooManyElements>)
        requires
            old(self).wf(),
        ensures
            final(self).wf(),
            final(self).spec_capacity() == old(self).spec_capacity(),
            final(self).spec_buffer() == old(self).spec_buffer(),
            old(self)@.len() < old(self).spec_capacity() ==> r is Ok && final(self)@ == old(self)@.push(elem),
            old(self)@.len() >= old(self).spec_capacity() ==> final(self)@ == old(self)@ && r == Err::<
                (),
                TooManyElements,
            >(
                TooManyElements {
                    len: if old(self)@.len() < usize::MAX {
                        (old(self)@.len() + 1) as usize
                    } else {
                        usize::MAX
                    },
                    at_most: remaining,
                },
            ),
    {
        let len = self.initialized.len();
        match self.try_push(elem) {
            Ok(()) => Ok(()),
            Err(_) => Err(TooManyElements { len: len.saturating_add(1), at_most: remaining }),
        }
    }

    /// The elements and the number of unused slots of the buffer after them.
    pub fn split_at_spare(self) -> (r: (Vec<T>, usize))
        requires
            self.wf(),
        ensures
            r.0@ == self@,
            r.1 == self.spec_capacity() - self@.len(),
    {
        let spare = self.capacity - self.initialized.len();
        (self.initialized, spare)
    }
}

/// The elements of an array, moved into a vector of their own.
///
/// Calls `Vec::from` on the array, whose documentation says that it moves the
/// array's elements, in order, into a new vector; the contract claims that
/// the vector holds exactly those elements.
#[verifier::external_body]
pub(crate) fn array_into_vec<T, const N: usize>(array: [T; N]) -> (r: Vec<T>)
    ensures
        r@ == array@,
{
    Vec::from(array)
}

impl FixedBumpVec<u8> {
    /// Appends the bytes of `buf` and returns their number; fails, changing
    /// nothing, when they do not fit in the spare capacity.
    pub fn write(&mut self, buf: &[u8]) -> (r: Result<usize, AllocError>)
        requires
            old(self).wf(),
        ensures
            final(self).wf(),
            final(self).spec_capacity() == old(self).spec_capacity(),
            final(self).spec_buffer() == old(self).spec_buffer(),
            r is Ok <==> buf@.len() <= old(self).spec_capacity() - old(self)@.len(),
            r is Ok ==> r == Ok::<usize, AllocError>(buf@.len() as usize) && final(self)@ == old(self)@ + buf@,
            r is Err ==> final(self)@ == old(self)@,
    {
        match self.try_extend_from_slice_copy(buf) {
            Ok(()) => Ok(buf.len()),
            Err(e) => Err(e),
        }
    }

    /// Appends all bytes of `buf`; fails, changing nothing, when they do not
    /// fit in the spare capacity.
    pub fn write_all(&mut self, buf: &[u8]) -> (r: Result<(), AllocError>)
        requires
            old(self).wf(),
        ensures
            final(self).wf(),
            final(self).spec_capacity() == old(self).spec_capacity(),
            final(self).spec_buffer() == old(self).spec_buffer(),
            r is Ok <==> buf@.len() <= old(self).spec_capacity() - old(self)@.len(),
            r is Ok ==> final(self)@ == old(self)@ + buf@,
            r is Err ==> final(self)@ == old(self)@,
    {
        self.try_extend_from_slice_copy(buf)
    }

    /// Appends the bytes of all buffers, in order, and returns their
    /// number; fails, changing nothing, when they do not all fit in the spare
    /// capacity. Their total length must fit in a `usize`.
    pub fn write_vectored(&mut self, bufs: &[&[u8]]) -> (r: Result<usize, AllocError>)
        requires
            old(self).wf(),
            total_len(bufs@) <= usize::MAX,
        ensures
            final(self).wf(),
            final(self).spec_capacity() == old(self).spec_capacity(),
            final(self).spec_buffer() == old(self).spec_buffer(),
            r is Ok <==> total_len(bufs@) <= old(self).spec_capacity() - old(self)@.len(),
            r is Ok ==> r == Ok::<usize, AllocError>(total_len(bufs@) as usize) && final(self)@ == old(self)@
                + concat_bufs(bufs@),
            r is Err ==> final(self)@ == old(self)@,
    {
        let n = bufs.len();
        let mut len: usize = 0;
        let mut i: usize = 0;
        while i < n
            invariant
                n == bufs@.len(),
                i <= n,
                total_len(bufs@) <= usize::MAX,
                len == total_len(bufs@.take(i as int)),
            decreases n - i,
        {
            proof {
                assert(bufs@.take(i + 1).drop_last() == bufs@.take(i as int));
                lemma_total_len_prefix(bufs@, i + 1);
            }
            len = len + bufs[i].len();
            i += 1;
        }
        proof {
            assert(bufs@.take(n as int) == bufs@);
            lemma_total_len_prefix(bufs@, n as int);
        }
        if len > self.capacity - self.initialized.len() {
            return Err(AllocError);
        }
        let mut j: usize = 0;
        while j < n
            invariant
                n == bufs@.len(),
                j <= n,
                len == total_len(bufs@),
                self.wf(),
                self.spec_capacity() == old(self).spec_capacity(),
                self.spec_buffer() == old(self).spec_buffer(),
                old(self)@.len() + len <= self.spec_capacity(),
                self@ == old(self)@ + concat_bufs(bufs@.take(j as int)),
            decreases n - j,
        {
            proof {
                assert(bufs@.take(j + 1).drop_last() == bufs@.take(j as int));
                lemma_total_len_prefix(bufs@, j + 1);
                lemma_total_len_prefix(bufs@.take(j + 1), j + 1);
                assert(bufs@.take(j + 1).take(j + 1) == bufs@.take(j + 1));
            }
            self.extend_from_slice_copy(bufs[j]);
            proof {
                assert(old(self)@ + concat_bufs(bufs@.take(j as int)) + bufs@[j as int]@ == old(self)@
                    + concat_bufs(bufs@.take(j + 1)));
            }
            j += 1;
        }
        proof {
            assert(bufs@.take(n as int) == bufs@);
        }
        Ok(len)
    }

    /// Writing needs no flushing.
    pub fn flush(&mut self) -> (r: Result<(), AllocError>)
        ensures
            r is Ok,
            *final(self) == *old(self),
    {
        Ok(())
    }
}

/// The views of a sequence of arrays.
pub open spec fn array_views<T, const N: usize>(s: Seq<[T; N]>) -> Seq<Seq<T>> {
    s.map_values(|a: [T; N]| a@)
}

/// The elements of the arrays of `v`, in order; their number must fit in a
/// `usize`.
pub(crate) fn flatten_arrays<T, const N: usize>(v: Vec<[T; N]>) -> (r: Vec<T>)
    requires
        v@.len() * N <= usize::MAX,
    ensures
        r@ == array_views(v@).flatten(),
        r@.len() == v@.len() * N,
{
    let len = v.len();
    let ghost n = len as int;
    let ghost items = v@;
    let mut rev = reverse_vec(v);
    let mut out: Vec<T> = Vec::new();
    let mut i: usize = 0;
    proof {
        assert(array_views(items.take(0)) == Seq::<Seq<T>>::empty());
        assert(Seq::<Seq<T>>::empty().flatten() == Seq::<T>::empty());
    }
    while rev.len() > 0
        invariant
            n == items.len(),
            n <= usize::MAX,
            i <= n,
            n * N <= usize::MAX,
            rev@.len() == n - i,
            forall|j: int| 0 <= j < rev@.len() ==> #[trigger] rev@[j] == items[n - 1 - j],
            out@ == array_views(items.take(i as int)).flatten(),
            out@.len() == i * N,
        decreases rev@.len(),
    {
        let a = rev.pop().unwrap();
        proof {
            assert(a == items[i as int]);
            assert(array_views(items.take(i + 1)) == array_views(items.take(i as int)).push(a@));
            array_views(items.take(i as int)).lemma_flatten_push(a@);
            assert((i + 1) * N == i * N + N) by (nonlinear_arith);
            assert((i + 1) * N <= n * N) by (nonlinear_arith)
                requires
                    i + 1 <= n,
            ;
        }
        let mut v = array_into_vec(a);
        out.append(&mut v);
        i += 1;
    }
    proof {
        assert(items.take(n) == items);
    }
    out
}

impl<T, const N: usize> FixedBumpVec<[T; N]> {
    /// The elements of the arrays, in order, in the same buffer: the
    /// capacity is multiplied by `N` (`usize::MAX` for a zero-sized `T`).
    /// For a zero-sized `T` the number of elements must fit in a `usize`.
    pub fn into_flattened(self) -> (r: FixedBumpVec<T>)
        requires
            self.wf(),
            size_of::<[T; N]>() == N * size_of::<T>(),
            size_of::<T>() == 0 ==> self@.len() * N <= usize::MAX,
        ensures
            r.wf(),
            r@ == array_views(self@).flatten(),
            r.spec_capacity() == (if size_of::<T>() == 0 {
                usize::MAX as int
            } else {
                self.spec_capacity() * N
            }),
            r.spec_buffer() == self.spec_buffer(),
    {
        let cap = self.capacity;
        let ghost n = self@.len() as int;
        proof {
            if size_of::<T>() != 0 {
                assert(n * N <= cap * N) by (nonlinear_arith)
                    requires
                        0 <= n <= cap,
                ;
                assert(cap * N <= size_of::<[T; N]>() * cap) by (nonlinear_arith)
                    requires
                        size_of::<[T; N]>() == N * size_of::<T>(),
                        size_of::<T>() >= 1,
                        cap >= 0,
                ;
            }
        }
        let out = flatten_arrays(self.initialized);
        let st = core::mem::size_of::<T>();
        if st == 0 {
            proof {
                assert(size_of::<T>() * usize::MAX == 0) by (nonlinear_arith)
                    requires
                        size_of::<T>() == 0,
                ;
            }
            return FixedBumpVec { initialized: out, capacity: usize::MAX, buffer: Ghost(self.buffer@) };
        }
        proof {
            assert(size_of::<T>() * (cap * N) == size_of::<[T; N]>() * cap) by (nonlinear_arith)
                requires
                    size_of::<[T; N]>() == N * size_of::<T>(),
            ;
        }
        FixedBumpVec { initialized: out, capacity: cap * N, buffer: Ghost(self.buffer@) }
    }
}

impl<T> Default for FixedBumpVec<T> {
    fn default() -> (r: Self)
        ensures
            r.wf(),
            r@ == Seq::<T>::empty(),
            r.spec_capacity() == empty_capacity::<T>(),
    {
        Self::new()
    }
}

} // verus!
