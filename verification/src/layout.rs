//! Memory layouts: a size and a power-of-two alignment, as the standard
//! library's `Layout` has them, plus the three kinds of layouts the bump
//! allocator distinguishes.
use vstd::prelude::*;

verus! {

use crate::align::{check_power_of_two, lemma_round_down};
use vstd::arithmetic::power2::is_pow2;
use vstd::layout::{align_of, size_of, valid_layout};

/// A size and a power-of-two alignment such that the size, rounded up to the
/// alignment, does not exceed `isize::MAX`.
#[derive(Clone, Copy, PartialEq, Eq, Structural)]
pub struct Layout {
    size: usize,
    align: usize,
}

/// The error of a layout constructor whose parameters are not a valid layout.
#[derive(Clone, Copy, PartialEq, Eq, Debug, Structural)]
pub struct LayoutError;

/// The error of an [`ArrayLayout`] constructor whose parameters are not a
/// valid layout with a size that is a multiple of its alignment.
#[derive(Clone, Copy, PartialEq, Eq, Debug, Structural)]
pub struct ArrayLayoutError;

/// Whether `size` and `align` form a valid layout.
pub open spec fn layout_ok(size: int, align: int) -> bool {
    &&& 0 <= size
    &&& 0 < align <= usize::MAX
    &&& valid_layout(size as usize, align as usize)
    &&& size <= usize::MAX
}

impl Layout {
    /// The size in bytes.
    pub closed spec fn spec_size(self) -> nat {
        self.size as nat
    }

    /// The alignment in bytes.
    pub closed spec fn spec_align(self) -> nat {
        self.align as nat
    }

    /// The layout of a `T`.
    pub closed spec fn spec_new<T>() -> Layout {
        Layout { size: size_of::<T>() as usize, align: align_of::<T>() as usize }
    }

    /// The layout of `len` `T`s.
    pub closed spec fn spec_array<T>(len: int) -> Layout {
        Layout { size: (size_of::<T>() * len) as usize, align: align_of::<T>() as usize }
    }

    /// The layout invariant.
    pub open spec fn wf(self) -> bool {
        layout_ok(self.spec_size() as int, self.spec_align() as int)
    }

    /// Creates a layout, failing unless `align` is a power of two and
    /// `size` rounded up to `align` does not exceed `isize::MAX`.
    pub fn from_size_align(size: usize, align: usize) -> (r: Result<Layout, LayoutError>)
        ensures
            r is Ok <==> layout_ok(size as int, align as int),
            r matches Ok(l) ==> l.spec_size() == size && l.spec_align() == align,
    {
        if !check_power_of_two(align) {
            return Err(LayoutError);
        }
        proof {
            reveal(is_pow2);
        }
        let max: usize = isize::MAX as usize;
        proof {
            lemma_round_down(max as int, align as int);
        }
        if size > max - max % align {
            return Err(LayoutError);
        }
        Ok(Layout { size, align })
    }

    /// The layout of a `T`.
    pub fn new<T>() -> (r: Layout)
        ensures
            r.wf(),
            r.spec_size() == size_of::<T>(),
            r.spec_align() == align_of::<T>(),
            r == Layout::spec_new::<T>(),
    {
        vstd::layout::layout_for_type_is_valid::<T>();
        Layout { size: core::mem::size_of::<T>(), align: core::mem::align_of::<T>() }
    }

    /// The layout of `len` consecutive `T`s, failing when its size would not
    /// be valid.
    pub fn array<T>(len: usize) -> (r: Result<Layout, LayoutError>)
        ensures
            r is Ok <==> layout_ok((size_of::<T>() * len) as int, align_of::<T>() as int),
            r matches Ok(l) ==> l.spec_size() == size_of::<T>() * len && l.spec_align()
                == align_of::<T>() && l == Layout::spec_array::<T>(len as int),
    {
        vstd::layout::layout_for_type_is_valid::<T>();
        let elem = core::mem::size_of::<T>();
        let align = core::mem::align_of::<T>();
        match elem.checked_mul(len) {
            Some(size) => Self::from_size_align(size, align),
            None => {
                proof {
                    assert(elem * len > usize::MAX);
                }
                Err(LayoutError)
            },
        }
    }

    /// The size in bytes.
    pub fn size(&self) -> (r: usize)
        ensures
            r == self.spec_size(),
    {
        self.size
    }

    /// The alignment in bytes.
    pub fn align(&self) -> (r: usize)
        ensures
            r == self.spec_align(),
    {
        self.align
    }
}

/// A layout whose size and alignment are those of a sized type.
#[derive(Clone, Copy, PartialEq, Eq, Structural)]
pub struct SizedLayout(pub Layout);

impl SizedLayout {
    /// The layout of a `T`.
    pub fn new<T>() -> (r: SizedLayout)
        ensures
            r.0.wf(),
            r.0.spec_size() == size_of::<T>(),
            r.0.spec_align() == align_of::<T>(),
            r.0.spec_size() % r.0.spec_align() == 0,
    {
        vstd::layout::layout_for_type_is_valid::<T>();
        SizedLayout(Layout::new::<T>())
    }
}

/// A layout whose size is a multiple of its alignment, as the layout of an
/// array is.
#[derive(Clone, Copy, PartialEq, Eq, Structural)]
pub struct ArrayLayout(Layout);

impl ArrayLayout {
    /// The layout itself.
    pub closed spec fn layout(self) -> Layout {
        self.0
    }

    /// The invariant: a valid layout whose size is a multiple of its alignment.
    pub open spec fn wf(self) -> bool {
        &&& self.layout().wf()
        &&& self.layout().spec_size() % self.layout().spec_align() == 0
    }

    /// The layout of the elements of `value`.
    pub fn for_value<T>(value: &[T]) -> (r: ArrayLayout)
        requires
            size_of::<T>() * value@.len() <= isize::MAX,
        ensures
            r.wf(),
            r.layout().spec_size() == size_of::<T>() * value@.len(),
            r.layout().spec_align() == align_of::<T>(),
    {
        match Self::array::<T>(value.len()) {
            Ok(l) => l,
            Err(_) => {
                vstd::layout::layout_for_type_is_valid::<T>();
                proof {
                    lemma_valid_array_size::<T>(value@.len());
                }
                // the requires rules this branch out
                ArrayLayout(Layout { size: 0, align: 1 })
            },
        }
    }

    /// The layout of `len` consecutive `T`s, failing when its size would not
    /// be valid.
    pub fn array<T>(len: usize) -> (r: Result<ArrayLayout, LayoutError>)
        ensures
            r is Ok <==> layout_ok((size_of::<T>() * len) as int, align_of::<T>() as int),
            r matches Ok(l) ==> l.wf() && l.layout().spec_size() == size_of::<T>() * len
                && l.layout().spec_align() == align_of::<T>(),
    {
        vstd::layout::layout_for_type_is_valid::<T>();
        match Layout::array::<T>(len) {
            Ok(l) => {
                proof {
                    lemma_array_size_multiple(size_of::<T>() as int, align_of::<T>() as int, len as int);
                }
                Ok(ArrayLayout(l))
            },
            Err(e) => Err(e),
        }
    }

    /// Checks that `layout`'s size is a multiple of its alignment.
    pub fn from_layout(layout: Layout) -> (r: Result<ArrayLayout, ArrayLayoutError>)
        requires
            layout.wf(),
        ensures
            r is Ok <==> layout.spec_size() % layout.spec_align() == 0,
            r matches Ok(l) ==> l.layout() == layout,
    {
        if layout.size() % layout.align() == 0 {
            Ok(ArrayLayout(layout))
        } else {
            Err(ArrayLayoutError)
        }
    }

    /// Creates an array layout, failing unless `size` and `align` are a valid
    /// layout and `size` is a multiple of `align`.
    pub fn from_size_align(size: usize, align: usize) -> (r: Result<ArrayLayout, ArrayLayoutError>)
        ensures
            r is Ok <==> layout_ok(size as int, align as int) && size % align == 0,
            r matches Ok(l) ==> l.layout().spec_size() == size && l.layout().spec_align()
                == align,
    {
        match Layout::from_size_align(size, align) {
            Ok(layout) => Self::from_layout(layout),
            Err(_) => Err(ArrayLayoutError),
        }
    }

    /// The size in bytes.
    pub fn size(&self) -> (r: usize)
        ensures
            r == self.layout().spec_size(),
    {
        self.0.size()
    }

    /// The alignment in bytes.
    pub fn align(&self) -> (r: usize)
        ensures
            r == self.layout().spec_align(),
    {
        self.0.align()
    }
}

/// A layout with no further property known.
#[derive(Clone, Copy, PartialEq, Eq, Structural)]
pub struct CustomLayout(pub Layout);

/// An array of elements whose size is a multiple of their alignment has a
/// size that is a multiple of that alignment.
proof fn lemma_array_size_multiple(elem: int, align: int, len: int)
    requires
        align > 0,
        elem % align == 0,
        len >= 0,
    ensures
        (elem * len) % align == 0,
{
    vstd::arithmetic::div_mod::lemma_fundamental_div_mod(elem, align);
    let k = elem / align;
    assert(elem * len == (k * len) * align) by (nonlinear_arith)
        requires
            elem == align * k,
    ;
    vstd::arithmetic::div_mod::lemma_mod_multiples_basic(k * len, align);
}

/// Two layouts with the same size and alignment are the same.
pub proof fn lemma_layout_ext(a: Layout, b: Layout)
    requires
        a.spec_size() == b.spec_size(),
        a.spec_align() == b.spec_align(),
    ensures
        a == b,
{
}

/// The layout of `len` `T`s has their total size and `T`'s alignment.
pub proof fn lemma_spec_array<T>(len: int)
    requires
        0 <= size_of::<T>() * len <= usize::MAX,
        align_of::<T>() <= usize::MAX,
    ensures
        Layout::spec_array::<T>(len).spec_size() == size_of::<T>() * len,
        Layout::spec_array::<T>(len).spec_align() == align_of::<T>(),
{
}

/// An array whose size does not exceed `isize::MAX` has a valid layout.
pub proof fn lemma_valid_array_size<T>(len: nat)
    requires
        size_of::<T>() * len <= isize::MAX,
        align_of::<T>() <= usize::MAX,
    ensures
        layout_ok((size_of::<T>() * len) as int, align_of::<T>() as int),
{
    broadcast use vstd::layout::align_properties, vstd::layout::align_nonzero;

    let a = align_of::<T>() as int;
    let s = size_of::<T>() as int;
    let m = isize::MAX as int;
    lemma_array_size_multiple(s, a, len as int);
    lemma_round_down(m, a);
    // a multiple of `a` that is at most `m` is at most `m` rounded down to `a`
    vstd::arithmetic::div_mod::lemma_fundamental_div_mod(s * len, a);
    vstd::arithmetic::div_mod::lemma_fundamental_div_mod(m, a);
    let q = (s * len) / a;
    let p = m / a;
    assert(q <= p) by (nonlinear_arith)
        requires
            s * len == a * q,
            m == a * p + m % a,
            0 <= m % a < a,
            s * len <= m,
            a > 0,
    ;
    assert(s * len <= m - m % a) by (nonlinear_arith)
        requires
            s * len == a * q,
            m == a * p + m % a,
            q <= p,
            a > 0,
    ;
}

} // verus!

verus! {

/// A size that, rounded up to 16, does not exceed `isize::MAX` forms a valid
/// layout with alignment 16.
pub proof fn lemma_min_chunk_align_layout(size: int)
    requires
        0 <= size <= isize::MAX - 15,
    ensures
        layout_ok(size, 16),
{
    crate::raw_chunk::lemma_pow2_16();
    assert(isize::MAX as int % 16 == 15);
}

} // verus!
