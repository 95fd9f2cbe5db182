//! Types that configure a bump allocator.
//!
//! - **`MIN_ALIGN`** — the alignment the bump position keeps between
//!   allocations; one of 1, 2, 4, 8 and 16.
//! - **`UP`** — the bump direction.
//! - **`GUARANTEED_ALLOCATED`** — whether a chunk is always allocated.
//! - **`CLAIMABLE`** — whether the allocator can be claimed.
//! - **`DEALLOCATES`** — whether freeing the most recent allocation gives its
//!   memory back.
//! - **`SHRINKS`** — whether shrinking the most recent allocation gives memory
//!   back.
//! - **`MINIMUM_CHUNK_SIZE`** — the smallest chunk size requested from the
//!   base allocator.
use vstd::prelude::*;

verus! {

/// The minimum alignments a bump allocator supports.
pub open spec fn supported_min_align(a: usize) -> bool {
    a == 1 || a == 2 || a == 4 || a == 8 || a == 16
}

/// Every supported minimum alignment is a power of two of at most 16.
pub proof fn lemma_supported_min_align(a: usize)
    requires
        supported_min_align(a),
    ensures
        vstd::arithmetic::power2::is_pow2(a as int),
        a <= 16,
        16int % (a as int) == 0,
{
    reveal_with_fuel(vstd::arithmetic::power2::is_pow2, 6);
}

trait Sealed {

}

/// Either [`True`] or [`False`].
pub trait Boolean {
    spec fn spec_value() -> bool;

    /// The boolean's value.
    fn value() -> (r: bool)
        ensures
            r == Self::spec_value(),
    ;
}

/// Used to create the [`True`] and [`False`] types.
pub struct Bool<const VALUE: bool>;

impl<const VALUE: bool> Sealed for Bool<VALUE> {

}

impl<const VALUE: bool> Boolean for Bool<VALUE> {
    open spec fn spec_value() -> bool {
        VALUE
    }

    fn value() -> (r: bool) {
        VALUE
    }
}

/// The type representing `true`.
pub type True = Bool<true>;

/// The type representing `false`.
pub type False = Bool<false>;

/// Names a minimum alignment of a bump allocator.
pub struct MinimumAlignment<const ALIGNMENT: usize>;

/// Implemented by the supported minimum alignments only: 1, 2, 4, 8 and 16.
pub trait SupportedMinimumAlignment {
    spec fn spec_value() -> usize;

    /// The minimum alignment in bytes.
    fn value() -> (r: usize)
        ensures
            r == Self::spec_value(),
            supported_min_align(r),
    ;
}

impl SupportedMinimumAlignment for MinimumAlignment<1> {
    open spec fn spec_value() -> usize {
        1
    }

    fn value() -> (r: usize) {
        1
    }
}

impl SupportedMinimumAlignment for MinimumAlignment<2> {
    open spec fn spec_value() -> usize {
        2
    }

    fn value() -> (r: usize) {
        2
    }
}

impl SupportedMinimumAlignment for MinimumAlignment<4> {
    open spec fn spec_value() -> usize {
        4
    }

    fn value() -> (r: usize) {
        4
    }
}

impl SupportedMinimumAlignment for MinimumAlignment<8> {
    open spec fn spec_value() -> usize {
        8
    }

    fn value() -> (r: usize) {
        8
    }
}

impl SupportedMinimumAlignment for MinimumAlignment<16> {
    open spec fn spec_value() -> usize {
        16
    }

    fn value() -> (r: usize) {
        16
    }
}

/// The configuration of a bump allocator.
pub trait BumpAllocatorSettings {
    spec fn spec_min_align() -> usize;

    spec fn spec_up() -> bool;

    spec fn spec_guaranteed_allocated() -> bool;

    spec fn spec_claimable() -> bool;

    spec fn spec_deallocates() -> bool;

    spec fn spec_shrinks() -> bool;

    spec fn spec_minimum_chunk_size() -> usize;

    /// The minimum alignment.
    fn min_align() -> (r: usize)
        ensures
            r == Self::spec_min_align(),
            supported_min_align(r),
    ;

    /// The bump direction: upwards when `true`.
    fn up() -> (r: bool)
        ensures
            r == Self::spec_up(),
    ;

    /// Whether the allocator always has a chunk allocated.
    fn guaranteed_allocated() -> (r: bool)
        ensures
            r == Self::spec_guaranteed_allocated(),
    ;

    /// Whether the allocator can be claimed.
    fn claimable() -> (r: bool)
        ensures
            r == Self::spec_claimable(),
    ;

    /// Whether the allocator frees its most recent allocation.
    fn deallocates() -> (r: bool)
        ensures
            r == Self::spec_deallocates(),
    ;

    /// Whether the allocator shrinks its most recent allocation.
    fn shrinks() -> (r: bool)
        ensures
            r == Self::spec_shrinks(),
    ;

    /// The minimum chunk size requested from the base allocator.
    fn minimum_chunk_size() -> (r: usize)
        ensures
            r == Self::spec_minimum_chunk_size(),
    ;
}

/// The implementor of [`BumpAllocatorSettings`]: each setting is a const
/// parameter.
pub struct BumpSettings<
    const MIN_ALIGN: usize,
    const UP: bool,
    const GUARANTEED_ALLOCATED: bool,
    const CLAIMABLE: bool,
    const DEALLOCATES: bool,
    const SHRINKS: bool,
    const MINIMUM_CHUNK_SIZE: usize,
>;

/// The default settings: minimum alignment 1, bumping upwards, guaranteed
/// allocated, claimable, deallocating, shrinking, minimum chunk size 512.
pub type DefaultSettings = BumpSettings<1, true, true, true, true, true, 512>;

impl<
    const MIN_ALIGN: usize,
    const UP: bool,
    const GUARANTEED_ALLOCATED: bool,
    const CLAIMABLE: bool,
    const DEALLOCATES: bool,
    const SHRINKS: bool,
    const MINIMUM_CHUNK_SIZE: usize,
> Sealed for BumpSettings<
    MIN_ALIGN,
    UP,
    GUARANTEED_ALLOCATED,
    CLAIMABLE,
    DEALLOCATES,
    SHRINKS,
    MINIMUM_CHUNK_SIZE,
> {

}

impl<
    const MIN_ALIGN: usize,
    const UP: bool,
    const GUARANTEED_ALLOCATED: bool,
    const CLAIMABLE: bool,
    const DEALLOCATES: bool,
    const SHRINKS: bool,
    const MINIMUM_CHUNK_SIZE: usize,
> BumpAllocatorSettings for BumpSettings<
    MIN_ALIGN,
    UP,
    GUARANTEED_ALLOCATED,
    CLAIMABLE,
    DEALLOCATES,
    SHRINKS,
    MINIMUM_CHUNK_SIZE,
> where MinimumAlignment<MIN_ALIGN>: SupportedMinimumAlignment {
    open spec fn spec_min_align() -> usize {
        MinimumAlignment::<MIN_ALIGN>::spec_value()
    }

    open spec fn spec_up() -> bool {
        UP
    }

    open spec fn spec_guaranteed_allocated() -> bool {
        GUARANTEED_ALLOCATED
    }

    open spec fn spec_claimable() -> bool {
        CLAIMABLE
    }

    open spec fn spec_deallocates() -> bool {
        DEALLOCATES
    }

    open spec fn spec_shrinks() -> bool {
        SHRINKS
    }

    open spec fn spec_minimum_chunk_size() -> usize {
        MINIMUM_CHUNK_SIZE
    }

    fn min_align() -> (r: usize) {
        MinimumAlignment::<MIN_ALIGN>::value()
    }

    fn up() -> (r: bool) {
        UP
    }

    fn guaranteed_allocated() -> (r: bool) {
        GUARANTEED_ALLOCATED
    }

    fn claimable() -> (r: bool) {
        CLAIMABLE
    }

    fn deallocates() -> (r: bool) {
        DEALLOCATES
    }

    fn shrinks() -> (r: bool) {
        SHRINKS
    }

    fn minimum_chunk_size() -> (r: usize) {
        MINIMUM_CHUNK_SIZE
    }
}

} // verus!
