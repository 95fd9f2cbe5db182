use bump_scope::allocator::{AllocError, BaseAllocator};
use bump_scope::fixed_bump_vec::{FixedBumpVec, TooManyElements};
use bump_scope::layout::Layout;
use bump_scope::range::Bound;
use bump_scope::raw_bump::RawBump;
use bump_scope::settings::DefaultSettings;

/// Hands out consecutive, 16-aligned address ranges starting at 64 KiB.
struct TestAllocator {
    next: usize,
}

impl BaseAllocator for TestAllocator {
    fn allocate(&mut self, layout: Layout) -> Option<(usize, usize)> {
        let align = layout.align().max(16);
        let addr = (self.next + align - 1) / align * align;
        self.next = addr + layout.size();
        Some((addr, layout.size()))
    }

    fn deallocate(&mut self, _addr: usize, _layout: Layout) {}
}

/// Refuses every allocation.
struct NoMemory;

impl BaseAllocator for NoMemory {
    fn allocate(&mut self, _layout: Layout) -> Option<(usize, usize)> {
        None
    }

    fn deallocate(&mut self, _addr: usize, _layout: Layout) {}
}

type Bump = RawBump<TestAllocator, DefaultSettings>;

fn new_bump() -> Bump {
    RawBump::with_size(512, TestAllocator { next: 0x10000 }).unwrap()
}

fn vec_in<T>(capacity: usize, bump: &mut Bump) -> FixedBumpVec<T> {
    FixedBumpVec::try_with_capacity_in(capacity, bump).unwrap()
}

#[test]
fn new_is_empty_without_capacity() {
    let vec = FixedBumpVec::<i32>::new();
    assert_eq!(vec.len(), 0);
    assert_eq!(vec.capacity(), 0);
    let units = FixedBumpVec::<()>::new();
    assert_eq!(units.capacity(), usize::MAX);
}

#[test]
fn with_capacity_holds_exactly_its_capacity() {
    let mut bump = new_bump();
    let mut vec = vec_in::<i32>(10, &mut bump);
    assert_eq!(vec.len(), 0);
    assert_eq!(vec.capacity(), 10);
    for i in 0..10 {
        vec.push(i);
    }
    assert_eq!(vec.len(), 10);
    assert_eq!(vec.capacity(), 10);
    assert!(vec.is_full());
    assert_eq!(vec.try_push(11), Err(AllocError));
    let units = FixedBumpVec::<()>::try_with_capacity_in(10, &mut bump).unwrap();
    assert_eq!(units.capacity(), usize::MAX);
}

#[test]
fn with_capacity_allocates_in_the_bump() {
    let mut bump = new_bump();
    let before = bump.stats().allocated();
    let vec = vec_in::<u32>(5, &mut bump);
    assert_eq!(vec.capacity(), 5);
    assert_eq!(bump.stats().allocated(), before + 20);
    let empty = vec_in::<u32>(0, &mut bump);
    assert_eq!(empty.capacity(), 0);
    assert_eq!(bump.stats().allocated(), before + 20);
}

#[test]
fn with_capacity_fails_when_the_base_allocator_does() {
    let mut bump: RawBump<NoMemory, bump_scope::settings::BumpSettings<1, true, false, true, true, true, 512>> =
        RawBump::new_in(NoMemory);
    assert!(FixedBumpVec::<u64>::try_with_capacity_in(4, &mut bump).is_err());
    assert!(FixedBumpVec::<u64>::try_with_capacity_in(0, &mut bump).is_ok());
    assert!(FixedBumpVec::<u64>::try_with_capacity_in(usize::MAX, &mut bump).is_err());
}

#[test]
fn from_iter_in_is_full() {
    let mut bump = new_bump();
    let vec = FixedBumpVec::try_from_iter_in(vec![1, 2, 3], &mut bump).unwrap();
    assert_eq!(vec.as_slice(), &[1, 2, 3]);
    assert_eq!(vec.capacity(), 3);
    let vec = FixedBumpVec::try_from_iter_exact_in(vec![1, 2, 3], &mut bump).unwrap();
    assert_eq!(vec.as_slice(), &[1, 2, 3]);
    assert!(vec.is_full());
}

#[test]
fn from_init_capacity_is_length() {
    let vec = FixedBumpVec::from_init(vec![7u8, 8, 9]);
    assert_eq!(vec.capacity(), 3);
    assert_eq!(vec.into_boxed_slice(), vec![7, 8, 9]);
}

#[test]
fn pop_and_pop_if() {
    let mut bump = new_bump();
    let mut vec = vec_in::<i32>(4, &mut bump);
    vec.append(vec![1, 2, 3, 4]);
    assert_eq!(vec.pop(), Some(4));
    assert_eq!(vec.as_slice(), &[1, 2, 3]);
    vec.push(4);
    let pred = |x: &mut i32| *x % 2 == 0;
    assert_eq!(vec.pop_if(pred), Some(4));
    assert_eq!(vec.as_slice(), &[1, 2, 3]);
    assert_eq!(vec.pop_if(pred), None);
    let mut empty = FixedBumpVec::<i32>::new();
    assert_eq!(empty.pop(), None);
}

#[test]
fn clear_and_truncate() {
    let mut bump = new_bump();
    let mut vec = vec_in::<i32>(10, &mut bump);
    vec.extend_from_slice_copy(&[1, 2, 3, 4, 5]);
    vec.truncate(8);
    assert_eq!(vec.as_slice(), &[1, 2, 3, 4, 5]);
    vec.truncate(2);
    assert_eq!(vec.as_slice(), &[1, 2]);
    vec.clear();
    assert!(vec.is_empty());
    assert_eq!(vec.capacity(), 10);
}

#[test]
fn remove_and_swap_remove() {
    let mut bump = new_bump();
    let mut v = vec_in::<&str>(4, &mut bump);
    v.extend_from_slice_copy(&["foo", "bar", "baz", "qux"]);
    assert_eq!(v.swap_remove(1), "bar");
    assert_eq!(v.as_slice(), &["foo", "qux", "baz"]);
    assert_eq!(v.swap_remove(0), "foo");
    assert_eq!(v.as_slice(), &["baz", "qux"]);
    assert_eq!(v.remove(0), "baz");
    assert_eq!(v.as_slice(), &["qux"]);
}

#[test]
fn split_off_ranges() {
    let mut bump = new_bump();
    let mut vec = vec_in::<i32>(10, &mut bump);
    vec.append(vec![1, 2, 3, 4, 5, 6, 7, 8]);

    let front = vec.split_off(Bound::Unbounded, Bound::Excluded(2));
    assert_eq!(front.as_slice(), &[1, 2]);
    assert_eq!(front.capacity(), 2);
    assert_eq!(vec.as_slice(), &[3, 4, 5, 6, 7, 8]);
    assert_eq!(vec.capacity(), 8);

    let back = vec.split_off(Bound::Included(4), Bound::Unbounded);
    assert_eq!(back.as_slice(), &[7, 8]);
    assert_eq!(back.capacity(), 4);
    assert_eq!(vec.as_slice(), &[3, 4, 5, 6]);
    assert_eq!(vec.capacity(), 4);

    let middle = vec.split_off(Bound::Included(1), Bound::Excluded(3));
    assert_eq!(middle.as_slice(), &[4, 5]);
    assert_eq!(vec.as_slice(), &[3, 6]);
    assert_eq!(middle.capacity() + vec.capacity(), 4);

    let rest = vec.split_off(Bound::Unbounded, Bound::Unbounded);
    assert_eq!(rest.as_slice(), &[3, 6]);
    assert!(vec.is_empty());
}

#[test]
fn split_off_middle_capacities() {
    let mut bump = new_bump();
    // head shorter than tail: the split-off part takes the front of the buffer
    let mut vec = vec_in::<i32>(10, &mut bump);
    vec.append(vec![0, 1, 2, 3, 4, 5, 6, 7]);
    let mid = vec.split_off(Bound::Included(1), Bound::Excluded(3));
    assert_eq!(mid.as_slice(), &[1, 2]);
    assert_eq!(mid.capacity(), 2);
    assert_eq!(vec.as_slice(), &[0, 3, 4, 5, 6, 7]);
    assert_eq!(vec.capacity(), 8);
    // head not shorter than tail: the rest keeps exactly its elements' room
    let mut vec = vec_in::<i32>(10, &mut bump);
    vec.append(vec![0, 1, 2, 3, 4, 5, 6, 7]);
    let mid = vec.split_off(Bound::Included(5), Bound::Excluded(7));
    assert_eq!(mid.as_slice(), &[5, 6]);
    assert_eq!(vec.as_slice(), &[0, 1, 2, 3, 4, 7]);
    assert_eq!(vec.capacity(), 6);
    assert_eq!(mid.capacity(), 4);
    // an empty range in the middle splits off nothing
    let empty = vec.split_off(Bound::Included(2), Bound::Excluded(2));
    assert!(empty.is_empty());
    assert_eq!(empty.capacity(), 0);
    assert_eq!(vec.capacity(), 6);
}

#[test]
fn push_and_extend() {
    let mut bump = new_bump();
    let mut vec = vec_in::<i32>(3, &mut bump);
    vec.try_extend_from_slice_copy(&[1, 2]).unwrap();
    vec.try_push(3).unwrap();
    assert_eq!(vec.as_slice(), &[1, 2, 3]);
    assert!(vec.try_extend_from_slice_copy(&[4]).is_err());
    assert_eq!(vec.as_slice(), &[1, 2, 3]);

    let mut vec = vec_in::<String>(3, &mut bump);
    vec.push(String::from("a"));
    vec.extend_from_slice_clone(&[String::from("b"), String::from("c")]);
    assert_eq!(vec.as_slice(), &["a", "b", "c"]);
    assert!(vec.try_extend_from_slice_clone(&[String::from("d")]).is_err());
}

#[test]
fn push_with_does_not_call_when_full() {
    let mut bump = new_bump();
    let mut vec = vec_in::<i32>(3, &mut bump);
    vec.try_append(vec![1, 2]).unwrap();
    vec.try_push_with(|| 3).unwrap();
    assert_eq!(vec.as_slice(), &[1, 2, 3]);
    let push_result = vec.try_push_with(|| unreachable!());
    assert!(push_result.is_err());
}

#[test]
fn insert_shifts_elements() {
    let mut bump = new_bump();
    let mut vec = vec_in::<i32>(5, &mut bump);
    vec.extend_from_slice_copy(&[1, 2, 3]);
    vec.insert(1, 4);
    assert_eq!(vec.as_slice(), &[1, 4, 2, 3]);
    vec.try_insert(4, 5).unwrap();
    assert_eq!(vec.as_slice(), &[1, 4, 2, 3, 5]);
    assert!(vec.try_insert(0, 6).is_err());
}

#[test]
fn extend_from_within_copies_ranges() {
    let mut bump = new_bump();
    let mut vec = vec_in::<i32>(14, &mut bump);
    vec.extend_from_slice_copy(&[0, 1, 2, 3, 4]);
    vec.extend_from_within_copy(Bound::Included(2), Bound::Unbounded);
    assert_eq!(vec.as_slice(), &[0, 1, 2, 3, 4, 2, 3, 4]);
    vec.try_extend_from_within_clone(Bound::Unbounded, Bound::Excluded(2)).unwrap();
    assert_eq!(vec.as_slice(), &[0, 1, 2, 3, 4, 2, 3, 4, 0, 1]);
    vec.extend_from_within_clone(Bound::Included(4), Bound::Excluded(8));
    assert_eq!(vec.as_slice(), &[0, 1, 2, 3, 4, 2, 3, 4, 0, 1, 4, 2, 3, 4]);
    assert!(vec.try_extend_from_within_copy(Bound::Included(0), Bound::Included(0)).is_err());
}

#[test]
fn reserve_checks_spare_capacity() {
    let mut bump = new_bump();
    let mut vec = vec_in::<i32>(4, &mut bump);
    vec.push(1);
    assert!(vec.try_reserve(3).is_ok());
    assert!(vec.try_reserve(4).is_err());
}

#[test]
fn resize_and_resize_with() {
    let mut bump = new_bump();
    let mut vec = vec_in::<&str>(10, &mut bump);
    vec.extend_from_slice_copy(&["hello"]);
    vec.resize(3, "world");
    assert_eq!(vec.as_slice(), &["hello", "world", "world"]);

    let mut vec = vec_in::<i32>(10, &mut bump);
    vec.extend_from_slice_copy(&[1, 2, 3, 4]);
    vec.try_resize(2, 0).unwrap();
    assert_eq!(vec.as_slice(), &[1, 2]);
    assert!(vec.try_resize(11, 0).is_err());

    let mut vec = vec_in::<i32>(5, &mut bump);
    vec.extend_from_slice_copy(&[1, 2, 3]);
    vec.resize_with(5, Default::default);
    assert_eq!(vec.as_slice(), &[1, 2, 3, 0, 0]);

    let mut vec = vec_in::<i32>(4, &mut bump);
    let mut p = 1;
    vec.try_resize_with(4, || {
        p *= 2;
        p
    })
    .unwrap();
    assert_eq!(vec.as_slice(), &[2, 4, 8, 16]);
}

#[test]
fn append_moves_all_elements() {
    let mut bump = new_bump();
    let mut vec = vec_in::<i32>(8, &mut bump);
    vec.append(vec![1, 2]);
    vec.try_append(vec![3, 4]).unwrap();
    vec.append(vec![5, 6, 7, 8]);
    assert_eq!(vec.as_slice(), &[1, 2, 3, 4, 5, 6, 7, 8]);
    assert!(vec.try_append(vec![9]).is_err());
}

#[test]
fn append_from_empties_the_source() {
    let mut bump = new_bump();
    let mut vec = vec_in::<i32>(8, &mut bump);
    vec.append(vec![1, 2]);
    vec.append(vec![3, 4]);
    vec.append(vec![5, 6]);
    let mut other = vec![7, 8];
    vec.append_from(&mut other);
    assert!(other.is_empty());
    assert_eq!(vec.as_slice(), &[1, 2, 3, 4, 5, 6, 7, 8]);
    assert!(vec.is_full());
}

#[test]
fn try_append_from_keeps_the_source_on_failure() {
    let mut bump = new_bump();
    let mut vec = vec_in::<i32>(3, &mut bump);
    vec.try_append(vec![1, 2]).unwrap();
    let mut other = vec![3, 4];
    assert!(vec.try_append_from(&mut other).is_err());
    assert_eq!(other, vec![3, 4]);
    assert_eq!(vec.as_slice(), &[1, 2]);
    let mut one = vec![3];
    vec.try_append_from(&mut one).unwrap();
    assert!(one.is_empty());
    assert_eq!(vec.as_slice(), &[1, 2, 3]);
}

#[test]
fn map_in_place_reuses_the_buffer() {
    let mut bump = new_bump();
    let a: FixedBumpVec<u32> = FixedBumpVec::try_from_iter_exact_in(vec![0, 1, 2], &mut bump).unwrap();
    assert_eq!(a.capacity(), 3);
    let b: FixedBumpVec<u16> = a.map_in_place(|i| i as u16);
    assert_eq!(b.capacity(), 6);
    assert_eq!(b.as_slice(), &[0, 1, 2]);
    let c: FixedBumpVec<()> = b.map_in_place(|_| ());
    assert_eq!(c.capacity(), usize::MAX);
    assert_eq!(c.len(), 3);
}

#[test]
fn retain_keeps_in_order() {
    let mut bump = new_bump();
    let mut vec = vec_in::<i32>(4, &mut bump);
    vec.extend_from_slice_copy(&[1, 2, 3, 4]);
    vec.retain(|x| *x <= 3);
    assert_eq!(vec.as_slice(), &[1, 2, 3]);
    assert_eq!(vec.capacity(), 4);
}

#[test]
fn drain_removes_a_range() {
    let mut bump = new_bump();
    let mut v = vec_in::<i32>(3, &mut bump);
    v.extend_from_slice_copy(&[1, 2, 3]);
    let u = v.drain(Bound::Included(1), Bound::Unbounded);
    assert_eq!(v.as_slice(), &[1]);
    assert_eq!(u, vec![2, 3]);
    v.drain(Bound::Unbounded, Bound::Unbounded);
    assert!(v.is_empty());
}

#[test]
fn extract_if_splits_evens_and_odds() {
    let mut bump = new_bump();
    let mut numbers = vec_in::<i32>(16, &mut bump);
    numbers.extend_from_slice_copy(&[1, 2, 3, 4, 5, 6, 8, 9, 11, 13, 14, 15]);
    let evens = numbers.extract_if(|x| *x % 2 == 0);
    assert_eq!(evens, vec![2, 4, 6, 8, 14]);
    assert_eq!(numbers.as_slice(), &[1, 3, 5, 9, 11, 13, 15]);
}

#[test]
fn dedup_variants() {
    let mut bump = new_bump();
    let mut vec = vec_in::<i32>(5, &mut bump);
    vec.extend_from_slice_copy(&[1, 2, 2, 3, 2]);
    vec.dedup();
    assert_eq!(vec.as_slice(), &[1, 2, 3, 2]);

    let mut vec = vec_in::<i32>(5, &mut bump);
    vec.extend_from_slice_copy(&[10, 20, 21, 30, 20]);
    vec.dedup_by_key(|i| *i / 10);
    assert_eq!(vec.as_slice(), &[10, 20, 30, 20]);

    let mut vec = vec_in::<&str>(5, &mut bump);
    vec.extend_from_slice_copy(&["foo", "bar", "Bar", "baz", "bar"]);
    vec.dedup_by(|a, b| a.eq_ignore_ascii_case(b));
    assert_eq!(vec.as_slice(), &["foo", "bar", "baz", "bar"]);
}

#[test]
fn into_flattened_multiplies_capacity() {
    let mut bump = new_bump();
    let mut vec = vec_in::<[i32; 3]>(3, &mut bump);
    vec.append(vec![[1, 2, 3], [4, 5, 6], [7, 8, 9]]);
    assert_eq!(vec.pop(), Some([7, 8, 9]));
    let mut flattened = vec.into_flattened();
    assert_eq!(flattened.capacity(), 9);
    assert_eq!(flattened.pop(), Some(6));
    assert_eq!(flattened.as_slice(), &[1, 2, 3, 4, 5]);
}

#[test]
fn split_at_spare_counts_the_rest() {
    let mut bump = new_bump();
    let mut vec = vec_in::<i32>(6, &mut bump);
    vec.extend_from_slice_copy(&[1, 2]);
    let (items, spare) = vec.split_at_spare();
    assert_eq!(items, vec![1, 2]);
    assert_eq!(spare, 4);
}

#[test]
fn into_iter_hands_out_in_order() {
    let mut bump = new_bump();
    let mut vec = vec_in::<i32>(3, &mut bump);
    vec.extend_from_slice_copy(&[1, 2, 3]);
    let mut iter = vec.into_iter();
    assert_eq!(iter.len(), 3);
    assert_eq!(iter.next(), Some(1));
    assert_eq!(iter.next_back(), Some(3));
    assert_eq!(iter.as_slice(), &[2]);
    assert_eq!(iter.next(), Some(2));
    assert!(iter.is_empty());
    assert_eq!(iter.next(), None);
}

#[test]
fn write_family_appends_bytes() {
    let mut bump = new_bump();
    let mut vec = vec_in::<u8>(8, &mut bump);
    assert_eq!(vec.write(b"ab"), Ok(2));
    assert!(vec.write_all(b"cd").is_ok());
    let parts: [&[u8]; 2] = [b"ef", b"g"];
    assert_eq!(vec.write_vectored(&parts), Ok(3));
    assert_eq!(vec.as_slice(), b"abcdefg");
    assert_eq!(vec.write(b"hi"), Err(AllocError));
    assert!(vec.write_all(b"hi").is_err());
    assert_eq!(vec.write_vectored(&parts), Err(AllocError));
    assert_eq!(vec.as_slice(), b"abcdefg");
    assert!(vec.flush().is_ok());
}

#[test]
fn reading_a_sequence_stops_at_the_capacity() {
    let mut bump = new_bump();
    let mut vec = vec_in::<i32>(2, &mut bump);
    assert_eq!(vec.check_size_hint(Some(3)), Err(TooManyElements { len: 3, at_most: 2 }));
    assert_eq!(vec.check_size_hint(Some(2)), Ok(()));
    assert_eq!(vec.check_size_hint(None), Ok(()));
    assert_eq!(vec.push_read_element(1, 2), Ok(()));
    assert_eq!(vec.push_read_element(2, 2), Ok(()));
    assert_eq!(vec.push_read_element(3, 2), Err(TooManyElements { len: 3, at_most: 2 }));
    assert_eq!(vec.as_slice(), &[1, 2]);
}

#[test]
fn closures_may_change_the_elements() {
    let mut bump = new_bump();
    let mut vec = vec_in::<i32>(6, &mut bump);
    vec.extend_from_slice_copy(&[1, 2, 3, 4, 5, 6]);
    vec.retain(|x| {
        *x *= 10;
        *x % 20 == 0
    });
    assert_eq!(vec.as_slice(), &[20, 40, 60]);
    assert_eq!(vec.pop_if(|x| {
        *x += 1;
        false
    }), None);
    assert_eq!(vec.as_slice(), &[20, 40, 61]);
    let taken = vec.extract_if(|x| {
        *x -= 1;
        *x > 30
    });
    assert_eq!(taken, vec![39, 60]);
    assert_eq!(vec.as_slice(), &[19]);
}

#[test]
fn dedup_by_merges_into_the_kept_element() {
    let mut bump = new_bump();
    let mut vec = vec_in::<(char, u32)>(5, &mut bump);
    vec.extend_from_slice_copy(&[('a', 1), ('a', 2), ('b', 3), ('b', 4), ('a', 5)]);
    vec.dedup_by(|a, b| {
        if a.0 == b.0 {
            b.1 += a.1;
            true
        } else {
            false
        }
    });
    assert_eq!(vec.as_slice(), &[('a', 3), ('b', 7), ('a', 5)]);
}
