use bump_scope::allocator::BaseAllocator;
use bump_scope::layout::Layout;
use bump_scope::mut_bump_vec_rev::MutBumpVecRev;
use bump_scope::range::Bound;
use bump_scope::raw_bump::RawBump;
use bump_scope::settings::DefaultSettings;

/// Hands out consecutive, 16-aligned address ranges starting at 64 KiB.
struct TestAllocator {
    next: usize,
}

impl BaseAllocator for TestAllocator {
    fn allocate(&mut self, layout: Layout) -> Option<(usize, usize)> {
        let align = layout.align().max(16);
        let addr = (self.next + align - 1) / align * align;
        self.next = addr + layout.size();
        Some((addr, layout.size()))
    }

    fn deallocate(&mut self, _addr: usize, _layout: Layout) {}
}

type Bump = RawBump<TestAllocator, DefaultSettings>;

fn new_bump() -> Bump {
    RawBump::with_size(512, TestAllocator { next: 0x10000 }).unwrap()
}

#[test]
fn rev_new_in_has_no_room() {
    let mut bump = new_bump();
    let vec = MutBumpVecRev::<i32, _, _>::new_in(&mut bump);
    assert_eq!(vec.len(), 0);
    assert_eq!(vec.capacity(), 0);
    let mut bump2 = new_bump();
    let units = MutBumpVecRev::<(), _, _>::new_in(&mut bump2);
    assert_eq!(units.capacity(), usize::MAX);
}

#[test]
fn rev_push_adds_at_the_front() {
    let mut bump = new_bump();
    let mut vec = MutBumpVecRev::new_in(&mut bump);
    vec.try_push(1).unwrap();
    vec.try_push(2).unwrap();
    vec.try_push(3).unwrap();
    assert_eq!(vec.as_slice(), &[3, 2, 1]);
    assert!(vec.capacity() >= 4);
    assert_eq!(vec.pop(), Some(3));
    assert_eq!(vec.as_slice(), &[2, 1]);
    vec.try_push_with(|| 7).unwrap();
    assert_eq!(vec.as_slice(), &[7, 2, 1]);
}

#[test]
fn rev_preparing_room_allocates_nothing() {
    let mut bump = new_bump();
    let before = bump.stats().allocated();
    {
        let vec = MutBumpVecRev::<u64, _, _>::try_with_capacity_in(10, &mut bump).unwrap();
        assert!(vec.capacity() >= 10);
    }
    assert_eq!(bump.stats().allocated(), before);
}

#[test]
fn rev_grows_beyond_the_chunk() {
    let mut bump = new_bump();
    let mut vec = MutBumpVecRev::<u64, _, _>::try_with_capacity_in(4, &mut bump).unwrap();
    let cap = vec.capacity();
    for i in 0..cap as u64 {
        vec.try_push(i).unwrap();
    }
    vec.try_push(99).unwrap();
    assert!(vec.capacity() >= 2 * cap);
    assert_eq!(vec.as_slice()[0], 99);
    assert_eq!(vec.len(), cap + 1);
}

#[test]
fn rev_extend_and_truncate() {
    let mut bump = new_bump();
    let mut vec = MutBumpVecRev::new_in(&mut bump);
    vec.try_extend_from_slice_copy(&[4, 5]).unwrap();
    vec.try_extend_from_slice_clone(&[1, 2, 3]).unwrap();
    assert_eq!(vec.as_slice(), &[1, 2, 3, 4, 5]);
    vec.try_extend_from_within_copy(Bound::Included(3), Bound::Unbounded).unwrap();
    assert_eq!(vec.as_slice(), &[4, 5, 1, 2, 3, 4, 5]);
    vec.try_extend_from_within_clone(Bound::Unbounded, Bound::Excluded(1)).unwrap();
    assert_eq!(vec.as_slice(), &[4, 4, 5, 1, 2, 3, 4, 5]);
    vec.truncate(3);
    assert_eq!(vec.as_slice(), &[3, 4, 5]);
    vec.try_append(vec![8, 9]).unwrap();
    assert_eq!(vec.as_slice(), &[8, 9, 3, 4, 5]);
    vec.clear();
    assert!(vec.is_empty());
}

#[test]
fn rev_remove_insert_and_swap_remove() {
    let mut bump = new_bump();
    let mut vec = MutBumpVecRev::new_in(&mut bump);
    vec.try_extend_from_slice_copy(&['a', 'b', 'c', 'd']).unwrap();
    assert_eq!(vec.swap_remove(2), 'c');
    assert_eq!(vec.as_slice(), &['b', 'a', 'd']);
    assert_eq!(vec.remove(1), 'a');
    assert_eq!(vec.as_slice(), &['b', 'd']);
    vec.try_insert(1, 'x').unwrap();
    assert_eq!(vec.as_slice(), &['b', 'x', 'd']);
    assert_eq!(vec.swap_remove(0), 'b');
    assert_eq!(vec.as_slice(), &['x', 'd']);
}

#[test]
fn rev_resize_fills_the_front() {
    let mut bump = new_bump();
    let mut vec = MutBumpVecRev::new_in(&mut bump);
    vec.try_extend_from_slice_copy(&[1, 2]).unwrap();
    vec.try_resize(4, 9).unwrap();
    assert_eq!(vec.as_slice(), &[9, 9, 1, 2]);
    vec.try_resize(1, 0).unwrap();
    assert_eq!(vec.as_slice(), &[2]);
    let mut p = 1;
    vec.try_resize_with(4, || {
        p *= 2;
        p
    })
    .unwrap();
    assert_eq!(vec.as_slice(), &[8, 4, 2, 2]);
}

#[test]
fn rev_reserve_keeps_elements() {
    let mut bump = new_bump();
    let mut vec = MutBumpVecRev::new_in(&mut bump);
    vec.try_push(1u8).unwrap();
    let spare = vec.capacity() - vec.len();
    vec.try_reserve(spare).unwrap();
    assert_eq!(vec.capacity() - vec.len(), spare);
    vec.try_reserve_exact(spare + 100).unwrap();
    assert!(vec.capacity() - vec.len() >= spare + 100);
    assert_eq!(vec.as_slice(), &[1]);
}

#[test]
fn rev_from_elem_clones_the_value() {
    let mut bump = new_bump();
    let vec = MutBumpVecRev::try_from_elem_in(String::from("a"), 3, &mut bump).unwrap();
    assert_eq!(vec.as_slice(), &["a", "a", "a"]);
    assert!(vec.capacity() >= 3);
    let mut bump2 = new_bump();
    let empty = MutBumpVecRev::try_from_elem_in(5u8, 0, &mut bump2).unwrap();
    assert!(empty.is_empty());
}

#[test]
fn rev_from_array_keeps_the_order() {
    let mut bump = new_bump();
    let mut vec = MutBumpVecRev::try_from_array_in([1, 2, 3], &mut bump).unwrap();
    assert_eq!(vec.as_slice(), &[1, 2, 3]);
    vec.try_push(0).unwrap();
    assert_eq!(vec.as_slice(), &[0, 1, 2, 3]);
}

#[test]
fn rev_from_iter_reverses() {
    let mut bump = new_bump();
    let vec = MutBumpVecRev::try_from_iter_in(vec![1, 2, 3], &mut bump).unwrap();
    assert_eq!(vec.as_slice(), &[3, 2, 1]);
    assert_eq!(vec.capacity() >= 3, true);
}

#[test]
fn rev_into_flattened() {
    let mut bump = new_bump();
    let mut vec = MutBumpVecRev::try_from_array_in([[1, 2, 3], [4, 5, 6], [7, 8, 9]], &mut bump).unwrap();
    assert_eq!(vec.pop(), Some([1, 2, 3]));
    let cap = vec.capacity();
    let mut flattened = vec.into_flattened();
    assert_eq!(flattened.capacity(), cap * 3);
    assert_eq!(flattened.pop(), Some(4));
    assert_eq!(flattened.as_slice(), &[5, 6, 7, 8, 9]);
}

#[test]
fn rev_extend_from_within() {
    let mut bump = new_bump();
    let mut vec = MutBumpVecRev::try_from_array_in([1, 2, 3, 4], &mut bump).unwrap();
    vec.try_extend_from_within_copy(Bound::Included(1), Bound::Excluded(3)).unwrap();
    assert_eq!(vec.as_slice(), &[2, 3, 1, 2, 3, 4]);
    vec.try_extend_from_within_clone(Bound::Unbounded, Bound::Included(0)).unwrap();
    assert_eq!(vec.as_slice(), &[2, 2, 3, 1, 2, 3, 4]);
}

#[test]
fn rev_into_boxed_slice_allocates_the_elements() {
    let mut bump = new_bump();
    let before = bump.stats().allocated();
    let mut vec = MutBumpVecRev::try_with_capacity_in(8, &mut bump).unwrap();
    vec.try_push(1u32).unwrap();
    vec.try_push(2u32).unwrap();
    vec.try_push(3u32).unwrap();
    let items = vec.into_boxed_slice();
    assert_eq!(items, vec![3, 2, 1]);
    assert_eq!(bump.stats().allocated(), before + 12);
    let empty = MutBumpVecRev::<u32, _, _>::try_with_capacity_in(4, &mut bump).unwrap();
    assert!(empty.into_boxed_slice().is_empty());
    assert_eq!(bump.stats().allocated(), before + 12);
}

#[test]
fn rev_pop_undoes_push() {
    let mut bump = new_bump();
    let mut vec = MutBumpVecRev::try_from_array_in([2, 3], &mut bump).unwrap();
    vec.try_push(1).unwrap();
    assert_eq!(vec.pop(), Some(1));
    assert_eq!(vec.as_slice(), &[2, 3]);
}

#[test]
fn rev_extend_from_array_keeps_its_order() {
    let mut bump = new_bump();
    let mut vec = MutBumpVecRev::try_from_array_in([4, 5], &mut bump).unwrap();
    vec.try_extend_from_array([1, 2, 3]).unwrap();
    assert_eq!(vec.as_slice(), &[1, 2, 3, 4, 5]);
}
