use bump_scope::chunk_size::{ChunkSize, ChunkSizeHint};
use bump_scope::layout::{ArrayLayout, Layout};

#[test]
fn layouts_check_their_alignment_and_size() {
    assert!(Layout::from_size_align(8, 3).is_err());
    assert!(Layout::from_size_align(8, 0).is_err());
    assert!(Layout::from_size_align(isize::MAX as usize, 2).is_err());
    let l = Layout::from_size_align(24, 8).unwrap();
    assert_eq!((l.size(), l.align()), (24, 8));
    assert!(Layout::array::<u64>(usize::MAX / 4).is_err());
    let a = Layout::array::<u32>(5).unwrap();
    assert_eq!((a.size(), a.align()), (20, 4));
}

#[test]
fn array_layouts_need_a_multiple_of_their_alignment() {
    assert!(ArrayLayout::from_size_align(6, 4).is_err());
    let a = ArrayLayout::from_size_align(8, 4).unwrap();
    assert_eq!((a.size(), a.align()), (8, 4));
    assert!(ArrayLayout::from_layout(Layout::from_size_align(6, 4).unwrap()).is_err());
    let v = ArrayLayout::for_value(&[1u16, 2, 3]);
    assert_eq!((v.size(), v.align()), (6, 2));
}

#[test]
fn chunk_sizes_round_up() {
    // small hints become a power of two minus the malloc overhead
    assert_eq!(ChunkSize::from_hint(1).unwrap().0, 64 - 16);
    assert_eq!(ChunkSize::from_hint(100).unwrap().0, 128 - 16);
    // beyond a page, a multiple of the page size
    assert_eq!(ChunkSize::from_hint(5000).unwrap().0, 8192 - 16);
    assert!(ChunkSize::from_hint(usize::MAX).is_none());
    assert_eq!(ChunkSizeHint::new(10).max(ChunkSizeHint::new(20)).0, 20);
}
