use bump_scope::allocator::BaseAllocator;
use bump_scope::fixed_bump_string::FixedBumpString;
use bump_scope::fixed_bump_vec::FixedBumpVec;
use bump_scope::layout::Layout;
use bump_scope::range::Bound;
use bump_scope::raw_bump::RawBump;
use bump_scope::settings::DefaultSettings;

/// Hands out consecutive, 16-aligned address ranges starting at 64 KiB.
struct TestAllocator {
    next: usize,
}

impl BaseAllocator for TestAllocator {
    fn allocate(&mut self, layout: Layout) -> Option<(usize, usize)> {
        let align = layout.align().max(16);
        let addr = (self.next + align - 1) / align * align;
        self.next = addr + layout.size();
        Some((addr, layout.size()))
    }

    fn deallocate(&mut self, _addr: usize, _layout: Layout) {}
}

type Bump = RawBump<TestAllocator, DefaultSettings>;

fn new_bump() -> Bump {
    RawBump::with_size(512, TestAllocator { next: 0x10000 }).unwrap()
}

fn string_in(capacity: usize, bump: &mut Bump) -> FixedBumpString {
    FixedBumpString::try_with_capacity_in(capacity, bump).unwrap()
}

#[test]
fn string_new_is_empty() {
    let string = FixedBumpString::new();
    assert_eq!(string.len(), 0);
    assert_eq!(string.capacity(), 0);
    assert!(string.is_empty());
}

#[test]
fn string_capacity_counts_bytes() {
    let mut bump = new_bump();
    let mut s = string_in(10, &mut bump);
    assert_eq!(s.len(), 0);
    for _ in 0..10 {
        s.push('a');
    }
    assert!(s.try_push('a').is_err());
    assert_eq!(s.as_str(), "aaaaaaaaaa");
    let mut t = string_in(3, &mut bump);
    t.push('a');
    assert!(t.try_push('č').is_ok());
    assert!(t.try_push('č').is_err());
    assert_eq!(t.len(), 3);
}

#[test]
fn string_push_str_appends() {
    let mut bump = new_bump();
    let mut string = string_in(9, &mut bump);
    string.push_str("foo");
    string.try_push_str("bar").unwrap();
    string.push_str("baz");
    assert_eq!(string.as_str(), "foobarbaz");
    assert!(string.try_push_str("!").is_err());
    assert_eq!(string.as_str(), "foobarbaz");
}

#[test]
fn string_from_utf8_checks_the_bytes() {
    let mut bump = new_bump();
    let mut sparkle_heart = FixedBumpVec::try_with_capacity_in(4, &mut bump).unwrap();
    sparkle_heart.extend_from_slice_copy(&[240u8, 159, 146, 150]);
    let sparkle_heart = FixedBumpString::from_utf8(sparkle_heart).ok().unwrap();
    assert_eq!("💖", sparkle_heart.as_str());

    let mut invalid = FixedBumpVec::try_with_capacity_in(4, &mut bump).unwrap();
    invalid.extend_from_slice_copy(&[0u8, 159, 146, 150]);
    let err = FixedBumpString::from_utf8(invalid).err().unwrap();
    assert_eq!(err.as_bytes(), &[0, 159, 146, 150]);
    assert_eq!(err.utf8_error().valid_up_to(), 1);
    assert_eq!(err.into_bytes().capacity(), 4);
}

#[test]
fn string_into_bytes() {
    let mut bump = new_bump();
    let mut s = string_in(5, &mut bump);
    s.push_str("hello");
    let bytes = s.into_bytes();
    assert_eq!(bytes.as_slice(), &[104, 101, 108, 108, 111]);
}

#[test]
fn string_split_off_ranges() {
    let mut bump = new_bump();
    let mut string = string_in(20, &mut bump);
    string.push_str("foobarbazqux");

    let foo = string.split_off(Bound::Unbounded, Bound::Excluded(3));
    assert_eq!(foo.as_str(), "foo");
    assert_eq!(string.as_str(), "barbazqux");

    let qux = string.split_off(Bound::Included(6), Bound::Unbounded);
    assert_eq!(qux.as_str(), "qux");
    assert_eq!(string.as_str(), "barbaz");

    let rb = string.split_off(Bound::Included(2), Bound::Excluded(4));
    assert_eq!(rb.as_str(), "rb");
    assert_eq!(string.as_str(), "baaz");

    let rest = string.split_off(Bound::Unbounded, Bound::Unbounded);
    assert_eq!(rest.as_str(), "baaz");
    assert_eq!(string.as_str(), "");
}

#[test]
fn string_pop_returns_chars() {
    let mut bump = new_bump();
    let mut s = string_in(4, &mut bump);
    s.push_str("abč");
    assert_eq!(s.pop(), Some('č'));
    assert_eq!(s.pop(), Some('b'));
    assert_eq!(s.pop(), Some('a'));
    assert_eq!(s.pop(), None);
}

#[test]
fn string_clear_keeps_capacity() {
    let mut bump = new_bump();
    let mut s = string_in(3, &mut bump);
    s.push_str("foo");
    s.clear();
    assert!(s.is_empty());
    assert_eq!(s.len(), 0);
    assert_eq!(s.capacity(), 3);
}

#[test]
fn string_truncate_and_remove() {
    let mut bump = new_bump();
    let mut s = string_in(5, &mut bump);
    s.push_str("hello");
    s.truncate(2);
    assert_eq!(s.as_str(), "he");
    s.truncate(10);
    assert_eq!(s.as_str(), "he");

    let mut s = string_in(4, &mut bump);
    s.push_str("abç");
    assert_eq!(s.remove(0), 'a');
    assert_eq!(s.remove(1), 'ç');
    assert_eq!(s.remove(0), 'b');
    assert!(s.is_empty());
}

#[test]
fn string_retain_filters_chars() {
    let mut bump = new_bump();
    let mut s = string_in(50, &mut bump);
    s.push_str("f_o_ob_ar");
    s.retain(|c| c != '_');
    assert_eq!(s.as_str(), "foobar");

    let mut s = string_in(50, &mut bump);
    s.push_str("abcde");
    let keep = [false, true, true, false, true];
    let mut iter = keep.iter();
    s.retain(|_| *iter.next().unwrap());
    assert_eq!(s.as_str(), "bce");
}

#[test]
fn string_drain_hands_out_chars() {
    let mut bump = new_bump();
    let mut s = string_in(50, &mut bump);
    s.push_str("α is alpha, β is beta");
    let beta_offset = s.as_str().find('β').unwrap();
    let mut drain = s.drain(Bound::Unbounded, Bound::Excluded(beta_offset));
    assert_eq!(drain.as_str(), "α is alpha, ");
    assert_eq!(drain.next(), Some('α'));
    assert_eq!(drain.next_back(), Some(' '));
    assert_eq!(drain.as_str(), " is alpha,");
    let mut t = String::new();
    while let Some(c) = drain.next() {
        t.push(c);
    }
    assert_eq!(t, " is alpha,");
    assert_eq!(drain.next_back(), None);
    assert_eq!(s.as_str(), "β is beta");
    s.drain(Bound::Unbounded, Bound::Unbounded);
    assert_eq!(s.as_str(), "");
}

#[test]
fn string_insert_and_insert_str() {
    let mut bump = new_bump();
    let mut s = string_in(3, &mut bump);
    s.insert(0, 'f');
    s.try_insert(1, 'o').unwrap();
    s.insert(2, 'o');
    assert_eq!(s.as_str(), "foo");
    assert!(s.try_insert(0, 'x').is_err());

    let mut s = string_in(6, &mut bump);
    s.push_str("bar");
    s.insert_str(0, "foo");
    assert_eq!(s.as_str(), "foobar");
    assert!(s.try_insert_str(3, "!").is_err());
}

#[test]
fn string_extend_from_within() {
    let mut bump = new_bump();
    let mut string = string_in(14, &mut bump);
    string.push_str("abcde");
    string.extend_from_within(Bound::Included(2), Bound::Unbounded);
    assert_eq!(string.as_str(), "abcdecde");
    string.try_extend_from_within(Bound::Unbounded, Bound::Excluded(2)).unwrap();
    assert_eq!(string.as_str(), "abcdecdeab");
    string.extend_from_within(Bound::Included(4), Bound::Excluded(8));
    assert_eq!(string.as_str(), "abcdecdeabecde");
    assert!(string.try_extend_from_within(Bound::Included(0), Bound::Included(0)).is_err());
}

#[test]
fn string_extend_zeroed() {
    let mut bump = new_bump();
    let mut string = string_in(8, &mut bump);
    string.push_str("What?");
    string.extend_zeroed(3);
    assert_eq!(string.as_str(), "What?\0\0\0");
    assert!(string.try_extend_zeroed(1).is_err());
}

#[test]
fn string_replace_range() {
    let mut bump = new_bump();
    let mut s = string_in(50, &mut bump);
    s.push_str("α is alpha, β is beta");
    let beta_offset = s.as_str().find('β').unwrap();
    s.replace_range(Bound::Unbounded, Bound::Excluded(beta_offset), "Α is capital alpha; ");
    assert_eq!(s.as_str(), "Α is capital alpha; β is beta");

    let mut s = string_in(5, &mut bump);
    s.push_str("hello");
    assert!(s.try_replace_range(Bound::Included(4), Bound::Included(4), " n").is_err());
    assert_eq!(s.as_str(), "hello");
    s.try_replace_range(Bound::Included(1), Bound::Excluded(5), "i").unwrap();
    assert_eq!(s.as_str(), "hi");
}

#[test]
fn string_from_init_is_full() {
    let s = FixedBumpString::from_init("héllo");
    assert_eq!(s.len(), 6);
    assert_eq!(s.capacity(), 6);
    assert_eq!(s.as_bytes(), "héllo".as_bytes());
}

#[test]
fn string_into_boxed_str() {
    let mut bump = new_bump();
    let mut s = string_in(8, &mut bump);
    s.push_str("héllo");
    let owned: String = s.into_boxed_str();
    assert_eq!(owned, "héllo");
}

#[test]
fn string_from_utf8_unchecked_keeps_the_bytes() {
    let mut bump = new_bump();
    let mut bytes = FixedBumpVec::try_with_capacity_in(4, &mut bump).unwrap();
    bytes.extend_from_slice_copy(&[240, 159, 146, 150]);
    let s = FixedBumpString::from_utf8_unchecked(bytes);
    assert_eq!(s.as_str(), "💖");
    assert_eq!(s.capacity(), 4);
}
