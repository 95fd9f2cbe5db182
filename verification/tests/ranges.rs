use bump_scope::one_sided_range::{direction, Direction};
use bump_scope::range::{slice_range, Bound};

#[test]
fn one_sided_ranges_give_their_direction() {
    assert_eq!(direction(Bound::Included(2), Bound::Unbounded, 5), (Direction::From, 2));
    assert_eq!(direction(Bound::Excluded(2), Bound::Unbounded, 5), (Direction::From, 3));
    assert_eq!(direction(Bound::Unbounded, Bound::Included(2), 5), (Direction::To, 3));
    assert_eq!(direction(Bound::Unbounded, Bound::Excluded(5), 5), (Direction::To, 5));
}

#[test]
fn ranges_become_start_and_end() {
    assert_eq!(slice_range(Bound::Unbounded, Bound::Unbounded, 4), (0, 4));
    assert_eq!(slice_range(Bound::Included(1), Bound::Excluded(3), 4), (1, 3));
    assert_eq!(slice_range(Bound::Excluded(0), Bound::Included(3), 4), (1, 4));
}
