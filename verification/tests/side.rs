use germina::side::{Side, Sides};

const ALL_SIDES: [Side; 6] = [
    Side::Left,
    Side::Right,
    Side::Up,
    Side::Down,
    Side::Forth,
    Side::Back,
];

#[test]
fn opposite_pairs() {
    assert_eq!(Side::Left.opposite(), Side::Right);
    assert_eq!(Side::Right.opposite(), Side::Left);
    assert_eq!(Side::Up.opposite(), Side::Down);
    assert_eq!(Side::Down.opposite(), Side::Up);
    assert_eq!(Side::Forth.opposite(), Side::Back);
    assert_eq!(Side::Back.opposite(), Side::Forth);
}

#[test]
fn opposite_involution() {
    for side in ALL_SIDES {
        assert_eq!(side.opposite().opposite(), side);
    }
}

#[test]
fn empty_union_single() {
    for side in ALL_SIDES {
        let joined = Sides::empty().union(Sides::single(side));
        assert_eq!(joined, Sides::single(side));
        assert_eq!(joined.len(), 1);
        assert!(joined.contains(side));
    }
}

#[test]
fn all_iterates_in_canonical_order() {
    let mut it = Sides::all().into_iter();
    let mut seen = Vec::new();
    while let Some(side) = it.next() {
        seen.push(side);
    }
    assert_eq!(seen, ALL_SIDES.to_vec());
}

#[test]
fn len_and_is_empty() {
    assert_eq!(Sides::empty().len(), 0);
    assert!(Sides::empty().is_empty());
    assert_eq!(Sides::all().len(), 6);
    assert!(!Sides::all().is_empty());
    let two = Sides::single(Side::Up).union(Sides::single(Side::Back));
    assert_eq!(two.len(), 2);
}

#[test]
fn contains_and_remove() {
    let mut sides = Sides::single(Side::Left).union(Sides::single(Side::Down));
    assert!(sides.contains(Side::Left));
    assert!(sides.contains(Side::Down));
    assert!(!sides.contains(Side::Up));
    sides.remove(Side::Left);
    assert!(!sides.contains(Side::Left));
    assert!(sides.contains(Side::Down));
    sides.remove(Side::Down);
    assert!(sides.is_empty());
}

#[test]
fn complement_and_intersect() {
    let some = Sides::single(Side::Left).union(Sides::single(Side::Forth));
    let other = some.complement();
    assert_eq!(other.len(), 4);
    assert!(some.intersect(other).is_empty());
    assert_eq!(some.union(other), Sides::all());
    assert_eq!(Sides::all().complement(), Sides::empty());
}

#[test]
fn union_is_a_commutative_monoid() {
    let a = Sides::single(Side::Left).union(Sides::single(Side::Up));
    let b = Sides::single(Side::Back);
    let c = Sides::single(Side::Up).union(Sides::single(Side::Down));
    assert_eq!(a.union(b), b.union(a));
    assert_eq!(a.union(b).union(c), a.union(b.union(c)));
    assert_eq!(a.union(Sides::empty()), a);
    assert_eq!(Sides::empty().union(a), a);
}

#[test]
fn iteration_consumes_subset_in_order() {
    let sides = Sides::single(Side::Back)
        .union(Sides::single(Side::Right))
        .union(Sides::single(Side::Down));
    let mut it = sides.into_iter();
    assert_eq!(it.next(), Some(Side::Right));
    assert_eq!(it.next(), Some(Side::Down));
    assert_eq!(it.next(), Some(Side::Back));
    assert_eq!(it.next(), None);
    assert_eq!(it.next(), None);
}
