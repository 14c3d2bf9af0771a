use germina::chunk::layout::{Curve, Straight};

const STRAIGHT_ORDER: [(u32, u32, u32); 12] = [
    (0, 0, 0),
    (1, 0, 0),
    (0, 1, 0),
    (1, 1, 0),
    (0, 2, 0),
    (1, 2, 0),
    (0, 0, 1),
    (1, 0, 1),
    (0, 1, 1),
    (1, 1, 1),
    (0, 2, 1),
    (1, 2, 1),
];

#[test]
fn straight_to_point() {
    for (index, point) in std::iter::zip(0.., STRAIGHT_ORDER) {
        assert_eq!(Straight::<2, 3>::to_point(index), point);
    }
}

#[test]
fn straight_to_index() {
    for (index, point) in std::iter::zip(0.., STRAIGHT_ORDER) {
        assert_eq!(Straight::<2, 3>::to_index(point), index);
    }
}

const CURVE_ORDER: [(u32, u32, u32); 32] = [
    (0, 0, 0),
    (1, 0, 0),
    (0, 1, 0),
    (1, 1, 0),
    (0, 0, 1),
    (1, 0, 1),
    (0, 1, 1),
    (1, 1, 1),
    (2, 0, 0),
    (3, 0, 0),
    (2, 1, 0),
    (3, 1, 0),
    (2, 0, 1),
    (3, 0, 1),
    (2, 1, 1),
    (3, 1, 1),
    (0, 2, 0),
    (1, 2, 0),
    (0, 3, 0),
    (1, 3, 0),
    (0, 2, 1),
    (1, 2, 1),
    (0, 3, 1),
    (1, 3, 1),
    (2, 2, 0),
    (3, 2, 0),
    (2, 3, 0),
    (3, 3, 0),
    (2, 2, 1),
    (3, 2, 1),
    (2, 3, 1),
    (3, 3, 1),
];

#[test]
fn curve_to_point() {
    for (index, point) in std::iter::zip(0.., CURVE_ORDER) {
        assert_eq!(Curve::to_point(index), point);
    }
}

#[test]
fn curve_to_index() {
    for (index, point) in std::iter::zip(0.., CURVE_ORDER) {
        assert_eq!(Curve::to_index(point), index);
    }
}

#[test]
fn straight_round_trip_full_cross_section() {
    for z in 0..4u32 {
        for y in 0..3u32 {
            for x in 0..2u32 {
                let i = Straight::<2, 3>::to_index((x, y, z));
                assert_eq!(Straight::<2, 3>::to_point(i), (x, y, z));
            }
        }
    }
}

#[test]
fn curve_round_trip_chunk_domain() {
    for z in 0..16u32 {
        for y in 0..32u32 {
            for x in 0..16u32 {
                let i = Curve::to_index((x, y, z));
                assert!(i < 0x8000);
                assert_eq!(Curve::to_point(i), (x, y, z));
            }
        }
    }
}

#[test]
fn curve_index_round_trip_dense() {
    for i in 0..0x8000u32 {
        let p = Curve::to_point(i);
        assert_eq!(Curve::to_index(p), i);
    }
}
