use germina::chunk::point::InnerPoint;
use germina::chunk::{DEPTH, HEIGHT, WIDTH};
use germina::point::{chunk, cluster, global, world};
use germina::side::Side;

fn point(x: u8, y: u8, z: u8) -> InnerPoint {
    InnerPoint::new(x, y, z).unwrap()
}

#[test]
fn to() {
    let w = WIDTH as u8;
    let h = HEIGHT as u8;
    let d = DEPTH as u8;

    let a = point(1, 0, 0);
    assert_eq!(a.to(Side::Left, 0), Ok(a));
    assert_eq!(a.to(Side::Left, 1), Ok(point(2, 0, 0)));
    assert_eq!(a.to(Side::Left, w - 1), Err(point(0, 0, 0)));
    assert_eq!(a.to(Side::Right, 0), Ok(a));
    assert_eq!(a.to(Side::Right, 1), Ok(point(0, 0, 0)));
    assert_eq!(a.to(Side::Right, 2), Err(point(w - 1, 0, 0)));

    let a = point(0, 1, 0);
    assert_eq!(a.to(Side::Up, 0), Ok(a));
    assert_eq!(a.to(Side::Up, 1), Ok(point(0, 2, 0)));
    assert_eq!(a.to(Side::Up, h - 1), Err(point(0, 0, 0)));
    assert_eq!(a.to(Side::Down, 0), Ok(a));
    assert_eq!(a.to(Side::Down, 1), Ok(point(0, 0, 0)));
    assert_eq!(a.to(Side::Down, 2), Err(point(0, h - 1, 0)));

    let a = point(0, 0, 1);
    assert_eq!(a.to(Side::Forth, 0), Ok(a));
    assert_eq!(a.to(Side::Forth, 1), Ok(point(0, 0, 2)));
    assert_eq!(a.to(Side::Forth, d - 1), Err(point(0, 0, 0)));
    assert_eq!(a.to(Side::Back, 0), Ok(a));
    assert_eq!(a.to(Side::Back, 1), Ok(point(0, 0, 0)));
    assert_eq!(a.to(Side::Back, 2), Err(point(0, 0, d - 1)));
}

const POINTS: [(i32, i32, i32); 6] = [
    (0, 0, 0),
    (1, -1, 0),
    (2, -2, 3),
    (15, 0, -15),
    (16, 0, -16),
    (-45, 50, 32),
];

#[test]
fn global_absolute() {
    for (x, y, z) in POINTS {
        let point = global::Point::from_absolute(x, y, z).unwrap();
        assert_eq!(point.absolute(), (x, y, z));
    }
}

#[test]
fn world_absolute() {
    for (x, y, z) in POINTS {
        let point = world::Point::from_absolute(x, y, z).unwrap();
        assert_eq!(point.absolute(), (x, y, z));
    }
}

#[test]
fn inner_point_bounds() {
    assert!(InnerPoint::new(15, 31, 15).is_some());
    assert!(InnerPoint::new(16, 0, 0).is_none());
    assert!(InnerPoint::new(0, 32, 0).is_none());
    assert!(InnerPoint::new(0, 0, 16).is_none());
    let p = point(3, 7, 11);
    assert_eq!(p.parts(), (3, 7, 11));
    assert_eq!((p.x(), p.y(), p.z()), (3, 7, 11));
}

#[test]
fn chunk_point_rejects_most_negative() {
    assert!(chunk::Point::new(-127, 0, 127).is_some());
    assert!(chunk::Point::new(-128, 0, 0).is_none());
    assert!(chunk::Point::new(0, -128, 0).is_none());
    assert!(chunk::Point::new(0, 0, -128).is_none());
}

#[test]
fn cluster_point_rejects_most_negative() {
    assert!(cluster::Point::new(-127, 0, 127).is_ok());
    assert!(cluster::Point::new(-128, 0, 0).is_err());
    assert!(cluster::Point::new(0, -128, 0).is_err());
    assert!(cluster::Point::new(0, 0, -128).is_err());
}

#[test]
fn world_decomposition_is_euclidean() {
    let p = world::Point::from_absolute(-1, -1, -1).unwrap();
    assert_eq!(p.chunk_point().parts(), (-1, -1, -1));
    assert_eq!(p.block_point().parts(), ((WIDTH - 1) as u8, (HEIGHT - 1) as u8, (DEPTH - 1) as u8));
    let q = world::Point::from_absolute(33, -33, 17).unwrap();
    assert_eq!(q.chunk_point().parts(), (2, -2, 1));
    assert_eq!(q.block_point().parts(), (1, 31, 1));
}

#[test]
fn from_absolute_rejects_far_coordinates() {
    assert!(world::Point::from_absolute(2048, 0, 0).is_none());
    assert!(world::Point::from_absolute(-2033, 0, 0).is_none());
    assert!(world::Point::from_absolute(0, 4096, 0).is_none());
    assert!(world::Point::from_absolute(2047, 4095, 2047).is_some());
    assert!(world::Point::from_absolute(-2032, -4064, -2032).is_some());
    assert!(global::Point::from_absolute(2048, 0, 0).is_err());
    assert!(global::Point::from_absolute(0, 0, 100_000).is_err());
    assert!(global::Point::from_absolute(-2032, 4095, 2047).is_ok());
}

#[test]
fn composite_point_accessors() {
    let bl = point(1, 2, 3);
    let ch = chunk::Point::new(-4, 5, -6).unwrap();
    let wp = world::Point::new(bl, ch);
    assert_eq!(wp.block_point(), bl);
    assert_eq!(wp.chunk_point(), ch);

    let cl = cluster::Point::new(7, -8, 9).unwrap();
    let gp = global::Point::new(bl, cl);
    assert_eq!(gp.chunk_point(), bl);
    assert_eq!(gp.cluster_point(), cl);
    assert_eq!(gp.absolute(), (7 * 16 + 1, -8 * 32 + 2, 9 * 16 + 3));
}
