use germina::chunk::layout::Curve;
use germina::chunk::point::InnerPoint;
use germina::chunk::{ChunkData, VOLUME};
use germina::config::Net;
use germina::shape::Shape;

fn point(x: u8, y: u8, z: u8) -> InnerPoint {
    InnerPoint::new(x, y, z).unwrap()
}

#[test]
fn chunk_data_starts_filled() {
    let chunk: ChunkData<u8> = ChunkData::new(42);
    assert_eq!(*chunk.get(point(0, 0, 0)), 42);
    assert_eq!(*chunk.get(point(15, 31, 15)), 42);
    assert_eq!(*chunk.get(point(7, 13, 5)), 42);
}

#[test]
fn chunk_data_write_then_read() {
    let mut chunk: ChunkData<u32> = ChunkData::new(0);
    chunk.write(point(1, 2, 3), 77);
    chunk.write(point(3, 2, 1), 88);
    assert_eq!(*chunk.get(point(1, 2, 3)), 77);
    assert_eq!(*chunk.get(point(3, 2, 1)), 88);
    assert_eq!(*chunk.get(point(0, 0, 0)), 0);
    chunk.write(point(1, 2, 3), 99);
    assert_eq!(*chunk.get(point(1, 2, 3)), 99);
}

#[test]
fn chunk_data_cells_are_distinct() {
    let mut chunk: ChunkData<u16> = ChunkData::new(0);
    let mut tag: u16 = 1;
    let probes = [point(0, 0, 0), point(15, 0, 0), point(0, 31, 0), point(0, 0, 15), point(9, 9, 9)];
    for p in probes {
        chunk.write(p, tag);
        tag += 1;
    }
    tag = 1;
    for p in probes {
        assert_eq!(*chunk.get(p), tag);
        tag += 1;
    }
}

#[test]
fn chunk_data_with_curve_layout() {
    let mut chunk: ChunkData<u8, Curve> = ChunkData::new(5);
    assert_eq!(*chunk.get(point(2, 30, 11)), 5);
    chunk.write(point(2, 30, 11), 6);
    chunk.write(point(3, 30, 11), 7);
    assert_eq!(*chunk.get(point(2, 30, 11)), 6);
    assert_eq!(*chunk.get(point(3, 30, 11)), 7);
}

#[test]
fn chunk_volume() {
    assert_eq!(VOLUME, 16 * 32 * 16);
}

#[test]
fn shape_from_id() {
    assert!(matches!(Shape::from_id(0), Ok(Shape::S0)));
    assert!(Shape::from_id(1).is_err());
    assert!(Shape::from_id(255).is_err());
}

#[test]
fn net_addr_hands_back_its_parts() {
    let net = Net::new(String::from("127.0.0.1"), 8080);
    let (ip, port) = net.addr();
    assert_eq!(ip, "127.0.0.1");
    assert_eq!(port, 8080);
}
