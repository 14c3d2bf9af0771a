use germina::sprite::pack::Packed;
use germina::sprite::spritemap::{ImageData, SpriteMap};
use germina::sprite::Rect;

fn assert_valid_packing(packed: &Packed, sizes: &[(u16, u16)]) {
    assert!(packed.side.is_power_of_two());
    assert_eq!(packed.frames.len(), sizes.len());
    for (frame, size) in std::iter::zip(&packed.frames, sizes) {
        assert_eq!(frame.size, *size);
        assert!(frame.pos.0 + frame.size.0 <= packed.side);
        assert!(frame.pos.1 + frame.size.1 <= packed.side);
    }
    for (i, a) in packed.frames.iter().enumerate() {
        for b in &packed.frames[i + 1..] {
            let apart = a.pos.0 + a.size.0 <= b.pos.0
                || b.pos.0 + b.size.0 <= a.pos.0
                || a.pos.1 + a.size.1 <= b.pos.1
                || b.pos.1 + b.size.1 <= a.pos.1;
            assert!(apart, "rectangles overlap: {a:?} and {b:?}");
        }
    }
}

#[test]
fn pack_four_sprites() {
    let sizes = vec![(4, 4), (8, 2), (2, 8), (1, 1)];
    let packed = Packed::pack(&sizes).unwrap();
    assert_valid_packing(&packed, &sizes);
    assert_eq!(packed.side, 16);
}

#[test]
fn pack_nothing() {
    let packed = Packed::pack(&vec![]).unwrap();
    assert_eq!(packed.side, 1);
    assert!(packed.frames.is_empty());
}

#[test]
fn pack_single_wide_sprite() {
    let sizes = vec![(100, 3)];
    let packed = Packed::pack(&sizes).unwrap();
    assert_valid_packing(&packed, &sizes);
    assert_eq!(packed.side, 128);
    assert_eq!(packed.frames[0], Rect { pos: (0, 0), size: (100, 3) });
}

#[test]
fn pack_single_tall_sprite() {
    let sizes = vec![(3, 300)];
    let packed = Packed::pack(&sizes).unwrap();
    assert_valid_packing(&packed, &sizes);
    assert_eq!(packed.side, 512);
}

#[test]
fn pack_uniform_grid() {
    let sizes = vec![(2, 2); 16];
    let packed = Packed::pack(&sizes).unwrap();
    assert_valid_packing(&packed, &sizes);
    assert_eq!(packed.side, 8);
}

#[test]
fn pack_keeps_input_order() {
    let sizes = vec![(1, 1), (5, 5), (2, 2)];
    let packed = Packed::pack(&sizes).unwrap();
    assert_valid_packing(&packed, &sizes);
    assert_eq!(packed.frames[0].size, (1, 1));
    assert_eq!(packed.frames[1].size, (5, 5));
    assert_eq!(packed.frames[2].size, (2, 2));
}

#[test]
fn pack_many_small_sprites() {
    let sizes = vec![(16, 16); 3000];
    let packed = Packed::pack(&sizes).unwrap();
    assert_valid_packing(&packed, &sizes);
    assert_eq!(packed.side, 1024);
}

#[test]
fn pack_crossing_strips_is_impossible() {
    let sizes = vec![(0x8000, 1), (1, 0x8000)];
    assert!(Packed::pack(&sizes).is_none());
}

fn solid(width: u16, height: u16, rgba: [u8; 4]) -> ImageData {
    let mut bytes = Vec::new();
    for _ in 0..(width as usize * height as usize) {
        bytes.extend_from_slice(&rgba);
    }
    ImageData::from_pixels(width, height, bytes).unwrap()
}

#[test]
fn image_data_checks_byte_count() {
    assert!(ImageData::from_pixels(2, 2, vec![0; 16]).is_some());
    assert!(ImageData::from_pixels(2, 2, vec![0; 15]).is_none());
    assert!(ImageData::from_pixels(2, 2, vec![0; 17]).is_none());
}

#[test]
fn image_data_pixel_round_trip() {
    let mut img = ImageData::new(3, 2);
    assert_eq!(img.pixel(1, 1), (0, 0, 0, 0));
    img.set_pixel(1, 1, (9, 8, 7, 6));
    img.set_pixel(2, 0, (1, 2, 3, 4));
    assert_eq!(img.pixel(1, 1), (9, 8, 7, 6));
    assert_eq!(img.pixel(2, 0), (1, 2, 3, 4));
    assert_eq!(img.pixel(0, 0), (0, 0, 0, 0));
}

#[test]
fn atlas_keeps_sprite_pixels() {
    let red = solid(2, 2, [255, 0, 0, 255]);
    let blue = solid(1, 3, [0, 0, 255, 255]);
    let green = solid(3, 1, [0, 255, 0, 255]);
    let map = SpriteMap::new(&vec![red, blue, green]).unwrap();
    assert_eq!(map.rects.len(), 3);
    assert_eq!(map.image.width(), map.image.height());
    assert!(map.image.width().is_power_of_two());
    assert_eq!(map.rects[0].size, (2, 2));
    assert_eq!(map.rects[1].size, (1, 3));
    assert_eq!(map.rects[2].size, (3, 1));

    let expected = [[255, 0, 0, 255], [0, 0, 255, 255], [0, 255, 0, 255]];
    for (rect, rgba) in std::iter::zip(&map.rects, &expected) {
        for v in 0..rect.size.1 {
            for u in 0..rect.size.0 {
                let got = map.image.pixel(rect.pos.0 + u, rect.pos.1 + v);
                assert_eq!(got, (rgba[0], rgba[1], rgba[2], rgba[3]));
            }
        }
    }
}

#[test]
fn atlas_of_one_pixel() {
    let dot = solid(1, 1, [1, 2, 3, 4]);
    let map = SpriteMap::new(&vec![dot]).unwrap();
    assert_eq!(map.image.width(), 1);
    assert_eq!(map.rects[0], Rect { pos: (0, 0), size: (1, 1) });
    assert_eq!(map.image.pixel(0, 0), (1, 2, 3, 4));
}

#[test]
fn atlas_background_is_transparent() {
    let red = solid(2, 1, [255, 0, 0, 255]);
    let map = SpriteMap::new(&vec![red]).unwrap();
    assert_eq!(map.image.width(), 2);
    assert_eq!(map.image.height(), 2);
    let rect = map.rects[0];
    for y in 0..2u16 {
        for x in 0..2u16 {
            let covered = rect.pos.0 <= x
                && x < rect.pos.0 + rect.size.0
                && rect.pos.1 <= y
                && y < rect.pos.1 + rect.size.1;
            if !covered {
                assert_eq!(map.image.pixel(x, y), (0, 0, 0, 0));
            }
        }
    }
}

#[test]
fn atlas_rejects_an_uncomposable_sprite() {
    // Taller than the largest side whose byte buffer stays addressable.
    let tall = solid(1, 0x4001, [9, 9, 9, 9]);
    assert!(SpriteMap::new(&vec![tall]).is_none());
}

#[test]
fn rect_default_is_origin() {
    let r = Rect::default();
    assert_eq!(r.pos, (0, 0));
    assert_eq!(r.size, (0, 0));
}
