//! The composed sprite atlas: the packed rectangles together with one
//! RGBA image into which every sprite has been blitted.

use vstd::arithmetic::div_mod::lemma_fundamental_div_mod_converse;
use vstd::arithmetic::power2::{is_pow2, pow2};
use vstd::prelude::*;

use crate::sprite::pack::{
    is_sorted_of, is_start_side, max_dim, shelf_exp, shelf_fits, sum_area, sum_heights, Packed,
};
use crate::sprite::{rect_covers, rect_in_square, rects_disjoint, Rect};

verus! {

/// An RGBA image: top-left origin, row-major, four bytes per pixel.
pub struct ImageData {
    width: u16,
    height: u16,
    pixels: Vec<u8>,
}

/// The flat byte offset of the pixel (x, y) in a row-major image of
/// the given width.
pub open spec fn pixel_offset(width: int, x: int, y: int) -> int {
    4 * (y * width + x)
}

/// Offsets of cells inside the image stay inside the byte buffer.
proof fn lemma_pixel_offset_bounds(width: int, height: int, x: int, y: int)
    requires
        0 <= x < width,
        0 <= y < height,
    ensures
        0 <= pixel_offset(width, x, y),
        pixel_offset(width, x, y) + 4 <= 4 * width * height,
{
    assert(0 <= y * width + x && (y * width + x) + 1 <= width * height) by (nonlinear_arith)
        requires
            0 <= x < width,
            0 <= y < height,
    ;
    assert(4 * (width * height) == 4 * width * height) by (nonlinear_arith);
}

/// Distinct cells of one image have distinct row-major positions.
proof fn lemma_pixel_offset_injective(width: int, x1: int, y1: int, x2: int, y2: int)
    requires
        0 <= x1 < width,
        0 <= x2 < width,
        0 <= y1,
        0 <= y2,
        (x1, y1) != (x2, y2),
    ensures
        pixel_offset(width, x1, y1) + 4 <= pixel_offset(width, x2, y2) || pixel_offset(
            width,
            x2,
            y2,
        ) + 4 <= pixel_offset(width, x1, y1),
{
    lemma_fundamental_div_mod_converse(y1 * width + x1, width, y1, x1);
    lemma_fundamental_div_mod_converse(y2 * width + x2, width, y2, x2);
    assert(y1 * width + x1 != y2 * width + x2);
}

impl ImageData {
    /// Holds of every value that can exist at run time: the byte
    /// buffer has four bytes per cell.
    #[verifier::type_invariant]
    pub closed spec fn wf(self) -> bool {
        self.pixels@.len() == 4 * (self.width as int) * (self.height as int)
    }

    /// The width in pixels.
    pub closed spec fn spec_width(self) -> u16 {
        self.width
    }

    /// The height in pixels.
    pub closed spec fn spec_height(self) -> u16 {
        self.height
    }

    /// The raw bytes, four per pixel, rows from the top.
    pub closed spec fn spec_pixels(self) -> Seq<u8> {
        self.pixels@
    }

    /// The four RGBA bytes of the pixel at (x, y).
    pub open spec fn spec_pixel(self, x: int, y: int) -> Seq<u8> {
        self.spec_pixels().subrange(
            pixel_offset(self.spec_width() as int, x, y),
            pixel_offset(self.spec_width() as int, x, y) + 4,
        )
    }

    /// Returns a fully transparent image of the given dimensions.
    pub fn new(width: u16, height: u16) -> (r: Self)
        requires
            4 * (width as int) * (height as int) <= u32::MAX,
        ensures
            r.spec_width() == width,
            r.spec_height() == height,
            r.spec_pixels().len() == 4 * (width as int) * (height as int),
            forall|i: int| 0 <= i < r.spec_pixels().len() ==> r.spec_pixels()[i] == 0,
            forall|x: int, y: int|
                0 <= x < width && 0 <= y < height ==> #[trigger] r.spec_pixel(x, y) == seq![
                    0u8,
                    0u8,
                    0u8,
                    0u8,
                ],
    {
        proof {
            assert(4 * ((width as int) * (height as int)) == 4 * (width as int) * (
            height as int)) by (nonlinear_arith);
            assert((width as int) * (height as int) >= 0) by (nonlinear_arith)
                requires
                    width >= 0 && height >= 0,
            ;
        }
        let n = 4u32 * (width as u32 * height as u32);
        let mut pixels: Vec<u8> = Vec::new();
        while pixels.len() < n as usize
            invariant
                pixels@.len() <= n,
                forall|i: int| 0 <= i < pixels@.len() ==> pixels@[i] == 0,
            decreases n - pixels@.len(),
        {
            pixels.push(0);
        }
        let r = Self { width, height, pixels };
        proof {
            assert forall|x: int, y: int|
                0 <= x < width && 0 <= y < height implies #[trigger] r.spec_pixel(x, y) == seq![
                0u8,
                0u8,
                0u8,
                0u8,
            ] by {
                lemma_pixel_offset_bounds(width as int, height as int, x, y);
                assert(r.spec_pixel(x, y) =~= seq![0u8, 0u8, 0u8, 0u8]);
            }
        }
        r
    }

    /// Builds an image from raw RGBA bytes. Returns `None` exactly when
    /// the byte count does not match the dimensions.
    pub fn from_pixels(width: u16, height: u16, pixels: Vec<u8>) -> (r: Option<Self>)
        ensures
            r is Some <==> pixels@.len() == 4 * (width as int) * (height as int),
            r matches Some(img) ==> img.spec_width() == width && img.spec_height() == height
                && img.spec_pixels() == pixels@,
    {
        proof {
            assert(4 * ((width as int) * (height as int)) == 4 * (width as int) * (
            height as int)) by (nonlinear_arith);
            assert(0 <= (width as int) * (height as int) <= 0xFFFF * 0xFFFF) by (nonlinear_arith)
                requires
                    0 <= width <= 0xFFFF && 0 <= height <= 0xFFFF,
            ;
        }
        let expected = 4u64 * (width as u64 * height as u64);
        if pixels.len() as u64 == expected {
            Some(Self { width, height, pixels })
        } else {
            None
        }
    }

    /// The width in pixels.
    pub fn width(&self) -> (r: u16)
        ensures
            r == self.spec_width(),
    {
        self.width
    }

    /// The height in pixels.
    pub fn height(&self) -> (r: u16)
        ensures
            r == self.spec_height(),
    {
        self.height
    }

    /// Reads the four RGBA bytes of the pixel at (x, y).
    pub fn pixel(&self, x: u16, y: u16) -> (r: (u8, u8, u8, u8))
        requires
            x < self.spec_width(),
            y < self.spec_height(),
        ensures
            self.spec_pixel(x as int, y as int) == seq![r.0, r.1, r.2, r.3],
    {
        proof {
            use_type_invariant(&*self);
            lemma_pixel_offset_bounds(
                self.spec_width() as int,
                self.spec_height() as int,
                x as int,
                y as int,
            );
            assert((y as int) * (self.spec_width() as int) <= 0xFFFF * 0xFFFF) by (nonlinear_arith)
                requires
                    0 <= y <= 0xFFFF,
                    0 <= self.spec_width() <= 0xFFFF,
            ;
        }
        let len = self.pixels.len();
        proof {
            assert(pixel_offset(self.spec_width() as int, x as int, y as int) + 4 <= len);
        }
        let off = (4u64 * (y as u64 * self.width as u64 + x as u64)) as usize;
        let r = (
            *self.pixels.get(off).unwrap(),
            *self.pixels.get(off + 1).unwrap(),
            *self.pixels.get(off + 2).unwrap(),
            *self.pixels.get(off + 3).unwrap(),
        );
        proof {
            assert(self.spec_pixel(x as int, y as int) =~= seq![r.0, r.1, r.2, r.3]);
        }
        r
    }

    /// Overwrites the four RGBA bytes of the pixel at (x, y). Every
    /// other pixel keeps its bytes.
    pub fn set_pixel(&mut self, x: u16, y: u16, p: (u8, u8, u8, u8))
        requires
            x < old(self).spec_width(),
            y < old(self).spec_height(),
        ensures
            final(self).spec_width() == old(self).spec_width(),
            final(self).spec_height() == old(self).spec_height(),
            final(self).spec_pixel(x as int, y as int) == seq![p.0, p.1, p.2, p.3],
            forall|x2: int, y2: int|
                0 <= x2 < old(self).spec_width() && 0 <= y2 < old(self).spec_height()
                    && (x2, y2) != (x as int, y as int)
                    ==> final(self).spec_pixel(x2, y2) == old(self).spec_pixel(x2, y2),
    {
        proof {
            use_type_invariant(&*self);
            lemma_pixel_offset_bounds(
                self.spec_width() as int,
                self.spec_height() as int,
                x as int,
                y as int,
            );
            assert((y as int) * (self.spec_width() as int) <= 0xFFFF * 0xFFFF) by (nonlinear_arith)
                requires
                    0 <= y <= 0xFFFF,
                    0 <= self.spec_width() <= 0xFFFF,
            ;
        }
        let ghost before = *self;
        let len = self.pixels.len();
        proof {
            assert(pixel_offset(self.spec_width() as int, x as int, y as int) + 4 <= len);
        }
        let off = (4u64 * (y as u64 * self.width as u64 + x as u64)) as usize;
        put_byte(&mut self.pixels, off, p.0);
        put_byte(&mut self.pixels, off + 1, p.1);
        put_byte(&mut self.pixels, off + 2, p.2);
        put_byte(&mut self.pixels, off + 3, p.3);
        proof {
            assert(self.spec_pixel(x as int, y as int) =~= seq![p.0, p.1, p.2, p.3]);
            assert forall|x2: int, y2: int|
                0 <= x2 < before.spec_width() && 0 <= y2 < before.spec_height() && (x2, y2) != (
                x as int,
                y as int,
                ) implies self.spec_pixel(x2, y2) == before.spec_pixel(x2, y2) by {
                lemma_pixel_offset_bounds(
                    before.spec_width() as int,
                    before.spec_height() as int,
                    x2,
                    y2,
                );
                lemma_pixel_offset_injective(
                    before.spec_width() as int,
                    x2,
                    y2,
                    x as int,
                    y as int,
                );
                assert(self.spec_pixel(x2, y2) =~= before.spec_pixel(x2, y2));
            }
        }
    }

    /// Copies every pixel of `src` into this image, with the top-left
    /// corner of `src` landing at (px, py). Pixels outside that region
    /// keep their bytes.
    pub fn blit(&mut self, src: &ImageData, px: u16, py: u16)
        requires
            px + src.spec_width() <= old(self).spec_width(),
            py + src.spec_height() <= old(self).spec_height(),
        ensures
            final(self).spec_width() == old(self).spec_width(),
            final(self).spec_height() == old(self).spec_height(),
            forall|u: int, v: int|
                0 <= u < src.spec_width() && 0 <= v < src.spec_height()
                    ==> final(self).spec_pixel(px + u, py + v) == src.spec_pixel(u, v),
            forall|x2: int, y2: int|
                0 <= x2 < old(self).spec_width() && 0 <= y2 < old(self).spec_height()
                    && !(px <= x2 < px + src.spec_width() && py <= y2 < py + src.spec_height())
                    ==> final(self).spec_pixel(x2, y2) == old(self).spec_pixel(x2, y2),
    {
        let w = src.width();
        let h = src.height();
        let mut v: u16 = 0;
        while v < h
            invariant
                w == src.spec_width(),
                h == src.spec_height(),
                v <= h,
                px + w <= self.spec_width(),
                py + h <= self.spec_height(),
                self.spec_width() == old(self).spec_width(),
                self.spec_height() == old(self).spec_height(),
                forall|u2: int, v2: int|
                    0 <= u2 < w && 0 <= v2 < v ==> self.spec_pixel(px + u2, py + v2)
                        == src.spec_pixel(u2, v2),
                forall|x2: int, y2: int|
                    0 <= x2 < old(self).spec_width() && 0 <= y2 < old(self).spec_height() && !(px
                        <= x2 < px + w && py <= y2 < py + v) ==> self.spec_pixel(x2, y2) == old(
                        self,
                    ).spec_pixel(x2, y2),
            decreases h - v,
        {
            let mut u: u16 = 0;
            while u < w
                invariant
                    w == src.spec_width(),
                    h == src.spec_height(),
                    v < h,
                    u <= w,
                    px + w <= self.spec_width(),
                    py + h <= self.spec_height(),
                    self.spec_width() == old(self).spec_width(),
                    self.spec_height() == old(self).spec_height(),
                    forall|u2: int, v2: int|
                        0 <= u2 < w && 0 <= v2 < v ==> self.spec_pixel(px + u2, py + v2)
                            == src.spec_pixel(u2, v2),
                    forall|u2: int| 0 <= u2 < u ==> #[trigger] self.spec_pixel(px + u2, py + v as int)
                        == src.spec_pixel(u2, v as int),
                    forall|x2: int, y2: int|
                        0 <= x2 < old(self).spec_width() && 0 <= y2 < old(self).spec_height() && !(
                        px <= x2 < px + w && py <= y2 < py + v) && !(px <= x2 < px + u && y2
                            == py + v) ==> self.spec_pixel(x2, y2) == old(self).spec_pixel(x2, y2),
                decreases w - u,
            {
                let p = src.pixel(u, v);
                self.set_pixel(px + u, py + v, p);
                u += 1;
            }
            v += 1;
        }
    }
}

/// Overwrites one byte of a buffer.
fn put_byte(buf: &mut Vec<u8>, i: usize, b: u8)
    requires
        i < old(buf)@.len(),
    ensures
        final(buf)@ == old(buf)@.update(i as int, b),
    no_unwind
{
    buf[i] = b;
}

/// The sizes, width and height, of a run of images.
pub open spec fn sizes_of(images: Seq<ImageData>) -> Seq<(u16, u16)> {
    Seq::new(images.len(), |i: int| (images[i].spec_width(), images[i].spec_height()))
}

/// The packed atlas: one rectangle per input sprite, in input order,
/// and a square power-of-two RGBA image holding every sprite's pixels
/// at its rectangle, on a transparent ground.
pub struct SpriteMap {
    /// Where each input sprite lies in the atlas, by input order.
    pub rects: Vec<Rect>,
    /// The composed atlas image.
    pub image: ImageData,
}

impl SpriteMap {
    /// Packs the given sprites into a fresh atlas.
    ///
    /// The atlas image is the square the packer chooses, every sprite's
    /// pixels blitted at its rectangle and every uncovered pixel left
    /// fully transparent. Returns `None` exactly when the packer's
    /// chosen side does not fit the largest square whose RGBA byte
    /// buffer the 32-bit size domain can hold; a sum of heights within
    /// that side always composes. The width bound below is forced by
    /// the same buffer limit: a wider sprite fits no such atlas.
    pub fn new(images: &Vec<ImageData>) -> (r: Option<SpriteMap>)
        requires
            forall|i: int|
                0 <= i < images@.len() ==> 0 < (#[trigger] images@[i]).spec_width() <= 0x4000 && 0
                    < images@[i].spec_height() <= 0x8000,
            sum_area(sizes_of(images@)) <= 0x4000_0000,
        ensures
            sum_heights(sizes_of(images@)) <= 0x4000 ==> r is Some,
            exists|sorted: Seq<(u16, u16)>, e0: nat|
                #![trigger is_sorted_of(sorted, sizes_of(images@)), shelf_exp(sorted, e0)]
                {
                    &&& is_sorted_of(sorted, sizes_of(images@))
                    &&& is_start_side(pow2(e0) as int, sizes_of(images@))
                    &&& e0 <= 15
                    &&& (r is Some <==> (shelf_fits(sorted, pow2(shelf_exp(sorted, e0)) as int)
                        && pow2(shelf_exp(sorted, e0)) <= 0x4000))
                    &&& (r matches Some(m) ==> m.image.spec_width() as nat == pow2(
                        shelf_exp(sorted, e0),
                    ))
                },
            r matches Some(m) ==> m.rects@.len() == images@.len() && m.image.spec_width()
                == m.image.spec_height() && is_pow2(m.image.spec_width() as int),
            r matches Some(m) ==> forall|i: int|
                0 <= i < images@.len() ==> (#[trigger] m.rects@[i]).size == (
                    images@[i].spec_width(),
                    images@[i].spec_height(),
                ),
            r matches Some(m) ==> forall|i: int|
                0 <= i < images@.len() ==> rect_in_square(
                    #[trigger] m.rects@[i],
                    m.image.spec_width() as int,
                ),
            r matches Some(m) ==> forall|i: int, j: int|
                0 <= i < images@.len() && 0 <= j < images@.len() && i != j ==> rects_disjoint(
                    m.rects@[i],
                    m.rects@[j],
                ),
            r matches Some(m) ==> forall|i: int, u: int, v: int|
                0 <= i < images@.len() && 0 <= u < images@[i].spec_width() && 0 <= v < images@[
                i].spec_height() ==> m.image.spec_pixel(
                    m.rects@[i].pos.0 + u,
                    m.rects@[i].pos.1 + v,
                ) == images@[i].spec_pixel(u, v),
            r matches Some(m) ==> forall|x: int, y: int|
                #![trigger m.image.spec_pixel(x, y)]
                0 <= x < m.image.spec_width() && 0 <= y < m.image.spec_height() && (forall|i: int|
                    0 <= i < m.rects@.len() ==> !rect_covers(#[trigger] m.rects@[i], x, y))
                    ==> m.image.spec_pixel(x, y) == seq![0u8, 0u8, 0u8, 0u8],
    {
        let n = images.len();
        let mut sizes: Vec<(u16, u16)> = Vec::new();
        let mut i: usize = 0;
        while i < n
            invariant
                i <= n,
                n == images@.len(),
                sizes@.len() == i,
                forall|j: int|
                    0 <= j < i ==> #[trigger] sizes@[j] == (
                        images@[j].spec_width(),
                        images@[j].spec_height(),
                    ),
            decreases n - i,
        {
            let w = images[i].width();
            let h = images[i].height();
            sizes.push((w, h));
            i += 1;
        }
        proof {
            assert(sizes@ =~= sizes_of(images@));
        }
        let ghost svals = sizes@;
        let packed_opt = Packed::pack(&sizes);
        let ghost packed_ghost = packed_opt;
        let packed = match packed_opt {
            Some(packed) => packed,
            None => {
                proof {
                    let (sorted, e0) = choose|sorted: Seq<(u16, u16)>, e0: nat|
                        #![trigger is_sorted_of(sorted, svals), shelf_exp(sorted, e0)]
                        {
                            &&& is_sorted_of(sorted, svals)
                            &&& is_start_side(pow2(e0) as int, svals)
                            &&& e0 <= 15
                            &&& (packed_ghost is Some <==> shelf_fits(
                                sorted,
                                pow2(shelf_exp(sorted, e0)) as int,
                            ))
                            &&& (packed_ghost matches Some(p) ==> p.side as nat == pow2(
                                shelf_exp(sorted, e0),
                            ))
                        };
                    assert(is_sorted_of(sorted, sizes_of(images@)));
                    assert(!shelf_fits(sorted, pow2(shelf_exp(sorted, e0)) as int));
                    if sum_heights(sizes_of(images@)) <= 0x4000 {
                        lemma_atlas_heights_fit(images@);
                        assert(false);
                    }
                }
                return None;
            },
        };
        let side = packed.side;
        if side > 0x4000 {
            proof {
                let (sorted, e0) = choose|sorted: Seq<(u16, u16)>, e0: nat|
                    #![trigger is_sorted_of(sorted, svals), shelf_exp(sorted, e0)]
                    {
                        &&& is_sorted_of(sorted, svals)
                        &&& is_start_side(pow2(e0) as int, svals)
                        &&& e0 <= 15
                        &&& (packed_ghost is Some <==> shelf_fits(
                            sorted,
                            pow2(shelf_exp(sorted, e0)) as int,
                        ))
                        &&& (packed_ghost matches Some(p) ==> p.side as nat == pow2(
                            shelf_exp(sorted, e0),
                        ))
                    };
                assert(is_sorted_of(sorted, sizes_of(images@)));
                assert(pow2(shelf_exp(sorted, e0)) == packed.side as nat);
                if sum_heights(sizes_of(images@)) <= 0x4000 {
                    lemma_atlas_heights_fit(images@);
                    assert(false);
                }
            }
            return None;
        }
        proof {
            assert(4 * (side as int) * (side as int) <= 4 * 0x4000 * 0x4000) by (nonlinear_arith)
                requires
                    0 <= side <= 0x4000,
            ;
        }
        let mut image = ImageData::new(side, side);
        let mut i: usize = 0;
        while i < n
            invariant
                i <= n,
                n == images@.len(),
                n == packed.frames@.len(),
                forall|j: int|
                    0 <= j < n ==> 0 < (#[trigger] images@[j]).spec_width() && 0 < images@[
                    j].spec_height(),
                forall|j: int|
                    0 <= j < n ==> (#[trigger] packed.frames@[j]).size == (
                        images@[j].spec_width(),
                        images@[j].spec_height(),
                    ),
                forall|j: int|
                    0 <= j < n ==> rect_in_square(#[trigger] packed.frames@[j], side as int),
                forall|j: int, l: int|
                    0 <= j < n && 0 <= l < n && j != l ==> rects_disjoint(
                        packed.frames@[j],
                        packed.frames@[l],
                    ),
                image.spec_width() == side,
                image.spec_height() == side,
                forall|j: int, u: int, v: int|
                    0 <= j < i && 0 <= u < images@[j].spec_width() && 0 <= v < images@[
                    j].spec_height() ==> image.spec_pixel(
                        packed.frames@[j].pos.0 + u,
                        packed.frames@[j].pos.1 + v,
                    ) == images@[j].spec_pixel(u, v),
                forall|x: int, y: int|
                    #![trigger image.spec_pixel(x, y)]
                    0 <= x < side && 0 <= y < side && (forall|j: int|
                        0 <= j < i ==> !rect_covers(#[trigger] packed.frames@[j], x, y))
                        ==> image.spec_pixel(x, y) == seq![0u8, 0u8, 0u8, 0u8],
            decreases n - i,
        {
            let rect = packed.frames[i];
            let ghost before = image;
            image.blit(&images[i], rect.pos.0, rect.pos.1);
            proof {
                assert forall|j: int, u: int, v: int|
                    0 <= j < i && 0 <= u < images@[j].spec_width() && 0 <= v < images@[
                j].spec_height() implies image.spec_pixel(
                    packed.frames@[j].pos.0 + u,
                    packed.frames@[j].pos.1 + v,
                ) == images@[j].spec_pixel(u, v) by {
                    assert(rects_disjoint(packed.frames@[j], packed.frames@[i as int]));
                    assert(before.spec_pixel(
                        packed.frames@[j].pos.0 + u,
                        packed.frames@[j].pos.1 + v,
                    ) == images@[j].spec_pixel(u, v));
                }
                assert forall|x: int, y: int|
                    #![trigger image.spec_pixel(x, y)]
                    0 <= x < side && 0 <= y < side && (forall|j: int|
                        0 <= j < i + 1 ==> !rect_covers(#[trigger] packed.frames@[j], x, y))
                        implies image.spec_pixel(x, y) == seq![0u8, 0u8, 0u8, 0u8] by {
                    assert(!rect_covers(packed.frames@[i as int], x, y));
                    assert(before.spec_pixel(x, y) == seq![0u8, 0u8, 0u8, 0u8]);
                }
            }
            i += 1;
        }
        proof {
            let (sorted, e0) = choose|sorted: Seq<(u16, u16)>, e0: nat|
                #![trigger is_sorted_of(sorted, svals), shelf_exp(sorted, e0)]
                {
                    &&& is_sorted_of(sorted, svals)
                    &&& is_start_side(pow2(e0) as int, svals)
                    &&& e0 <= 15
                    &&& (packed_ghost is Some <==> shelf_fits(
                        sorted,
                        pow2(shelf_exp(sorted, e0)) as int,
                    ))
                    &&& (packed_ghost matches Some(p) ==> p.side as nat == pow2(
                        shelf_exp(sorted, e0),
                    ))
                };
            assert(is_sorted_of(sorted, sizes_of(images@)));
            assert(pow2(shelf_exp(sorted, e0)) == side as nat);
            assert(shelf_fits(sorted, pow2(shelf_exp(sorted, e0)) as int));
        }
        let ghost pframes = packed.frames@;
        let ghost fimage = image;
        let result = SpriteMap { rects: packed.frames, image };
        proof {
            assert forall|x: int, y: int|
                #![trigger result.image.spec_pixel(x, y)]
                0 <= x < result.image.spec_width() && 0 <= y < result.image.spec_height() && (
                forall|i: int|
                    0 <= i < result.rects@.len() ==> !rect_covers(
                        #[trigger] result.rects@[i],
                        x,
                        y,
                    )) implies result.image.spec_pixel(x, y) == seq![0u8, 0u8, 0u8, 0u8] by {
                assert forall|j: int|
                    0 <= j < pframes.len() implies !rect_covers(#[trigger] pframes[j], x, y) by {
                    assert(!rect_covers(result.rects@[j], x, y));
                }
                assert(fimage.spec_pixel(x, y) == seq![0u8, 0u8, 0u8, 0u8]);
            }
        }
        Some(result)
    }
}

/// A sum of heights within the largest composable side always fits:
/// the packer then settles on a side within it.
proof fn lemma_atlas_heights_fit(images: Seq<ImageData>)
    requires
        forall|i: int|
            0 <= i < images.len() ==> 0 < (#[trigger] images[i]).spec_width() <= 0x4000 && 0
                < images[i].spec_height(),
        sum_heights(sizes_of(images)) <= 0x4000,
    ensures
        max_dim(sizes_of(images)) <= 0x4000,
{
    let sizes = sizes_of(images);
    assert forall|j: int| 0 <= j < sizes.len() implies (#[trigger] sizes[j]).1 <= 0x4000 by {
        crate::sprite::pack::lemma_height_le_sum(sizes, j);
    }
    assert forall|j: int| 0 <= j < sizes.len() implies (#[trigger] sizes[j]).0 <= 0x4000 by {
        assert(images[j].spec_width() <= 0x4000);
    }
    crate::sprite::pack::lemma_max_dim_ub(sizes, 0x4000);
}

} // verus!
