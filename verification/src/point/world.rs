//! The absolute cell coordinate as a (block, chunk) pair.

use vstd::arithmetic::div_mod::{lemma_fundamental_div_mod, lemma_fundamental_div_mod_converse};
use vstd::prelude::*;

use crate::chunk::point::InnerPoint;
use crate::chunk::{DEPTH, HEIGHT, WIDTH};
use crate::point::{chunk, decomposable};

verus! {

/// An absolute cell coordinate, decomposed into the containing chunk
/// and the cell inside it. The absolute triple on each axis is
/// chunk·dim + block.
#[derive(Clone, Copy, Debug, Eq, Hash, PartialEq, Structural)]
pub struct Point {
    bl: InnerPoint,
    ch: chunk::Point,
}

impl Point {
    /// The in-chunk block part.
    pub closed spec fn spec_block(self) -> InnerPoint {
        self.bl
    }

    /// The chunk part.
    pub closed spec fn spec_chunk(self) -> chunk::Point {
        self.ch
    }

    /// The absolute coordinate triple: chunk·dim + block per axis.
    pub open spec fn spec_absolute(self) -> (int, int, int) {
        (
            self.spec_chunk().spec_x() * WIDTH + self.spec_block().spec_x(),
            self.spec_chunk().spec_y() * HEIGHT + self.spec_block().spec_y(),
            self.spec_chunk().spec_z() * DEPTH + self.spec_block().spec_z(),
        )
    }

    /// Builds the point of a block part and a chunk part.
    pub fn new(bl: InnerPoint, ch: chunk::Point) -> (r: Self)
        ensures
            r.spec_block() == bl,
            r.spec_chunk() == ch,
    {
        Self { bl, ch }
    }

    /// Decomposes an absolute coordinate into its chunk and block parts
    /// by Euclidean division, so the block part is non-negative and
    /// below the axis size for either sign of the input. Returns `None`
    /// exactly when a chunk part leaves the signed 8-bit domain.
    pub fn from_absolute(x: i32, y: i32, z: i32) -> (r: Option<Self>)
        ensures
            r is Some <==> decomposable(x as int, y as int, z as int),
            r matches Some(p) ==> {
                &&& p.spec_chunk().spec_x() == x as int / WIDTH as int
                &&& p.spec_chunk().spec_y() == y as int / HEIGHT as int
                &&& p.spec_chunk().spec_z() == z as int / DEPTH as int
                &&& p.spec_block().spec_x() == x as int % WIDTH as int
                &&& p.spec_block().spec_y() == y as int % HEIGHT as int
                &&& p.spec_block().spec_z() == z as int % DEPTH as int
                &&& p.spec_absolute() == (x as int, y as int, z as int)
            },
    {
        let qx = x.checked_div_euclid(WIDTH as i32).unwrap();
        let qy = y.checked_div_euclid(HEIGHT as i32).unwrap();
        let qz = z.checked_div_euclid(DEPTH as i32).unwrap();
        if qx < -127 || qx > 127 || qy < -127 || qy > 127 || qz < -127 || qz > 127 {
            return None;
        }
        let mx = x.checked_rem_euclid(WIDTH as i32).unwrap();
        let my = y.checked_rem_euclid(HEIGHT as i32).unwrap();
        let mz = z.checked_rem_euclid(DEPTH as i32).unwrap();
        let ch = match chunk::Point::new(qx as i8, qy as i8, qz as i8) {
            Some(c) => c,
            None => {
                return None;
            },
        };
        let bl = match InnerPoint::new(mx as u8, my as u8, mz as u8) {
            Some(b) => b,
            None => {
                return None;
            },
        };
        proof {
            lemma_fundamental_div_mod(x as int, WIDTH as int);
            lemma_fundamental_div_mod(y as int, HEIGHT as int);
            lemma_fundamental_div_mod(z as int, DEPTH as int);
        }
        Some(Self::new(bl, ch))
    }

    /// The in-chunk block part.
    pub fn block_point(self) -> (r: InnerPoint)
        ensures
            r == self.spec_block(),
    {
        self.bl
    }

    /// The chunk part.
    pub fn chunk_point(self) -> (r: chunk::Point)
        ensures
            r == self.spec_chunk(),
    {
        self.ch
    }

    /// The decomposition is the unique Euclidean one: the absolute
    /// triple of any point divides back into exactly its own chunk and
    /// block parts, so recomposition loses nothing.
    pub proof fn lemma_decomposition_unique(self)
        requires
            self.spec_block().wf(),
            self.spec_chunk().wf(),
        ensures
            decomposable(self.spec_absolute().0, self.spec_absolute().1, self.spec_absolute().2),
            self.spec_absolute().0 / (WIDTH as int) == self.spec_chunk().spec_x(),
            self.spec_absolute().1 / (HEIGHT as int) == self.spec_chunk().spec_y(),
            self.spec_absolute().2 / (DEPTH as int) == self.spec_chunk().spec_z(),
            self.spec_absolute().0 % (WIDTH as int) == self.spec_block().spec_x(),
            self.spec_absolute().1 % (HEIGHT as int) == self.spec_block().spec_y(),
            self.spec_absolute().2 % (DEPTH as int) == self.spec_block().spec_z(),
    {
        self.spec_block().lemma_bounds();
        self.spec_chunk().lemma_bounds();
        lemma_fundamental_div_mod_converse(
            self.spec_absolute().0,
            WIDTH as int,
            self.spec_chunk().spec_x() as int,
            self.spec_block().spec_x() as int,
        );
        lemma_fundamental_div_mod_converse(
            self.spec_absolute().1,
            HEIGHT as int,
            self.spec_chunk().spec_y() as int,
            self.spec_block().spec_y() as int,
        );
        lemma_fundamental_div_mod_converse(
            self.spec_absolute().2,
            DEPTH as int,
            self.spec_chunk().spec_z() as int,
            self.spec_block().spec_z() as int,
        );
    }

    /// Recomposes the absolute coordinate triple: chunk·dim + block per
    /// axis, so a point built by `from_absolute` returns its input.
    pub fn absolute(self) -> (t: (i32, i32, i32))
        ensures
            (t.0 as int, t.1 as int, t.2 as int) == self.spec_absolute(),
    {
        let (bx, by, bz) = self.bl.parts();
        let (cx, cy, cz) = self.ch.parts();
        proof {
            assert(WIDTH == 16 && HEIGHT == 32 && DEPTH == 16);
            assert(-128 <= cx <= 127 && -128 <= cy <= 127 && -128 <= cz <= 127);
        }
        (
            cx as i32 * WIDTH as i32 + bx as i32,
            cy as i32 * HEIGHT as i32 + by as i32,
            cz as i32 * DEPTH as i32 + bz as i32,
        )
    }
}

} // verus!
