//! The in-chunk cell coordinate and its bounded stepping.

use vstd::prelude::*;

use crate::chunk::{in_chunk, DEPTH, HEIGHT, WIDTH};
use crate::side::Side;

verus! {

/// An in-chunk cell coordinate.
///
/// Every value satisfies x < WIDTH, y < HEIGHT, z < DEPTH, so consumers
/// may index chunk storage with it without a bounds check. The checked
/// constructor is the only public way to build one.
#[derive(Clone, Copy, Debug, Eq, Hash, PartialEq, Structural)]
pub struct InnerPoint {
    x: u8,
    y: u8,
    z: u8,
}

impl InnerPoint {
    /// Holds of every value that can exist at run time: the coordinates
    /// lie inside the chunk bounds.
    #[verifier::type_invariant]
    pub closed spec fn wf(self) -> bool {
        (self.x as u32) < WIDTH && (self.y as u32) < HEIGHT && (self.z as u32) < DEPTH
    }

    /// The x coordinate.
    pub closed spec fn spec_x(self) -> u8 {
        self.x
    }

    /// The y coordinate.
    pub closed spec fn spec_y(self) -> u8 {
        self.y
    }

    /// The z coordinate.
    pub closed spec fn spec_z(self) -> u8 {
        self.z
    }

    /// A well-formed point lies inside the chunk bounds.
    pub proof fn lemma_bounds(self)
        requires
            self.wf(),
        ensures
            in_chunk(self.spec_x() as int, self.spec_y() as int, self.spec_z() as int),
    {
    }

    /// Returns the point (x, y, z) when it lies inside the chunk bounds,
    /// and `None` otherwise.
    pub fn new(x: u8, y: u8, z: u8) -> (r: Option<Self>)
        ensures
            r is Some <==> in_chunk(x as int, y as int, z as int),
            r matches Some(p) ==> p.spec_x() == x && p.spec_y() == y && p.spec_z() == z,
    {
        if (x as u32) < WIDTH && (y as u32) < HEIGHT && (z as u32) < DEPTH {
            Some(Self { x, y, z })
        } else {
            None
        }
    }

    /// Returns the coordinates as a plain triple.
    pub fn parts(self) -> (t: (u8, u8, u8))
        ensures
            t == (self.spec_x(), self.spec_y(), self.spec_z()),
    {
        (self.x, self.y, self.z)
    }

    /// The x coordinate.
    pub fn x(self) -> (r: u8)
        ensures
            r == self.spec_x(),
    {
        self.x
    }

    /// The y coordinate.
    pub fn y(self) -> (r: u8)
        ensures
            r == self.spec_y(),
    {
        self.y
    }

    /// The z coordinate.
    pub fn z(self) -> (r: u8)
        ensures
            r == self.spec_z(),
    {
        self.z
    }

    /// Points are their coordinates: two points agree exactly when all
    /// three coordinates agree.
    pub proof fn lemma_coords_injective(a: InnerPoint, b: InnerPoint)
        ensures
            (a.spec_x() == b.spec_x() && a.spec_y() == b.spec_y() && a.spec_z() == b.spec_z())
                <==> a == b,
    {
    }

    /// Whether a step of n cells along `side` stays inside the chunk.
    pub open spec fn spec_step_stays(self, side: Side, n: u8) -> bool {
        match side {
            Side::Left => self.spec_x() + n < WIDTH,
            Side::Right => n <= self.spec_x(),
            Side::Up => self.spec_y() + n < HEIGHT,
            Side::Down => n <= self.spec_y(),
            Side::Forth => self.spec_z() + n < DEPTH,
            Side::Back => n <= self.spec_z(),
        }
    }

    /// The destination cell of a step of n cells along `side`: the cell
    /// itself while the step stays inside the chunk, else the equivalent
    /// cell inside the neighbouring chunk on that side.
    pub open spec fn spec_step_target(self, side: Side, n: u8) -> (int, int, int) {
        let x = self.spec_x() as int;
        let y = self.spec_y() as int;
        let z = self.spec_z() as int;
        match side {
            Side::Left => if x + n < WIDTH {
                (x + n, y, z)
            } else {
                (x + n - WIDTH, y, z)
            },
            Side::Right => if n <= x {
                (x - n, y, z)
            } else {
                (WIDTH - n + x, y, z)
            },
            Side::Up => if y + n < HEIGHT {
                (x, y + n, z)
            } else {
                (x, y + n - HEIGHT, z)
            },
            Side::Down => if n <= y {
                (x, y - n, z)
            } else {
                (x, HEIGHT - n + y, z)
            },
            Side::Forth => if z + n < DEPTH {
                (x, y, z + n)
            } else {
                (x, y, z + n - DEPTH)
            },
            Side::Back => if n <= z {
                (x, y, z - n)
            } else {
                (x, y, DEPTH - n + z)
            },
        }
    }

    /// Advances by n cells along `side`.
    ///
    /// Returns `Ok` with the destination while it stays inside the
    /// chunk, and `Err` with the equivalent cell inside the neighbouring
    /// chunk on that side once the step leaves it. The step distance
    /// must be smaller than the chunk dimension of the side's axis.
    pub fn to(self, side: Side, n: u8) -> (r: Result<Self, Self>)
        requires
            side == Side::Left || side == Side::Right ==> (n as u32) < WIDTH,
            side == Side::Up || side == Side::Down ==> (n as u32) < HEIGHT,
            side == Side::Forth || side == Side::Back ==> (n as u32) < DEPTH,
        ensures
            ({
                let t = self.spec_step_target(side, n);
                match r {
                    Result::Ok(p) => self.spec_step_stays(side, n) && (
                    p.spec_x() as int, p.spec_y() as int, p.spec_z() as int) == t,
                    Result::Err(p) => !self.spec_step_stays(side, n) && (
                    p.spec_x() as int, p.spec_y() as int, p.spec_z() as int) == t,
                }
            }),
    {
        proof {
            use_type_invariant(self);
        }
        let Self { x, y, z } = self;
        let w = WIDTH as u8;
        let h = HEIGHT as u8;
        let d = DEPTH as u8;
        match side {
            Side::Left => {
                let v = x + n;
                if v < w {
                    Ok(Self { x: v, y, z })
                } else {
                    Err(Self { x: v - w, y, z })
                }
            },
            Side::Right => {
                if n <= x {
                    Ok(Self { x: x - n, y, z })
                } else {
                    Err(Self { x: w - n + x, y, z })
                }
            },
            Side::Up => {
                let v = y + n;
                if v < h {
                    Ok(Self { x, y: v, z })
                } else {
                    Err(Self { x, y: v - h, z })
                }
            },
            Side::Down => {
                if n <= y {
                    Ok(Self { x, y: y - n, z })
                } else {
                    Err(Self { x, y: h - n + y, z })
                }
            },
            Side::Forth => {
                let v = z + n;
                if v < d {
                    Ok(Self { x, y, z: v })
                } else {
                    Err(Self { x, y, z: v - d })
                }
            },
            Side::Back => {
                if n <= z {
                    Ok(Self { x, y, z: z - n })
                } else {
                    Err(Self { x, y, z: d - n + z })
                }
            },
        }
    }
}

} // verus!
