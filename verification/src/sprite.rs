//! Sprite rectangles, the shelf packer and the composed atlas.

pub mod pack;
pub mod spritemap;

use vstd::prelude::*;

verus! {

/// A 2D axis-aligned rectangle: position and size in 16-bit units.
#[derive(Clone, Copy, Debug, Eq, Hash, PartialEq)]
pub struct Rect {
    /// The top-left corner (x, y).
    pub pos: (u16, u16),
    /// The extent (width, height).
    pub size: (u16, u16),
}

impl Default for Rect {
    /// Returns the rectangle at the origin with zero size.
    fn default() -> (r: Self)
        ensures
            r.pos == (0u16, 0u16),
            r.size == (0u16, 0u16),
    {
        Rect { pos: (0, 0), size: (0, 0) }
    }
}

/// Whether two rectangles share no cell: they are separated along the
/// x axis or along the y axis.
pub open spec fn rects_disjoint(a: Rect, b: Rect) -> bool {
    ||| a.pos.0 + a.size.0 <= b.pos.0
    ||| b.pos.0 + b.size.0 <= a.pos.0
    ||| a.pos.1 + a.size.1 <= b.pos.1
    ||| b.pos.1 + b.size.1 <= a.pos.1
}

/// Whether a rectangle lies inside the square with the given side.
pub open spec fn rect_in_square(r: Rect, side: int) -> bool {
    r.pos.0 + r.size.0 <= side && r.pos.1 + r.size.1 <= side
}

/// Whether the rectangle covers the cell (x, y).
pub open spec fn rect_covers(r: Rect, x: int, y: int) -> bool {
    r.pos.0 <= x < r.pos.0 + r.size.0 && r.pos.1 <= y < r.pos.1 + r.size.1
}

} // verus!
