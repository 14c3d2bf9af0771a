//! The family of coordinate point types: the signed chunk and cluster
//! coordinates and the composite absolute points built on them.

pub mod chunk;
pub mod cluster;
pub mod global;
pub mod world;

use vstd::prelude::*;

verus! {

/// Rejection of coordinates that lie outside a point type's domain.
#[derive(Clone, Copy, Debug, Eq, PartialEq, Structural)]
pub struct Error;

/// Whether an absolute coordinate triple decomposes into a signed 8-bit
/// chunk part and an in-chunk block part: each Euclidean quotient by
/// the axis size must avoid the most negative 8-bit value.
pub open spec fn decomposable(x: int, y: int, z: int) -> bool {
    -127 <= x / (crate::chunk::WIDTH as int) <= 127 && -127 <= y / (crate::chunk::HEIGHT as int)
        <= 127 && -127 <= z / (crate::chunk::DEPTH as int) <= 127
}

} // verus!
