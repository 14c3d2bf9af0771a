//! The signed chunk coordinate inside a cluster.

use vstd::prelude::*;

verus! {

/// A chunk coordinate inside a cluster: a triple of signed 8-bit values
/// none of which is the most negative value, so every coordinate can be
/// negated without leaving the domain.
#[derive(Clone, Copy, Debug, Eq, Hash, PartialEq, Structural)]
pub struct Point {
    x: i8,
    y: i8,
    z: i8,
}

impl Point {
    /// Holds of every value that can exist at run time: no coordinate
    /// is the forbidden most negative value.
    #[verifier::type_invariant]
    pub closed spec fn wf(self) -> bool {
        self.x != i8::MIN && self.y != i8::MIN && self.z != i8::MIN
    }

    /// The x coordinate.
    pub closed spec fn spec_x(self) -> i8 {
        self.x
    }

    /// The y coordinate.
    pub closed spec fn spec_y(self) -> i8 {
        self.y
    }

    /// The z coordinate.
    pub closed spec fn spec_z(self) -> i8 {
        self.z
    }

    /// A well-formed point has no coordinate at the most negative value.
    pub proof fn lemma_bounds(self)
        requires
            self.wf(),
        ensures
            self.spec_x() != i8::MIN,
            self.spec_y() != i8::MIN,
            self.spec_z() != i8::MIN,
    {
    }

    /// Returns the point (x, y, z) when no coordinate is the most
    /// negative value, and `None` otherwise.
    pub fn new(x: i8, y: i8, z: i8) -> (r: Option<Self>)
        ensures
            r is Some <==> (x != i8::MIN && y != i8::MIN && z != i8::MIN),
            r matches Some(p) ==> p.spec_x() == x && p.spec_y() == y && p.spec_z() == z,
    {
        if x != i8::MIN && y != i8::MIN && z != i8::MIN {
            Some(Self { x, y, z })
        } else {
            None
        }
    }

    /// Returns the coordinates as a plain triple.
    pub fn parts(self) -> (t: (i8, i8, i8))
        ensures
            t == (self.spec_x(), self.spec_y(), self.spec_z()),
    {
        (self.x, self.y, self.z)
    }

    /// The x coordinate.
    pub fn x(self) -> (r: i8)
        ensures
            r == self.spec_x(),
    {
        self.x
    }

    /// The y coordinate.
    pub fn y(self) -> (r: i8)
        ensures
            r == self.spec_y(),
    {
        self.y
    }

    /// The z coordinate.
    pub fn z(self) -> (r: i8)
        ensures
            r == self.spec_z(),
    {
        self.z
    }
}

} // verus!
