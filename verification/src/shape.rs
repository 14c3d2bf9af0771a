//! Block shapes and their identifiers.

use vstd::prelude::*;

verus! {

/// The form of one block; a single shape exists so far.
#[derive(Clone, Copy, Debug, Eq, PartialEq, Structural)]
pub enum Shape {
    S0,
}

/// Rejection of an unknown shape identifier.
#[derive(Clone, Copy, Debug, Eq, PartialEq)]
pub struct ShapeIdError(());

impl Shape {
    /// Returns the shape named by an identifier; zero names the only
    /// shape so far, anything else is rejected.
    pub fn from_id(id: u8) -> (r: Result<Shape, ShapeIdError>)
        ensures
            r is Ok <==> id == 0,
            r matches Ok(s) ==> s == Shape::S0,
    {
        if id == 0 {
            Ok(Shape::S0)
        } else {
            Err(ShapeIdError(()))
        }
    }
}

} // verus!
