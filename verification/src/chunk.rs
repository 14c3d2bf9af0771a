//! Chunked cell storage and its coordinate layouts.

pub mod data;
pub mod layout;
pub mod point;

use core::marker::PhantomData;

use vstd::prelude::*;

use crate::chunk::data::Data;
use crate::chunk::layout::{Layout, Straight};
use crate::chunk::point::InnerPoint;

verus! {

/// Cells of a chunk along the x axis. Fits an 8-bit coordinate.
pub const WIDTH: u32 = 16;

/// Cells of a chunk along the y axis. Fits an 8-bit coordinate.
pub const HEIGHT: u32 = 32;

/// Cells of a chunk along the z axis. Fits an 8-bit coordinate.
pub const DEPTH: u32 = 16;

/// Cells of a whole chunk.
pub const VOLUME: u32 = WIDTH * HEIGHT * DEPTH;

/// Whether (x, y, z) lies inside the bounds of a chunk.
pub open spec fn in_chunk(x: int, y: int, z: int) -> bool {
    0 <= x < WIDTH && 0 <= y < HEIGHT && 0 <= z < DEPTH
}

/// The cells of one chunk, stored flat in the order of the layout `L`.
///
/// Reads and writes take an `InnerPoint`, whose bounds invariant makes
/// every access hit a cell of the array.
pub struct ChunkData<T, L: Layout = Straight<16, 32>> {
    data: Data<T>,
    layout: PhantomData<L>,
}

impl<T, L: Layout> ChunkData<T, L> {
    /// Holds of every value that can exist at run time: the array has
    /// exactly the cell count that the layout addresses.
    #[verifier::type_invariant]
    pub closed spec fn wf(self) -> bool {
        self.data@.len() == L::spec_size()
    }

    /// The stored cells, in layout order.
    pub closed spec fn spec_cells(self) -> Seq<T> {
        self.data@
    }

    /// The cell that an in-chunk point addresses.
    pub open spec fn spec_at(self, point: InnerPoint) -> T {
        self.spec_cells()[L::spec_index(
            point.spec_x() as int,
            point.spec_y() as int,
            point.spec_z() as int,
        )]
    }

    /// Allocates a chunk with every cell holding `val`.
    pub fn new(val: T) -> (r: Self) where T: Copy
        ensures
            r.spec_cells().len() == L::spec_size(),
            forall|i: int| 0 <= i < L::spec_size() ==> r.spec_cells()[i] == val,
            forall|p: InnerPoint| p.wf() ==> r.spec_at(p) == val,
    {
        proof {
            L::lemma_size();
        }
        let n = L::size();
        let r = Self { data: Data::new(val, n), layout: PhantomData };
        proof {
            assert forall|p: InnerPoint| p.wf() implies r.spec_at(p) == val by {
                p.lemma_bounds();
                L::lemma_point_round_trip(
                    p.spec_x() as int,
                    p.spec_y() as int,
                    p.spec_z() as int,
                );
            }
        }
        r
    }

    /// Reads the cell at `point`.
    pub fn get(&self, point: InnerPoint) -> (r: &T)
        ensures
            *r == self.spec_at(point),
    {
        proof {
            use_type_invariant(&*self);
            use_type_invariant(point);
            point.lemma_bounds();
        }
        let (x, y, z) = point.parts();
        let index = L::index_of((x as u32, y as u32, z as u32));
        self.data.get(index as usize)
    }

    /// Overwrites the cell at `point` with `val`. Every other cell
    /// keeps its value.
    pub fn write(&mut self, point: InnerPoint, val: T)
        ensures
            final(self).spec_cells() == old(self).spec_cells().update(
                L::spec_index(point.spec_x() as int, point.spec_y() as int, point.spec_z() as int),
                val,
            ),
            final(self).spec_at(point) == val,
            forall|q: InnerPoint|
                q.wf() && q != point ==> final(self).spec_at(q) == old(self).spec_at(q),
    {
        proof {
            use_type_invariant(&*self);
            use_type_invariant(point);
            point.lemma_bounds();
        }
        let (x, y, z) = point.parts();
        let index = L::index_of((x as u32, y as u32, z as u32));
        self.data.set(index as usize, val);
        proof {
            assert forall|q: InnerPoint|
                q.wf() && q != point implies self.spec_at(q) == old(self).spec_at(q) by {
                q.lemma_bounds();
                point.lemma_bounds();
                InnerPoint::lemma_coords_injective(q, point);
                L::lemma_point_round_trip(
                    q.spec_x() as int,
                    q.spec_y() as int,
                    q.spec_z() as int,
                );
                L::lemma_point_round_trip(
                    point.spec_x() as int,
                    point.spec_y() as int,
                    point.spec_z() as int,
                );
            }
        }
    }
}

} // verus!
