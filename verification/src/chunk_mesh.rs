//! The surface mesh of one section.

use crate::math::IVec3;
use vstd::prelude::*;

verus! {

/// Which corner of its quad the `i`-th index of a mesh points to, as a
/// vertex number: quad `i / 6` has the vertices `4 * (i / 6)` and the three
/// after it, and its two triangles take the corners 0, 1, 2 and 0, 2, 3.
pub open spec fn quad_index(i: int) -> int {
    let corner = i % 6;
    4 * (i / 6) + if corner == 0 || corner == 3 {
        0int
    } else if corner == 1 {
        1int
    } else if corner == 5 {
        3int
    } else {
        2int
    }
}

/// The indices of a mesh of `quads` quads.
pub open spec fn quad_indices(quads: int) -> Seq<u32> {
    Seq::new((6 * quads) as nat, |i: int| quad_index(i) as u32)
}

/// A mesh: corner positions, a normal for each corner, and indices that
/// group the corners into triangles. Positions are in voxel units, from the
/// low corner of the section.
#[derive(Clone, Debug, PartialEq, Eq)]
pub struct ChunkSectionMesh {
    pub vertices: Vec<IVec3>,
    pub indices: Vec<u32>,
    pub normals: Vec<IVec3>,
}

impl ChunkSectionMesh {
    /// The mesh is a list of quads: every corner has a normal, corners come
    /// in fours, and the indices are those of two triangles for each quad,
    /// each pointing to a corner that exists.
    pub open spec fn wf(&self) -> bool {
        &&& self.vertices@.len() == self.normals@.len()
        &&& self.vertices@.len() % 4 == 0
        &&& self.indices@.len() == (self.vertices@.len() / 4) * 6
        &&& self.indices@ == quad_indices(self.vertices@.len() as int / 4)
        &&& forall|i: int| 0 <= i < self.indices@.len() ==> self.indices@[i] < self.vertices@.len()
    }

    /// The mesh of the given corners, normals and indices, taken as they
    /// are.
    pub fn new(vertices: Vec<IVec3>, normals: Vec<IVec3>, indices: Vec<u32>) -> (mesh: Self)
        ensures
            mesh.vertices == vertices,
            mesh.normals == normals,
            mesh.indices == indices,
    {
        Self { vertices, indices, normals }
    }
}

impl Default for ChunkSectionMesh {
    /// The mesh without quads.
    fn default() -> (mesh: Self)
        ensures
            mesh.vertices@.len() == 0,
            mesh.normals@.len() == 0,
            mesh.indices@.len() == 0,
    {
        Self { vertices: Vec::new(), indices: Vec::new(), normals: Vec::new() }
    }
}

} // verus!
