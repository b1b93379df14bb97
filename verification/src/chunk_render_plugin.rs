//! The plain mesher: one quad for every face that a voxel of the lowest
//! section of a chunk shows, without merging.

use crate::block::Block;
use crate::chunk::{chunk_get, Chunk, CHUNK_SIZE};
use crate::chunk_mesh::{quad_index, quad_indices, ChunkSectionMesh};
use crate::math::IVec3;
use vstd::prelude::*;

verus! {

/// One face of one voxel: the voxel's position and the number of the face,
/// 0 for the top, 1 for the bottom, 2 for the left (−x), 3 for the right
/// (+x), 4 for the front (+z) and 5 for the back (−z).
pub struct VoxelFace {
    pub coords: IVec3,
    pub face: int,
}

/// The step from a voxel to the voxel that touches the face.
pub open spec fn face_step(face: int) -> (int, int, int) {
    if face == 0 {
        (0, 1, 0)
    } else if face == 1 {
        (0, -1, 0)
    } else if face == 2 {
        (-1, 0, 0)
    } else if face == 3 {
        (1, 0, 0)
    } else if face == 4 {
        (0, 0, 1)
    } else {
        (0, 0, -1)
    }
}

/// The unit vector that points out of the face.
pub open spec fn face_normal(face: int) -> IVec3 {
    let (x, y, z) = face_step(face);
    IVec3 { x: x as i32, y: y as i32, z: z as i32 }
}

/// The four corners of a face of the voxel at `coords`, in the order in
/// which they go round the face counter-clockwise seen from outside.
pub open spec fn face_corners(coords: IVec3, face: int) -> Seq<IVec3> {
    let x0 = coords.x;
    let y0 = coords.y;
    let z0 = coords.z;
    let x1 = (coords.x + 1) as i32;
    let y1 = (coords.y + 1) as i32;
    let z1 = (coords.z + 1) as i32;
    if face == 0 {
        seq![
            IVec3 { x: x0, y: y1, z: z0 },
            IVec3 { x: x0, y: y1, z: z1 },
            IVec3 { x: x1, y: y1, z: z1 },
            IVec3 { x: x1, y: y1, z: z0 },
        ]
    } else if face == 1 {
        seq![
            IVec3 { x: x0, y: y0, z: z0 },
            IVec3 { x: x1, y: y0, z: z0 },
            IVec3 { x: x1, y: y0, z: z1 },
            IVec3 { x: x0, y: y0, z: z1 },
        ]
    } else if face == 2 {
        seq![
            IVec3 { x: x0, y: y0, z: z0 },
            IVec3 { x: x0, y: y0, z: z1 },
            IVec3 { x: x0, y: y1, z: z1 },
            IVec3 { x: x0, y: y1, z: z0 },
        ]
    } else if face == 3 {
        seq![
            IVec3 { x: x1, y: y0, z: z1 },
            IVec3 { x: x1, y: y0, z: z0 },
            IVec3 { x: x1, y: y1, z: z0 },
            IVec3 { x: x1, y: y1, z: z1 },
        ]
    } else if face == 4 {
        seq![
            IVec3 { x: x0, y: y0, z: z1 },
            IVec3 { x: x1, y: y0, z: z1 },
            IVec3 { x: x1, y: y1, z: z1 },
            IVec3 { x: x0, y: y1, z: z1 },
        ]
    } else {
        seq![
            IVec3 { x: x1, y: y0, z: z0 },
            IVec3 { x: x0, y: y0, z: z0 },
            IVec3 { x: x0, y: y1, z: z0 },
            IVec3 { x: x1, y: y1, z: z0 },
        ]
    }
}

/// The corners of a list of faces, four for each.
pub open spec fn faces_vertices(faces: Seq<VoxelFace>) -> Seq<IVec3>
    decreases faces.len(),
{
    if faces.len() == 0 {
        Seq::empty()
    } else {
        faces_vertices(faces.drop_last()) + face_corners(faces.last().coords, faces.last().face)
    }
}

/// The normals of a list of faces, four for each.
pub open spec fn faces_normals(faces: Seq<VoxelFace>) -> Seq<IVec3>
    decreases faces.len(),
{
    if faces.len() == 0 {
        Seq::empty()
    } else {
        faces_normals(faces.drop_last()) + Seq::new(4, |i: int| face_normal(faces.last().face))
    }
}

/// Whether the voxel at `(x, y, z)` of a chunk shows a face: the voxel is
/// not air and the block that touches the face is.
pub open spec fn shows_face(sections: Seq<Seq<Block>>, x: int, y: int, z: int, face: int) -> bool {
    let (dx, dy, dz) = face_step(face);
    chunk_get(sections, x, y, z) != Block(0) && chunk_get(sections, x + dx, y + dy, z + dz)
        == Block(0)
}

/// The faces with a number below `n` that the voxel at `(x, y, z)` shows.
pub open spec fn voxel_faces(sections: Seq<Seq<Block>>, x: int, y: int, z: int, n: int) -> Seq<
    VoxelFace,
>
    decreases n,
{
    if n <= 0 {
        Seq::empty()
    } else if shows_face(sections, x, y, z, n - 1) {
        voxel_faces(sections, x, y, z, n - 1).push(
            VoxelFace { coords: IVec3 { x: x as i32, y: y as i32, z: z as i32 }, face: n - 1 },
        )
    } else {
        voxel_faces(sections, x, y, z, n - 1)
    }
}

/// The faces that the voxels at `(x, y, 0)` to `(x, y, n - 1)` show.
pub open spec fn column_faces(sections: Seq<Seq<Block>>, x: int, y: int, n: int) -> Seq<VoxelFace>
    decreases n,
{
    if n <= 0 {
        Seq::empty()
    } else {
        column_faces(sections, x, y, n - 1) + voxel_faces(sections, x, y, n - 1, 6)
    }
}

/// The faces that the voxels with the given `x` and a `y` below `n` show,
/// column by column.
pub open spec fn slab_faces(sections: Seq<Seq<Block>>, x: int, n: int) -> Seq<VoxelFace>
    decreases n,
{
    if n <= 0 {
        Seq::empty()
    } else {
        slab_faces(sections, x, n - 1) + column_faces(sections, x, n - 1, 16)
    }
}

/// The faces that the voxels of the lowest 16×16×16 cube of a chunk with
/// an `x` below `n` show, slab by slab: the voxels come by x, then y, then
/// z.
pub open spec fn chunk_faces(sections: Seq<Seq<Block>>, n: int) -> Seq<VoxelFace>
    decreases n,
{
    if n <= 0 {
        Seq::empty()
    } else {
        chunk_faces(sections, n - 1) + slab_faces(sections, n - 1, 16)
    }
}

/// The plain mesher.
pub struct ChunkRenderPlugin;

impl ChunkRenderPlugin {
    /// Appends one face of the voxel at `coords` to a mesh: four corners,
    /// the face's normal four times, and the indices of two triangles.
    pub fn add_face(
        coords: IVec3,
        face: i32,
        vertices: &mut Vec<IVec3>,
        normals: &mut Vec<IVec3>,
        indices: &mut Vec<u32>,
    )
        requires
            0 <= face < 6,
            coords.x < i32::MAX,
            coords.y < i32::MAX,
            coords.z < i32::MAX,
            old(vertices)@.len() + 4 <= u32::MAX,
        ensures
            final(vertices)@ == old(vertices)@ + face_corners(coords, face as int),
            final(normals)@ == old(normals)@ + Seq::new(4, |i: int| face_normal(face as int)),
            final(indices)@ == old(indices)@ + Seq::new(
                6,
                |i: int| (old(vertices)@.len() + quad_index(i)) as u32,
            ),
    {
        let base = vertices.len() as u32;
        let x = coords.x;
        let y = coords.y;
        let z = coords.z;
        let n: IVec3;
        if face == 0 {
            // Top
            vertices.push(IVec3::new(x, y + 1, z));
            vertices.push(IVec3::new(x, y + 1, z + 1));
            vertices.push(IVec3::new(x + 1, y + 1, z + 1));
            vertices.push(IVec3::new(x + 1, y + 1, z));
            n = IVec3::new(0, 1, 0);
        } else if face == 1 {
            // Bottom
            vertices.push(IVec3::new(x, y, z));
            vertices.push(IVec3::new(x + 1, y, z));
            vertices.push(IVec3::new(x + 1, y, z + 1));
            vertices.push(IVec3::new(x, y, z + 1));
            n = IVec3::new(0, -1, 0);
        } else if face == 2 {
            // Left
            vertices.push(IVec3::new(x, y, z));
            vertices.push(IVec3::new(x, y, z + 1));
            vertices.push(IVec3::new(x, y + 1, z + 1));
            vertices.push(IVec3::new(x, y + 1, z));
            n = IVec3::new(-1, 0, 0);
        } else if face == 3 {
            // Right
            vertices.push(IVec3::new(x + 1, y, z + 1));
            vertices.push(IVec3::new(x + 1, y, z));
            vertices.push(IVec3::new(x + 1, y + 1, z));
            vertices.push(IVec3::new(x + 1, y + 1, z + 1));
            n = IVec3::new(1, 0, 0);
        } else if face == 4 {
            // Front
            vertices.push(IVec3::new(x, y, z + 1));
            vertices.push(IVec3::new(x + 1, y, z + 1));
            vertices.push(IVec3::new(x + 1, y + 1, z + 1));
            vertices.push(IVec3::new(x, y + 1, z + 1));
            n = IVec3::new(0, 0, 1);
        } else {
            // Back
            vertices.push(IVec3::new(x + 1, y, z));
            vertices.push(IVec3::new(x, y, z));
            vertices.push(IVec3::new(x, y + 1, z));
            vertices.push(IVec3::new(x + 1, y + 1, z));
            n = IVec3::new(0, 0, -1);
        }
        normals.push(n);
        normals.push(n);
        normals.push(n);
        normals.push(n);
        indices.push(base);
        indices.push(base + 1);
        indices.push(base + 2);
        indices.push(base);
        indices.push(base + 2);
        indices.push(base + 3);
        assert(vertices@ =~= old(vertices)@ + face_corners(coords, face as int));
        assert(normals@ =~= old(normals)@ + Seq::new(4, |i: int| face_normal(face as int)));
        assert(indices@ =~= old(indices)@ + Seq::new(
            6,
            |i: int| (old(vertices)@.len() + quad_index(i)) as u32,
        ));
    }

    /// Appends the faces that the voxel at `(x, y, z)` shows.
    fn add_voxel(
        chunk: &Chunk,
        x: i32,
        y: i32,
        z: i32,
        vertices: &mut Vec<IVec3>,
        normals: &mut Vec<IVec3>,
        indices: &mut Vec<u32>,
        Ghost(count): Ghost<int>,
    )
        requires
            0 <= x < 16,
            0 <= y < 16,
            0 <= z < 16,
            0 <= count,
            old(vertices)@.len() == 4 * count,
            4 * count + 24 <= u32::MAX,
            old(indices)@ == quad_indices(count),
        ensures
            final(vertices)@ == old(vertices)@ + faces_vertices(
                voxel_faces(chunk@, x as int, y as int, z as int, 6),
            ),
            final(normals)@ == old(normals)@ + faces_normals(
                voxel_faces(chunk@, x as int, y as int, z as int, 6),
            ),
            final(indices)@ == quad_indices(
                count + voxel_faces(chunk@, x as int, y as int, z as int, 6).len(),
            ),
            voxel_faces(chunk@, x as int, y as int, z as int, 6).len() <= 6,
    {
        let block = chunk.get_by_xyz(x, y, z);
        let ghost none = Seq::<VoxelFace>::empty();
        proof {
            assert(voxel_faces(chunk@, x as int, y as int, z as int, 0) =~= none);
            assert(vertices@ =~= old(vertices)@ + faces_vertices(none));
            assert(normals@ =~= old(normals)@ + faces_normals(none));
        }
        if block.0 == 0 {
            // 0 = air
            proof {
                reveal_with_fuel(voxel_faces, 7);
                assert(voxel_faces(chunk@, x as int, y as int, z as int, 6) =~= none);
            }
            return ;
        }
        let neighbors = [
            chunk.get_by_xyz(x, y + 1, z),
            chunk.get_by_xyz(x, y - 1, z),
            chunk.get_by_xyz(x - 1, y, z),
            chunk.get_by_xyz(x + 1, y, z),
            chunk.get_by_xyz(x, y, z + 1),
            chunk.get_by_xyz(x, y, z - 1),
        ];
        let mut face: usize = 0;
        while face < 6
            invariant
                0 <= x < 16,
                0 <= y < 16,
                0 <= z < 16,
                face <= 6,
                0 <= count,
                4 * count + 24 <= u32::MAX,
                chunk_get(chunk@, x as int, y as int, z as int) != Block(0),
                forall|f: int|
                    0 <= f < 6 ==> (#[trigger] neighbors@[f] == Block(0)) == shows_face(
                        chunk@,
                        x as int,
                        y as int,
                        z as int,
                        f,
                    ),
                old(vertices)@.len() == 4 * count,
                voxel_faces(chunk@, x as int, y as int, z as int, face as int).len() <= face,
                vertices@ == old(vertices)@ + faces_vertices(
                    voxel_faces(chunk@, x as int, y as int, z as int, face as int),
                ),
                normals@ == old(normals)@ + faces_normals(
                    voxel_faces(chunk@, x as int, y as int, z as int, face as int),
                ),
                vertices@.len() == 4 * (count + voxel_faces(
                    chunk@,
                    x as int,
                    y as int,
                    z as int,
                    face as int,
                ).len()),
                indices@ == quad_indices(
                    count + voxel_faces(chunk@, x as int, y as int, z as int, face as int).len(),
                ),
            decreases 6 - face,
        {
            let ghost faces = voxel_faces(chunk@, x as int, y as int, z as int, face as int);
            let ghost more = voxel_faces(chunk@, x as int, y as int, z as int, face + 1);
            if neighbors[face].0 == 0 {
                let ghost quads = count + faces.len();
                Self::add_face(IVec3::new(x, y, z), face as i32, vertices, normals, indices);
                proof {
                    assert(more.drop_last() =~= faces);
                    assert(vertices@ =~= old(vertices)@ + faces_vertices(more));
                    assert(normals@ =~= old(normals)@ + faces_normals(more));
                    assert(indices@ =~= quad_indices(quads + 1)) by {
                        assert forall|i: int| 0 <= i < 6 * (quads + 1) implies indices@[i]
                            == quad_index(i) as u32 by {
                            if i >= 6 * quads {
                                assert(i / 6 == quads);
                                assert(quad_index(i) == 4 * quads + quad_index(i - 6 * quads));
                            }
                        }
                    }
                }
            } else {
                assert(more == faces);
            }
            face += 1;
        }
    }

    /// Appends the faces that the voxels at `(x, y, 0)` to `(x, y, 15)`
    /// show.
    fn add_column(
        chunk: &Chunk,
        x: i32,
        y: i32,
        vertices: &mut Vec<IVec3>,
        normals: &mut Vec<IVec3>,
        indices: &mut Vec<u32>,
        Ghost(count): Ghost<int>,
    )
        requires
            0 <= x < 16,
            0 <= y < 16,
            0 <= count,
            old(vertices)@.len() == 4 * count,
            4 * count + 384 <= u32::MAX,
            old(indices)@ == quad_indices(count),
        ensures
            final(vertices)@ == old(vertices)@ + faces_vertices(
                column_faces(chunk@, x as int, y as int, 16),
            ),
            final(normals)@ == old(normals)@ + faces_normals(
                column_faces(chunk@, x as int, y as int, 16),
            ),
            final(indices)@ == quad_indices(
                count + column_faces(chunk@, x as int, y as int, 16).len(),
            ),
            column_faces(chunk@, x as int, y as int, 16).len() <= 96,
    {
        let mut z: i32 = 0;
        proof {
            lemma_faces_concat(column_faces(chunk@, x as int, y as int, 0), Seq::empty());
            assert(vertices@ =~= old(vertices)@ + faces_vertices(
                column_faces(chunk@, x as int, y as int, 0),
            ));
            assert(normals@ =~= old(normals)@ + faces_normals(
                column_faces(chunk@, x as int, y as int, 0),
            ));
        }
        while z < CHUNK_SIZE
            invariant
                0 <= x < 16,
                0 <= y < 16,
                0 <= z <= 16,
                0 <= count,
                old(vertices)@.len() == 4 * count,
                4 * count + 384 <= u32::MAX,
                column_faces(chunk@, x as int, y as int, z as int).len() <= 6 * z,
                vertices@ == old(vertices)@ + faces_vertices(
                    column_faces(chunk@, x as int, y as int, z as int),
                ),
                normals@ == old(normals)@ + faces_normals(
                    column_faces(chunk@, x as int, y as int, z as int),
                ),
                indices@ == quad_indices(
                    count + column_faces(chunk@, x as int, y as int, z as int).len(),
                ),
            decreases 16 - z,
        {
            let ghost before = column_faces(chunk@, x as int, y as int, z as int);
            let ghost here = voxel_faces(chunk@, x as int, y as int, z as int, 6);
            proof {
                lemma_faces_concat(before, here);
            }
            Self::add_voxel(
                chunk,
                x,
                y,
                z,
                vertices,
                normals,
                indices,
                Ghost(count + before.len()),
            );
            z += 1;
            proof {
                assert(column_faces(chunk@, x as int, y as int, z as int) == before + here);
                assert(vertices@ =~= old(vertices)@ + faces_vertices(before + here));
                assert(normals@ =~= old(normals)@ + faces_normals(before + here));
            }
        }
    }

    /// Appends the faces that the voxels with the given `x` show.
    fn add_slab(
        chunk: &Chunk,
        x: i32,
        vertices: &mut Vec<IVec3>,
        normals: &mut Vec<IVec3>,
        indices: &mut Vec<u32>,
        Ghost(count): Ghost<int>,
    )
        requires
            0 <= x < 16,
            0 <= count,
            old(vertices)@.len() == 4 * count,
            4 * count + 6144 <= u32::MAX,
            old(indices)@ == quad_indices(count),
        ensures
            final(vertices)@ == old(vertices)@ + faces_vertices(slab_faces(chunk@, x as int, 16)),
            final(normals)@ == old(normals)@ + faces_normals(slab_faces(chunk@, x as int, 16)),
            final(indices)@ == quad_indices(count + slab_faces(chunk@, x as int, 16).len()),
            slab_faces(chunk@, x as int, 16).len() <= 1536,
    {
        let mut y: i32 = 0;
        proof {
            lemma_faces_concat(slab_faces(chunk@, x as int, 0), Seq::empty());
            assert(vertices@ =~= old(vertices)@ + faces_vertices(slab_faces(chunk@, x as int, 0)));
            assert(normals@ =~= old(normals)@ + faces_normals(slab_faces(chunk@, x as int, 0)));
        }
        while y < CHUNK_SIZE
            invariant
                0 <= x < 16,
                0 <= y <= 16,
                0 <= count,
                old(vertices)@.len() == 4 * count,
                4 * count + 6144 <= u32::MAX,
                slab_faces(chunk@, x as int, y as int).len() <= 96 * y,
                vertices@ == old(vertices)@ + faces_vertices(
                    slab_faces(chunk@, x as int, y as int),
                ),
                normals@ == old(normals)@ + faces_normals(slab_faces(chunk@, x as int, y as int)),
                indices@ == quad_indices(count + slab_faces(chunk@, x as int, y as int).len()),
            decreases 16 - y,
        {
            let ghost before = slab_faces(chunk@, x as int, y as int);
            let ghost here = column_faces(chunk@, x as int, y as int, 16);
            proof {
                lemma_faces_concat(before, here);
            }
            Self::add_column(chunk, x, y, vertices, normals, indices, Ghost(count + before.len()));
            y += 1;
            proof {
                assert(slab_faces(chunk@, x as int, y as int) == before + here);
                assert(vertices@ =~= old(vertices)@ + faces_vertices(before + here));
                assert(normals@ =~= old(normals)@ + faces_normals(before + here));
            }
        }
    }

    /// The mesh of the lowest 16×16×16 cube of a chunk: for each voxel, by
    /// x, then y, then z, one quad for each face that it shows, in the
    /// order top, bottom, left, right, front, back. What lies beside the
    /// chunk counts as air; what lies in the chunk's section above does
    /// not.
    pub fn generate_chunk_mesh(chunk: &Chunk) -> (mesh: ChunkSectionMesh)
        ensures
            mesh.vertices@ == faces_vertices(chunk_faces(chunk@, 16)),
            mesh.normals@ == faces_normals(chunk_faces(chunk@, 16)),
            mesh.indices@ == quad_indices(chunk_faces(chunk@, 16).len() as int),
            mesh.wf(),
    {
        let mut vertices: Vec<IVec3> = Vec::new();
        let mut normals: Vec<IVec3> = Vec::new();
        let mut indices: Vec<u32> = Vec::new();
        proof {
            lemma_faces_concat(chunk_faces(chunk@, 0), Seq::empty());
            assert(indices@ =~= quad_indices(0));
        }
        let mut x: i32 = 0;
        while x < CHUNK_SIZE
            invariant
                0 <= x <= 16,
                chunk_faces(chunk@, x as int).len() <= 1536 * x,
                vertices@ == faces_vertices(chunk_faces(chunk@, x as int)),
                normals@ == faces_normals(chunk_faces(chunk@, x as int)),
                indices@ == quad_indices(chunk_faces(chunk@, x as int).len() as int),
            decreases 16 - x,
        {
            let ghost before = chunk_faces(chunk@, x as int);
            let ghost here = slab_faces(chunk@, x as int, 16);
            proof {
                lemma_faces_concat(before, here);
                lemma_faces_concat(before, Seq::empty());
            }
            Self::add_slab(
                chunk,
                x,
                &mut vertices,
                &mut normals,
                &mut indices,
                Ghost(before.len() as int),
            );
            x += 1;
            proof {
                assert(chunk_faces(chunk@, x as int) == before + here);
            }
        }
        proof {
            let faces = chunk_faces(chunk@, 16);
            lemma_faces_concat(faces, Seq::empty());
            assert forall|i: int| 0 <= i < indices@.len() implies indices@[i] < vertices@.len() by {
                assert(i / 6 < faces.len());
            }
        }
        ChunkSectionMesh::new(vertices, normals, indices)
    }
}

/// The corners and normals of two lists of faces, one after the other, are
/// those of the first followed by those of the second; there are four of
/// each for every face.
pub proof fn lemma_faces_concat(a: Seq<VoxelFace>, b: Seq<VoxelFace>)
    ensures
        faces_vertices(a + b) == faces_vertices(a) + faces_vertices(b),
        faces_normals(a + b) == faces_normals(a) + faces_normals(b),
        faces_vertices(a).len() == 4 * a.len(),
        faces_normals(a).len() == 4 * a.len(),
    decreases b.len(), a.len(),
{
    if a.len() > 0 {
        lemma_faces_concat(a.drop_last(), Seq::empty());
    }
    if b.len() == 0 {
        assert(a + b =~= a);
        assert(faces_vertices(a) + faces_vertices(b) =~= faces_vertices(a));
        assert(faces_normals(a) + faces_normals(b) =~= faces_normals(a));
    } else {
        lemma_faces_concat(a, b.drop_last());
        assert((a + b).drop_last() =~= a + b.drop_last());
        assert((a + b).last() == b.last());
        assert(faces_vertices(a + b) =~= faces_vertices(a) + faces_vertices(b));
        assert(faces_normals(a + b) =~= faces_normals(a) + faces_normals(b));
    }
}

} // verus!
