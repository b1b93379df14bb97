//! The binary greedy mesher: from a section and the six sections around it
//! to the rectangles of visible faces, and from those to a mesh.
//!
//! The solidity of the section and of one layer of cells around it is
//! written into columns of bits ([`lattice`]). Bit operations on the
//! columns find the faces between a solid cell and a cell that is not.
//! The faces are regrouped by direction, plane and block, and each such
//! plane is merged into rectangles ([`plane`]). [`surface`] says which
//! quads come out and in what order.

pub mod cover;
pub mod lattice;
pub mod plane;
pub mod surface;

use crate::bits::{
    bit16, lemma_and_or16, lemma_ext16, lemma_one_shl16, lemma_row_with_bits, lemma_zero16,
};
use crate::block::Block;
use crate::chunk::{in_section, section_is_empty, ChunkSection};
use crate::chunk_mesh::{quad_index, quad_indices, ChunkSectionMesh};
use crate::greedy_mesher::lattice::{plane_cell_in_range, visible_bit, visible_faces};
pub use crate::greedy_mesher::plane::greedy_mesh_binary_plane;
use crate::greedy_mesher::surface::{
    cell_block, cell_visible, face_direction, face_plane, faces_quads, is_enclosed, kind_quads,
    kinds_quads, lemma_absent_kinds, lemma_air_shows_no_face, lemma_enclosed_section_has_no_quads,
    lemma_quads_concat, placed, plane_cell, plane_voxel, planes_quads, quads_normals,
    quads_vertices, section_quads, PlacedQuad,
};
use crate::math::IVec3;
use crate::quad::{Direction, GreedyQuad};
use crate::section_neighbors::{NeighborsView, SectionNeighbors};
use vstd::prelude::*;

verus! {

/// The position in the centre section of the voxel at row `r`, column `c`
/// of plane `k` of a face.
fn voxel_on_plane(face: usize, k: usize, r: usize, c: usize) -> (pos: (i32, i32, i32))
    requires
        face < 6,
        k < 16,
        r < 16,
        c < 16,
    ensures
        (pos.0 as int, pos.1 as int, pos.2 as int) == plane_voxel(
            face as int,
            k as int,
            r as int,
            c as int,
        ),
        in_section(pos.0 as int, pos.1 as int, pos.2 as int),
{
    match face {
        0 | 1 => (r as i32, k as i32, c as i32),  // down | up
        2 | 3 => (k as i32, c as i32, r as i32),  // left | right
        _ => (r as i32, c as i32, k as i32),  // forward | back
    }
}

/// Whether some voxel of plane `k` of a face is the block with the number
/// `kind` and has its bit set in the rows of visible faces.
pub open spec fn kind_on_plane(center: Seq<Block>, vis: Seq<u16>, face: int, k: int, kind: int) -> bool {
    exists|r: int, c: int|
        0 <= r < 16 && 0 <= c < 16 && #[trigger] visible_bit(vis, face, k, r, c) && cell_block(
            center,
            face,
            k,
            r,
            c,
        ).0 == kind
}

/// The least block number above `last` among the voxels that show a face
/// on plane `k` of `face`, if there is one.
fn next_kind(center: &ChunkSection, vis: &Vec<u16>, face: usize, k: usize, last: u16) -> (next:
    Option<u16>)
    requires
        vis@.len() == 1536,
        face < 6,
        k < 16,
    ensures
        match next {
            Some(kind) => {
                &&& last < kind
                &&& kind_on_plane(center@, vis@, face as int, k as int, kind as int)
                &&& forall|b: int|
                    last < b < kind ==> !kind_on_plane(center@, vis@, face as int, k as int, b)
            },
            None => forall|b: int|
                last < b ==> !kind_on_plane(center@, vis@, face as int, k as int, b),
        },
{
    let mut best: Option<u16> = None;
    let ghost mut wr: int = 0;
    let ghost mut wc: int = 0;
    let mut r: usize = 0;
    while r < 16
        invariant
            r <= 16,
            vis@.len() == 1536,
            face < 6,
            k < 16,
            best matches Some(m) ==> last < m && 0 <= wr < 16 && 0 <= wc < 16 && visible_bit(
                vis@,
                face as int,
                k as int,
                wr,
                wc,
            ) && cell_block(center@, face as int, k as int, wr, wc).0 == m,
            forall|r2: int, c2: int|
                0 <= r2 < r && 0 <= c2 < 16 && #[trigger] visible_bit(
                    vis@,
                    face as int,
                    k as int,
                    r2,
                    c2,
                ) && cell_block(center@, face as int, k as int, r2, c2).0 > last ==> (
                best matches Some(m) && m <= cell_block(center@, face as int, k as int, r2, c2).0),
        decreases 16 - r,
    {
        let row: u16 = vis[(16 * face + k) * 16 + r];
        let mut c: usize = 0;
        while c < 16
            invariant
                r < 16,
                c <= 16,
                vis@.len() == 1536,
                face < 6,
                k < 16,
                row == vis@[(16 * face + k) * 16 + r],
                best matches Some(m) ==> last < m && 0 <= wr < 16 && 0 <= wc < 16 && visible_bit(
                    vis@,
                    face as int,
                    k as int,
                    wr,
                    wc,
                ) && cell_block(center@, face as int, k as int, wr, wc).0 == m,
                forall|r2: int, c2: int|
                    0 <= r2 <= r && 0 <= c2 < 16 && (r2 < r || c2 < c) && #[trigger] visible_bit(
                        vis@,
                        face as int,
                        k as int,
                        r2,
                        c2,
                    ) && cell_block(center@, face as int, k as int, r2, c2).0 > last ==> (
                    best matches Some(m) && m <= cell_block(
                        center@,
                        face as int,
                        k as int,
                        r2,
                        c2,
                    ).0),
            decreases 16 - c,
        {
            if (row >> (c as u16)) & 1 == 1 {
                let (x, y, z) = voxel_on_plane(face, k, r, c);
                let block = center.get_by_xyz(x, y, z);
                let lower = match best {
                    Some(m) => block.0 < m,
                    None => true,
                };
                if block.0 > last && lower {
                    best = Some(block.0);
                    proof {
                        wr = r as int;
                        wc = c as int;
                    }
                }
            }
            c += 1;
        }
        r += 1;
    }
    proof {
        match best {
            Some(m) => {
                assert forall|b: int| last < b < m implies !kind_on_plane(
                    center@,
                    vis@,
                    face as int,
                    k as int,
                    b,
                ) by {
                    if kind_on_plane(center@, vis@, face as int, k as int, b) {
                        let (r2, c2) = choose|r2: int, c2: int|
                            0 <= r2 < 16 && 0 <= c2 < 16 && #[trigger] visible_bit(
                                vis@,
                                face as int,
                                k as int,
                                r2,
                                c2,
                            ) && cell_block(center@, face as int, k as int, r2, c2).0 == b;
                        assert(false);
                    }
                }
            },
            None => {
                assert forall|b: int| last < b implies !kind_on_plane(
                    center@,
                    vis@,
                    face as int,
                    k as int,
                    b,
                ) by {
                    if kind_on_plane(center@, vis@, face as int, k as int, b) {
                        let (r2, c2) = choose|r2: int, c2: int|
                            0 <= r2 < 16 && 0 <= c2 < 16 && #[trigger] visible_bit(
                                vis@,
                                face as int,
                                k as int,
                                r2,
                                c2,
                            ) && cell_block(center@, face as int, k as int, r2, c2).0 == b;
                        assert(false);
                    }
                }
            },
        }
    }
    best
}

/// The plane of the voxels of block `kind` among those that show a face on
/// plane `k` of `face`.
fn kind_plane(center: &ChunkSection, vis: &Vec<u16>, face: usize, k: usize, kind: u16) -> (plane: [u16; 16])
    requires
        vis@.len() == 1536,
        face < 6,
        k < 16,
    ensures
        forall|r: int, c: int|
            0 <= r < 16 && 0 <= c < 16 ==> #[trigger] bit16(plane@[r], c) == (visible_bit(
                vis@,
                face as int,
                k as int,
                r,
                c,
            ) && cell_block(center@, face as int, k as int, r, c) == Block(kind)),
{
    let mut plane: [u16; 16] = [0u16; 16];
    let mut r: usize = 0;
    while r < 16
        invariant
            r <= 16,
            vis@.len() == 1536,
            face < 6,
            k < 16,
            forall|r2: int, c: int|
                0 <= r2 < r && 0 <= c < 16 ==> #[trigger] bit16(plane@[r2], c) == (visible_bit(
                    vis@,
                    face as int,
                    k as int,
                    r2,
                    c,
                ) && cell_block(center@, face as int, k as int, r2, c) == Block(kind)),
        decreases 16 - r,
    {
        let row: u16 = vis[(16 * face + k) * 16 + r];
        let mut bits: u16 = 0;
        let mut c: usize = 0;
        proof {
            assert forall|j: int| !bit16(0u16, j) by {
                lemma_zero16(j);
            }
        }
        while c < 16
            invariant
                r < 16,
                c <= 16,
                vis@.len() == 1536,
                face < 6,
                k < 16,
                row == vis@[(16 * face + k) * 16 + r],
                forall|j: int|
                    bit16(bits, j) == (0 <= j < c && visible_bit(
                        vis@,
                        face as int,
                        k as int,
                        r as int,
                        j,
                    ) && cell_block(center@, face as int, k as int, r as int, j) == Block(kind)),
            decreases 16 - c,
        {
            let ghost bits_before = bits;
            if (row >> (c as u16)) & 1 == 1 {
                let (x, y, z) = voxel_on_plane(face, k, r, c);
                let block = center.get_by_xyz(x, y, z);
                assert(block == cell_block(center@, face as int, k as int, r as int, c as int));
                if block.0 == kind {
                    proof {
                        assert forall|j: int|
                            bit16(bits | (1u16 << (c as u16)), j) == (bit16(bits, j) || j == c) by {
                            lemma_and_or16(bits, 1u16 << (c as u16), j);
                            lemma_one_shl16(c as int, j);
                        }
                    }
                    bits = bits | (1u16 << (c as u16));
                }
            }
            assert forall|j: int|
                bit16(bits, j) == (0 <= j < c + 1 && visible_bit(
                    vis@,
                    face as int,
                    k as int,
                    r as int,
                    j,
                ) && cell_block(center@, face as int, k as int, r as int, j) == Block(kind)) by {
                if j == c {
                    assert(visible_bit(vis@, face as int, k as int, r as int, c as int) == ((row >> (
                    c as u16)) & 1 == 1));
                    assert(!bit16(bits_before, j));
                    if bits == bits_before {
                        assert(!bit16(bits, j));
                    } else {
                        assert(bit16(bits, j));
                        assert(cell_block(center@, face as int, k as int, r as int, j) == Block(kind));
                    }
                } else {
                    assert(bit16(bits, j) == bit16(bits_before, j));
                }
            }
            c += 1;
        }
        plane[r] = bits;
        r += 1;
    }
    plane
}

/// The direction of a face.
fn direction_of_face(face: usize) -> (dir: Direction)
    ensures
        dir == face_direction(face as int),
{
    match face {
        0 => Direction::Down,
        1 => Direction::Up,
        2 => Direction::Left,
        3 => Direction::Right,
        4 => Direction::Forward,
        _ => Direction::Back,
    }
}

/// Appends the corners and normals of the quads of one plane.
fn append_quads(
    quads: &Vec<GreedyQuad>,
    face_dir: Direction,
    axis_pos: i32,
    vertices: &mut Vec<IVec3>,
    normals: &mut Vec<IVec3>,
)
    requires
        0 <= axis_pos < 16,
        forall|i: int| 0 <= i < quads@.len() ==> (#[trigger] quads@[i]).on_plane(),
    ensures
        final(vertices)@ == old(vertices)@ + quads_vertices(placed(quads@, face_dir, axis_pos)),
        final(normals)@ == old(normals)@ + quads_normals(placed(quads@, face_dir, axis_pos)),
{
    let mut i: usize = 0;
    assert(placed(quads@.take(0), face_dir, axis_pos) =~= Seq::<PlacedQuad>::empty());
    assert(vertices@ =~= old(vertices)@ + quads_vertices(Seq::<PlacedQuad>::empty()));
    assert(normals@ =~= old(normals)@ + quads_normals(Seq::<PlacedQuad>::empty()));
    while i < quads.len()
        invariant
            i <= quads@.len(),
            0 <= axis_pos < 16,
            forall|i: int| 0 <= i < quads@.len() ==> (#[trigger] quads@[i]).on_plane(),
            vertices@ == old(vertices)@ + quads_vertices(
                placed(quads@.take(i as int), face_dir, axis_pos),
            ),
            normals@ == old(normals)@ + quads_normals(
                placed(quads@.take(i as int), face_dir, axis_pos),
            ),
        decreases quads@.len() - i,
    {
        let q = quads[i];
        assert(q.on_plane());
        q.append_vertices(vertices, normals, face_dir, axis_pos);
        proof {
            let done = placed(quads@.take(i as int), face_dir, axis_pos);
            let more = placed(quads@.take(i + 1), face_dir, axis_pos);
            assert(more.drop_last() =~= done);
            assert(more.last() == PlacedQuad { dir: face_dir, offset: axis_pos, quad: q });
            assert(vertices@ =~= old(vertices)@ + quads_vertices(more));
            assert(normals@ =~= old(normals)@ + quads_normals(more));
        }
        i += 1;
    }
    assert(quads@.take(quads@.len() as int) =~= quads@);
}


/// Appends the quads of the faces of one direction on one plane: for each
/// block that shows such a face there, by rising number, the quads that
/// greedy meshing makes of its faces.
fn mesh_plane(
    sections: &SectionNeighbors,
    vis: &Vec<u16>,
    face: usize,
    k: usize,
    vertices: &mut Vec<IVec3>,
    normals: &mut Vec<IVec3>,
)
    requires
        vis@.len() == 1536,
        face < 6,
        k < 16,
        forall|r: int, c: int|
            0 <= r < 16 && 0 <= c < 16 ==> #[trigger] visible_bit(
                vis@,
                face as int,
                k as int,
                r,
                c,
            ) == cell_visible(sections@, face as int, k as int, r, c),
    ensures
        final(vertices)@ == old(vertices)@ + quads_vertices(
            kinds_quads(sections@, face as int, k as int, 65536),
        ),
        final(normals)@ == old(normals)@ + quads_normals(
            kinds_quads(sections@, face as int, k as int, 65536),
        ),
        kinds_quads(sections@, face as int, k as int, 65536).len() <= 8388608,
{
    let ghost nb = sections@;
    let ghost f = face as int;
    let ghost p = k as int;
    let face_dir = direction_of_face(face);
    let mut last: u16 = 0;
    let mut done = false;
    proof {
        // air shows no face
        assert forall|b: int, r: int, c: int|
            0 <= b < 1 && 0 <= r < 16 && 0 <= c < 16 implies !#[trigger] plane_cell(
            nb,
            f,
            p,
            Block(b as u16),
            r,
            c,
        ) by {}
        lemma_absent_kinds(nb, f, p, 0, 1);
        assert(kinds_quads(nb, f, p, 0) =~= Seq::<PlacedQuad>::empty());
        assert(vertices@ =~= old(vertices)@ + quads_vertices(kinds_quads(nb, f, p, 1)));
        assert(normals@ =~= old(normals)@ + quads_normals(kinds_quads(nb, f, p, 1)));
    }
    while !done
        invariant
            vis@.len() == 1536,
            face < 6,
            k < 16,
            nb == sections@,
            f == face as int,
            p == k as int,
            face_dir == face_direction(f),
            forall|r: int, c: int|
                0 <= r < 16 && 0 <= c < 16 ==> #[trigger] visible_bit(vis@, f, p, r, c)
                    == cell_visible(nb, f, p, r, c),
            vertices@ == old(vertices)@ + quads_vertices(kinds_quads(nb, f, p, last + 1)),
            normals@ == old(normals)@ + quads_normals(kinds_quads(nb, f, p, last + 1)),
            kinds_quads(nb, f, p, last + 1).len() <= 128 * (last + 1),
            done ==> forall|b: int| last < b ==> !kind_on_plane(nb.center, vis@, f, p, b),
        decreases
                (if done {
                    0int
                } else {
                    1int
                }) + (65535 - last),
    {
        match next_kind(&sections.center, vis, face, k, last) {
            None => {
                done = true;
            },
            Some(kind) => {
                let plane = kind_plane(&sections.center, vis, face, k, kind);
                let quads = greedy_mesh_binary_plane(plane);
                let ghost before = kinds_quads(nb, f, p, last + 1);
                proof {
                    lemma_kinds_absent_between(nb, vis@, f, p, last + 1, kind as int);
                    lemma_plane_is_face_plane(nb, vis@, plane@, f, p, kind);
                    assert(placed(quads@, face_dir, k as i32) == kind_quads(nb, f, p, kind as int));
                    assert(kinds_quads(nb, f, p, kind + 1) == before + placed(
                        quads@,
                        face_dir,
                        k as i32,
                    ));
                    lemma_quads_concat(before, placed(quads@, face_dir, k as i32));
                }
                append_quads(&quads, face_dir, k as i32, vertices, normals);
                last = kind;
                proof {
                    assert(vertices@ =~= old(vertices)@ + quads_vertices(
                        kinds_quads(nb, f, p, last + 1),
                    ));
                    assert(normals@ =~= old(normals)@ + quads_normals(
                        kinds_quads(nb, f, p, last + 1),
                    ));
                }
            },
        }
    }
    proof {
        lemma_kinds_absent_between(nb, vis@, f, p, last + 1, 65536);
    }
}

/// Blocks that the rows of visible faces do not show on a plane add no
/// quads there.
proof fn lemma_kinds_absent_between(
    nb: NeighborsView,
    vis: Seq<u16>,
    face: int,
    k: int,
    lo: int,
    hi: int,
)
    requires
        0 <= lo <= hi <= 65536,
        forall|r: int, c: int|
            0 <= r < 16 && 0 <= c < 16 ==> #[trigger] visible_bit(vis, face, k, r, c)
                == cell_visible(nb, face, k, r, c),
        forall|b: int| lo <= b < hi ==> !kind_on_plane(nb.center, vis, face, k, b),
    ensures
        kinds_quads(nb, face, k, hi) == kinds_quads(nb, face, k, lo),
{
    assert forall|b: int, r: int, c: int|
        lo <= b < hi && 0 <= r < 16 && 0 <= c < 16 implies !#[trigger] plane_cell(
        nb,
        face,
        k,
        Block(b as u16),
        r,
        c,
    ) by {
        if plane_cell(nb, face, k, Block(b as u16), r, c) {
            assert(visible_bit(vis, face, k, r, c));
            assert(cell_block(nb.center, face, k, r, c).0 == b);
            assert(kind_on_plane(nb.center, vis, face, k, b));
        }
    }
    lemma_absent_kinds(nb, face, k, lo, hi);
}

/// A plane whose bits are the voxels of one block among those shown in the
/// rows of visible faces is the plane of that block's faces.
proof fn lemma_plane_is_face_plane(
    nb: NeighborsView,
    vis: Seq<u16>,
    plane: Seq<u16>,
    face: int,
    k: int,
    kind: u16,
)
    requires
        plane.len() == 16,
        forall|r: int, c: int|
            0 <= r < 16 && 0 <= c < 16 ==> #[trigger] visible_bit(vis, face, k, r, c)
                == cell_visible(nb, face, k, r, c),
        forall|r: int, c: int|
            0 <= r < 16 && 0 <= c < 16 ==> #[trigger] bit16(plane[r], c) == (visible_bit(
                vis,
                face,
                k,
                r,
                c,
            ) && cell_block(nb.center, face, k, r, c) == Block(kind)),
    ensures
        plane == face_plane(nb, face, k, Block(kind)),
{
    let want = face_plane(nb, face, k, Block(kind));
    assert forall|r: int| 0 <= r < 16 implies plane[r] == want[r] by {
        assert forall|c: int| 0 <= c < 16 implies bit16(plane[r], c) == bit16(want[r], c) by {
            lemma_row_with_bits(|c: int| plane_cell(nb, face, k, Block(kind), r, c), 16, c);
            assert(visible_bit(vis, face, k, r, c) == cell_visible(nb, face, k, r, c));
        }
        lemma_ext16(plane[r], want[r]);
    }
    assert(plane =~= want);
}

/// The indices of a mesh of `vertex_count / 4` quads: two triangles for
/// each quad.
fn generate_indices(vertex_count: usize) -> (indices: Vec<u32>)
    requires
        vertex_count <= u32::MAX,
    ensures
        indices@ == quad_indices(vertex_count as int / 4),
        forall|i: int| 0 <= i < indices@.len() ==> indices@[i] < (vertex_count / 4) * 4,
{
    let quad_count = vertex_count / 4;
    let mut indices: Vec<u32> = Vec::new();
    let mut vert_index: usize = 0;
    while vert_index < quad_count
        invariant
            vert_index <= quad_count,
            quad_count == vertex_count / 4,
            vertex_count <= u32::MAX,
            indices@ == quad_indices(vert_index as int),
            forall|i: int| 0 <= i < indices@.len() ==> indices@[i] < vert_index * 4,
        decreases quad_count - vert_index,
    {
        let base: u32 = vert_index as u32 * 4u32;
        indices.push(base);
        indices.push(base + 1);
        indices.push(base + 2);
        indices.push(base);
        indices.push(base + 2);
        indices.push(base + 3);
        vert_index += 1;
        assert(indices@ =~= quad_indices(vert_index as int)) by {
            assert forall|i: int| 0 <= i < 6 * vert_index implies indices@[i] == quad_index(
                i,
            ) as u32 by {
                if i >= 6 * (vert_index - 1) {
                    assert(i / 6 == vert_index - 1);
                }
            }
        }
    }
    indices
}

/// The corners and normals of all quads of a section, given the rows of
/// the faces that its voxels show.
fn mesh_visible_faces(sections: &SectionNeighbors, vis: &Vec<u16>) -> (out: (Vec<IVec3>, Vec<IVec3>))
    requires
        vis@.len() == 1536,
        forall|face: int, k: int, r: int, c: int|
            plane_cell_in_range(face, k, r, c) ==> #[trigger] visible_bit(vis@, face, k, r, c)
                == cell_visible(sections@, face, k, r, c),
    ensures
        out.0@ == quads_vertices(section_quads(sections@)),
        out.1@ == quads_normals(section_quads(sections@)),
        section_quads(sections@).len() <= 805306368,
{
    let ghost nb = sections@;
    let mut vertices: Vec<IVec3> = Vec::new();
    let mut normals: Vec<IVec3> = Vec::new();
    let mut axis: usize = 0;
    while axis < 6
        invariant
            axis <= 6,
            nb == sections@,
            vis@.len() == 1536,
            forall|face: int, k: int, r: int, c: int|
                plane_cell_in_range(face, k, r, c) ==> #[trigger] visible_bit(vis@, face, k, r, c)
                    == cell_visible(nb, face, k, r, c),
            vertices@ == quads_vertices(faces_quads(nb, axis as int)),
            normals@ == quads_normals(faces_quads(nb, axis as int)),
            faces_quads(nb, axis as int).len() <= 134217728 * axis,
        decreases 6 - axis,
    {
        let mut axis_pos: usize = 0;
        let ghost before = faces_quads(nb, axis as int);
        assert(planes_quads(nb, axis as int, 0) =~= Seq::<PlacedQuad>::empty());
        assert(before + planes_quads(nb, axis as int, 0) =~= before);
        while axis_pos < 16
            invariant
                axis < 6,
                axis_pos <= 16,
                nb == sections@,
                vis@.len() == 1536,
                before == faces_quads(nb, axis as int),
                before.len() <= 134217728 * axis,
                forall|face: int, k: int, r: int, c: int|
                    plane_cell_in_range(face, k, r, c) ==> #[trigger] visible_bit(
                        vis@,
                        face,
                        k,
                        r,
                        c,
                    ) == cell_visible(nb, face, k, r, c),
                vertices@ == quads_vertices(before + planes_quads(nb, axis as int, axis_pos as int)),
                normals@ == quads_normals(before + planes_quads(nb, axis as int, axis_pos as int)),
                planes_quads(nb, axis as int, axis_pos as int).len() <= 8388608 * axis_pos,
            decreases 16 - axis_pos,
        {
            let ghost done = before + planes_quads(nb, axis as int, axis_pos as int);
            let ghost plane = kinds_quads(nb, axis as int, axis_pos as int, 65536);
            assert forall|r: int, c: int| 0 <= r < 16 && 0 <= c < 16 implies #[trigger] visible_bit(
                vis@,
                axis as int,
                axis_pos as int,
                r,
                c,
            ) == cell_visible(nb, axis as int, axis_pos as int, r, c) by {
                assert(plane_cell_in_range(axis as int, axis_pos as int, r, c));
            }
            mesh_plane(sections, vis, axis, axis_pos, &mut vertices, &mut normals);
            proof {
                lemma_quads_concat(done, plane);
                assert(planes_quads(nb, axis as int, axis_pos + 1) == planes_quads(
                    nb,
                    axis as int,
                    axis_pos as int,
                ) + plane);
                assert(before + planes_quads(nb, axis as int, axis_pos + 1) =~= done + plane);
            }
            axis_pos += 1;
        }
        assert(faces_quads(nb, axis + 1) == before + planes_quads(nb, axis as int, 16));
        axis += 1;
    }
    (vertices, normals)
}

/// The surface mesh of a section: the quads that greedy meshing makes of
/// the faces that its voxels show, or `None` where the section shows no
/// face, as a section of air does, and a filled section between six filled
/// sections.
///
/// A voxel shows a face where it is solid and the block that touches the
/// face is not. Beyond the section that block is looked up in the
/// neighbour on that side, and is air where the neighbour is absent.
pub fn generate_section_mesh(sections: SectionNeighbors) -> (mesh: Option<ChunkSectionMesh>)
    ensures
        match mesh {
            Some(m) => {
                &&& section_quads(sections@).len() > 0
                &&& m.vertices@ == quads_vertices(section_quads(sections@))
                &&& m.normals@ == quads_normals(section_quads(sections@))
                &&& m.indices@ == quad_indices(section_quads(sections@).len() as int)
                &&& m.wf()
            },
            None => section_quads(sections@).len() == 0,
        },
        section_is_empty(sections@.center) ==> mesh is None,
        is_enclosed(sections@) ==> mesh is None,
{
    let ghost nb = sections@;
    proof {
        if is_enclosed(nb) {
            lemma_enclosed_section_has_no_quads(nb);
        }
    }
    if sections.center.is_empty() {
        proof {
            lemma_air_shows_no_face(nb);
        }
        return None;
    }
    let vis = visible_faces(&sections);
    let (vertices, normals) = mesh_visible_faces(&sections, &vis);
    proof {
        lemma_quads_concat(section_quads(nb), Seq::empty());
    }
    if vertices.len() == 0 {
        return None;
    }
    let indices = generate_indices(vertices.len());
    Some(ChunkSectionMesh::new(vertices, normals, indices))
}

} // verus!
