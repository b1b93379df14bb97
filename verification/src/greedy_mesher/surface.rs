//! The surface of a section: which faces its voxels show, the planes of
//! faces that are meshed, the quads that come of them and their order,
//! and what holds of those quads.

use crate::bits::{bit16, lemma_row_with_bits, row_with_bits};
use crate::block::Block;
use crate::chunk::{in_section, section_get, section_index, section_is_empty};
use crate::greedy_mesher::lattice::plane_cell_in_range;
use crate::greedy_mesher::plane::{
    covers_exactly, greedy_from, lemma_greedy_skip, lemma_plane_quads_cover, plane_quads,
};
use crate::math::IVec3;
use crate::quad::{lemma_quad_winds_outward, triangle_normal, Direction, GreedyQuad};
use crate::section_neighbors::NeighborsView;
use vstd::prelude::*;

verus! {

/// The direction of each of the six faces, in the order in which the
/// mesher goes through them.
pub open spec fn face_direction(face: int) -> Direction {
    if face == 0 {
        Direction::Down
    } else if face == 1 {
        Direction::Up
    } else if face == 2 {
        Direction::Left
    } else if face == 3 {
        Direction::Right
    } else if face == 4 {
        Direction::Forward
    } else {
        Direction::Back
    }
}

/// The voxel at row `r`, column `c` of plane `k` of a face. A plane lies
/// across the axis of its face and `k` counts along that axis. Across the
/// y axis rows run along x and columns along z; across the x axis rows run
/// along z and columns along y; across the z axis rows run along x and
/// columns along y.
pub open spec fn plane_voxel(face: int, k: int, r: int, c: int) -> (int, int, int) {
    if face < 2 {
        (r, k, c)
    } else if face < 4 {
        (k, c, r)
    } else {
        (r, c, k)
    }
}

/// Whether the voxel at `(x, y, z)` of the centre section shows its face
/// of the given direction: the voxel is solid and the block that touches
/// that face, in the centre section or in the neighbour beyond, is not.
pub open spec fn face_visible(nb: NeighborsView, face: int, x: int, y: int, z: int) -> bool {
    let n = face_direction(face).spec_normals();
    section_get(nb.center, x, y, z).spec_is_solid() && !nb.block_at(
        x + n.x,
        y + n.y,
        z + n.z,
    ).spec_is_solid()
}

/// The block of the centre section at row `r`, column `c` of plane `k` of
/// a face.
pub open spec fn cell_block(center: Seq<Block>, face: int, k: int, r: int, c: int) -> Block {
    let (x, y, z) = plane_voxel(face, k, r, c);
    section_get(center, x, y, z)
}

/// Whether the voxel at row `r`, column `c` of plane `k` of a face shows
/// that face.
pub open spec fn cell_visible(nb: NeighborsView, face: int, k: int, r: int, c: int) -> bool {
    let (x, y, z) = plane_voxel(face, k, r, c);
    face_visible(nb, face, x, y, z)
}

/// Whether the voxel at row `r`, column `c` of plane `k` of a face is the
/// block `kind` and shows that face.
pub open spec fn plane_cell(nb: NeighborsView, face: int, k: int, kind: Block, r: int, c: int) -> bool {
    cell_visible(nb, face, k, r, c) && cell_block(nb.center, face, k, r, c) == kind
}

/// The 16×16 plane of the faces of one direction, on one plane across that
/// direction's axis, of the voxels of one block: bit `c` of row `r` is set
/// where the voxel at row `r`, column `c` is that block and shows the
/// face.
pub open spec fn face_plane(nb: NeighborsView, face: int, k: int, kind: Block) -> Seq<u16> {
    Seq::new(16, |r: int| row_with_bits(|c: int| plane_cell(nb, face, k, kind, r, c), 16))
}

/// A quad with its place in the section: the direction it faces and the
/// plane it lies on, counted along that direction's axis.
pub struct PlacedQuad {
    pub dir: Direction,
    pub offset: i32,
    pub quad: GreedyQuad,
}

/// The quads of one plane, each with its direction and plane.
pub open spec fn placed(quads: Seq<GreedyQuad>, dir: Direction, offset: i32) -> Seq<PlacedQuad> {
    Seq::new(quads.len(), |i: int| PlacedQuad { dir, offset, quad: quads[i] })
}

/// The quads of the faces of one direction, on one plane, of the voxels of
/// the block with the number `kind`.
pub open spec fn kind_quads(nb: NeighborsView, face: int, k: int, kind: int) -> Seq<PlacedQuad> {
    placed(
        plane_quads(face_plane(nb, face, k, Block(kind as u16))),
        face_direction(face),
        k as i32,
    )
}

/// The quads of the faces of one direction on one plane, of the blocks
/// with a number below `n`, by rising number.
pub open spec fn kinds_quads(nb: NeighborsView, face: int, k: int, n: int) -> Seq<PlacedQuad>
    decreases n,
{
    if n <= 0 {
        Seq::empty()
    } else {
        kinds_quads(nb, face, k, n - 1) + kind_quads(nb, face, k, n - 1)
    }
}

/// The quads of the faces of one direction on the planes below `n`, plane
/// by plane.
pub open spec fn planes_quads(nb: NeighborsView, face: int, n: int) -> Seq<PlacedQuad>
    decreases n,
{
    if n <= 0 {
        Seq::empty()
    } else {
        planes_quads(nb, face, n - 1) + kinds_quads(nb, face, n - 1, 65536)
    }
}

/// The quads of the faces with a number below `n`, face by face.
pub open spec fn faces_quads(nb: NeighborsView, n: int) -> Seq<PlacedQuad>
    decreases n,
{
    if n <= 0 {
        Seq::empty()
    } else {
        faces_quads(nb, n - 1) + planes_quads(nb, n - 1, 16)
    }
}

/// The quads of a section's surface, in the order in which the mesh holds
/// them: by face (down, up, left, right, forward, back), then by plane
/// along the face's axis, then by the number of the block, then in the
/// order of greedy meshing.
pub open spec fn section_quads(nb: NeighborsView) -> Seq<PlacedQuad> {
    faces_quads(nb, 6)
}

/// The corners of a list of quads, four for each.
pub open spec fn quads_vertices(quads: Seq<PlacedQuad>) -> Seq<IVec3>
    decreases quads.len(),
{
    if quads.len() == 0 {
        Seq::empty()
    } else {
        quads_vertices(quads.drop_last()) + quads.last().quad.corners(
            quads.last().dir,
            quads.last().offset as int,
        )
    }
}

/// The normals of a list of quads, four for each.
pub open spec fn quads_normals(quads: Seq<PlacedQuad>) -> Seq<IVec3>
    decreases quads.len(),
{
    if quads.len() == 0 {
        Seq::empty()
    } else {
        quads_normals(quads.drop_last()) + GreedyQuad::corner_normals(quads.last().dir)
    }
}

/// The corners and normals of two lists of quads, one after the other, are
/// those of the first followed by those of the second; there are four of
/// each for every quad.
pub proof fn lemma_quads_concat(a: Seq<PlacedQuad>, b: Seq<PlacedQuad>)
    ensures
        quads_vertices(a + b) == quads_vertices(a) + quads_vertices(b),
        quads_normals(a + b) == quads_normals(a) + quads_normals(b),
        quads_vertices(a).len() == 4 * a.len(),
        quads_normals(a).len() == 4 * a.len(),
    decreases b.len(), a.len(),
{
    if a.len() > 0 {
        lemma_quads_concat(a.drop_last(), Seq::empty());
    }
    if b.len() == 0 {
        assert(a + b =~= a);
        assert(quads_vertices(a) + quads_vertices(b) =~= quads_vertices(a));
        assert(quads_normals(a) + quads_normals(b) =~= quads_normals(a));
    } else {
        lemma_quads_concat(a, b.drop_last());
        assert((a + b).drop_last() =~= a + b.drop_last());
        assert((a + b).last() == b.last());
        assert(quads_vertices(a + b) =~= quads_vertices(a) + quads_vertices(b));
        assert(quads_normals(a + b) =~= quads_normals(a) + quads_normals(b));
    }
}

/// A plane without set cells gives no quads.
proof fn lemma_empty_plane(plane: Seq<u16>, r: int)
    requires
        plane.len() == 16,
        0 <= r <= 16,
        forall|r2: int, c: int| 0 <= r2 < 16 ==> !#[trigger] bit16(plane[r2], c),
    ensures
        greedy_from(plane, r, 0) == Seq::<GreedyQuad>::empty(),
    decreases 16 - r,
{
    if r < 16 {
        lemma_empty_plane(plane, r + 1);
        lemma_greedy_skip(plane, r, 0, 16);
    }
}

/// A block of which no voxel shows the face on the plane gives no quads
/// there.
proof fn lemma_absent_kind(nb: NeighborsView, face: int, k: int, kind: int)
    requires
        forall|r: int, c: int|
            0 <= r < 16 && 0 <= c < 16 ==> !#[trigger] plane_cell(
                nb,
                face,
                k,
                Block(kind as u16),
                r,
                c,
            ),
    ensures
        kind_quads(nb, face, k, kind) == Seq::<PlacedQuad>::empty(),
{
    let b = Block(kind as u16);
    let plane = face_plane(nb, face, k, b);
    assert forall|r2: int, c: int| 0 <= r2 < 16 implies !#[trigger] bit16(plane[r2], c) by {
        lemma_row_with_bits(|c: int| plane_cell(nb, face, k, b, r2, c), 16, c);
        if 0 <= c < 16 {
            assert(!plane_cell(nb, face, k, b, r2, c));
        }
    }
    lemma_empty_plane(plane, 0);
    assert(kind_quads(nb, face, k, kind) =~= Seq::<PlacedQuad>::empty());
}

/// Blocks of which no voxel shows the face on the plane add no quads.
pub(crate) proof fn lemma_absent_kinds(nb: NeighborsView, face: int, k: int, lo: int, hi: int)
    requires
        0 <= lo <= hi,
        forall|b: int, r: int, c: int|
            lo <= b < hi && 0 <= r < 16 && 0 <= c < 16 ==> !#[trigger] plane_cell(
                nb,
                face,
                k,
                Block(b as u16),
                r,
                c,
            ),
    ensures
        kinds_quads(nb, face, k, hi) == kinds_quads(nb, face, k, lo),
    decreases hi - lo,
{
    if lo < hi {
        lemma_absent_kinds(nb, face, k, lo, hi - 1);
        lemma_absent_kind(nb, face, k, hi - 1);
        assert(kinds_quads(nb, face, k, hi) =~= kinds_quads(nb, face, k, hi - 1));
    }
}

/// A neighbourhood in which no voxel shows a face has no quads.
pub proof fn lemma_no_faces_no_quads(nb: NeighborsView)
    requires
        forall|face: int, k: int, r: int, c: int|
            plane_cell_in_range(face, k, r, c) ==> !#[trigger] cell_visible(nb, face, k, r, c),
    ensures
        section_quads(nb) == Seq::<PlacedQuad>::empty(),
{
    assert forall|face: int, k: int| 0 <= face < 6 && 0 <= k < 16 implies #[trigger] kinds_quads(
        nb,
        face,
        k,
        65536,
    ) == Seq::<PlacedQuad>::empty() by {
        assert forall|b: int, r: int, c: int|
            0 <= b < 65536 && 0 <= r < 16 && 0 <= c < 16 implies !#[trigger] plane_cell(
            nb,
            face,
            k,
            Block(b as u16),
            r,
            c,
        ) by {
            assert(!cell_visible(nb, face, k, r, c));
        }
        lemma_absent_kinds(nb, face, k, 0, 65536);
    }
    assert forall|face: int| 0 <= face < 6 implies #[trigger] planes_quads(nb, face, 16) == Seq::<
        PlacedQuad,
    >::empty() by {
        lemma_empty_planes(nb, face, 16);
    }
    reveal_with_fuel(faces_quads, 7);
    assert(section_quads(nb) =~= Seq::<PlacedQuad>::empty());
}

/// A section of air shows no face and has no quads.
pub proof fn lemma_air_shows_no_face(nb: NeighborsView)
    requires
        nb.center.len() == 4096,
        section_is_empty(nb.center),
    ensures
        section_quads(nb) == Seq::<PlacedQuad>::empty(),
{
    assert forall|face: int, k: int, r: int, c: int|
        plane_cell_in_range(face, k, r, c) implies !#[trigger] cell_visible(nb, face, k, r, c) by {
        let (x, y, z) = plane_voxel(face, k, r, c);
        assert(in_section(x, y, z));
        assert(0 <= section_index(x, y, z) < 4096);
        assert(nb.center[section_index(x, y, z)] == Block(0));
    }
    lemma_no_faces_no_quads(nb);
}

/// Planes without quads add up to no quads.
proof fn lemma_empty_planes(nb: NeighborsView, face: int, n: int)
    requires
        0 <= n <= 16,
        forall|k: int|
            0 <= k < 16 ==> #[trigger] kinds_quads(nb, face, k, 65536) == Seq::<PlacedQuad>::empty(),
    ensures
        planes_quads(nb, face, n) == Seq::<PlacedQuad>::empty(),
    decreases n,
{
    if n > 0 {
        lemma_empty_planes(nb, face, n - 1);
        assert(planes_quads(nb, face, n) =~= Seq::<PlacedQuad>::empty());
    }
}

/// Whether a section is filled: every one of its 4096 blocks is solid.
pub open spec fn section_is_full(blocks: Seq<Block>) -> bool {
    blocks.len() == 4096 && forall|i: int| 0 <= i < 4096 ==> (#[trigger] blocks[i]).spec_is_solid()
}

/// Whether a section that may be absent is there and filled.
pub open spec fn neighbor_is_full(section: Option<Seq<Block>>) -> bool {
    section matches Some(blocks) && section_is_full(blocks)
}

/// Whether a section is filled and lies between six filled sections.
pub open spec fn is_enclosed(nb: NeighborsView) -> bool {
    &&& section_is_full(nb.center)
    &&& neighbor_is_full(nb.up)
    &&& neighbor_is_full(nb.down)
    &&& neighbor_is_full(nb.north)
    &&& neighbor_is_full(nb.south)
    &&& neighbor_is_full(nb.east)
    &&& neighbor_is_full(nb.west)
}

/// A filled section between six filled sections shows no face, and has no
/// quads.
pub proof fn lemma_enclosed_section_has_no_quads(nb: NeighborsView)
    requires
        is_enclosed(nb),
    ensures
        section_quads(nb) == Seq::<PlacedQuad>::empty(),
{
    assert forall|face: int, k: int, r: int, c: int|
        plane_cell_in_range(face, k, r, c) implies !#[trigger] cell_visible(nb, face, k, r, c) by {
        let (x, y, z) = plane_voxel(face, k, r, c);
        let n = face_direction(face).spec_normals();
        let ax = x + n.x;
        let ay = y + n.y;
        let az = z + n.z;
        lemma_full_neighborhood_is_solid(nb, ax, ay, az);
    }
    lemma_no_faces_no_quads(nb);
}

/// In a neighbourhood of filled sections, the block at any position of the
/// centre section, or one step outside it through a face, is solid.
proof fn lemma_full_neighborhood_is_solid(nb: NeighborsView, x: int, y: int, z: int)
    requires
        is_enclosed(nb),
        -1 <= x <= 16,
        -1 <= y <= 16,
        -1 <= z <= 16,
    ensures
        nb.block_at(x, y, z).spec_is_solid(),
{
    let wx = x % 16;
    let wy = y % 16;
    let wz = z % 16;
    assert(in_section(wx, wy, wz));
    let i = section_index(wx, wy, wz);
    assert(0 <= i < 4096);
    assert(nb.center[i].spec_is_solid());
    assert(nb.up->0[i].spec_is_solid());
    assert(nb.down->0[i].spec_is_solid());
    assert(nb.north->0[i].spec_is_solid());
    assert(nb.south->0[i].spec_is_solid());
    assert(nb.east->0[i].spec_is_solid());
    assert(nb.west->0[i].spec_is_solid());
}


/// The quads of the faces of one direction, on one plane, of the voxels of
/// one block cover exactly the voxels of that block that show the face:
/// each such voxel lies in one quad and no other, and every cell of every
/// quad is such a voxel.
pub proof fn lemma_kind_quads_cover(nb: NeighborsView, face: int, k: int, kind: Block)
    ensures
        covers_exactly(
            face_plane(nb, face, k, kind),
            0,
            0,
            plane_quads(face_plane(nb, face, k, kind)),
        ),
        forall|r: int, c: int|
            0 <= r < 16 ==> (#[trigger] bit16(face_plane(nb, face, k, kind)[r], c) <==> 0 <= c < 16
                && plane_cell(nb, face, k, kind, r, c)),
{
    let plane = face_plane(nb, face, k, kind);
    lemma_plane_quads_cover(plane);
    assert forall|r: int, c: int| 0 <= r < 16 implies (#[trigger] bit16(plane[r], c) <==> 0 <= c
        < 16 && plane_cell(nb, face, k, kind, r, c)) by {
        lemma_row_with_bits(|c: int| plane_cell(nb, face, k, kind, r, c), 16, c);
    }
}


/// Whether a quad lies on its plane, and the plane in the section.
pub open spec fn well_placed(quad: PlacedQuad) -> bool {
    quad.quad.on_plane() && 0 <= quad.offset < 16
}

/// Every quad of a section's surface lies on its plane, and the plane in
/// the section.
pub proof fn lemma_section_quads_well_placed(nb: NeighborsView)
    ensures
        forall|i: int| 0 <= i < section_quads(nb).len() ==> well_placed(#[trigger] section_quads(nb)[i]),
{
    lemma_planes_well_placed(nb, 0, 16);
    lemma_planes_well_placed(nb, 1, 16);
    lemma_planes_well_placed(nb, 2, 16);
    lemma_planes_well_placed(nb, 3, 16);
    lemma_planes_well_placed(nb, 4, 16);
    lemma_planes_well_placed(nb, 5, 16);
    reveal_with_fuel(faces_quads, 7);
    let q0 = planes_quads(nb, 0, 16);
    let q1 = planes_quads(nb, 1, 16);
    let q2 = planes_quads(nb, 2, 16);
    let q3 = planes_quads(nb, 3, 16);
    let q4 = planes_quads(nb, 4, 16);
    let q5 = planes_quads(nb, 5, 16);
    assert(section_quads(nb) =~= q0 + q1 + q2 + q3 + q4 + q5);
}

/// Every quad of the planes below `n` of a face is well placed.
proof fn lemma_planes_well_placed(nb: NeighborsView, face: int, n: int)
    requires
        0 <= n <= 16,
    ensures
        forall|i: int|
            0 <= i < planes_quads(nb, face, n).len() ==> well_placed(
                #[trigger] planes_quads(nb, face, n)[i],
            ),
    decreases n,
{
    if n > 0 {
        lemma_planes_well_placed(nb, face, n - 1);
        lemma_kinds_well_placed(nb, face, n - 1, 65536);
        let before = planes_quads(nb, face, n - 1);
        let here = kinds_quads(nb, face, n - 1, 65536);
        let all = planes_quads(nb, face, n);
        assert(all == before + here);
        assert forall|i: int| 0 <= i < all.len() implies well_placed(#[trigger] all[i]) by {
            if i < before.len() {
                assert(all[i] == before[i]);
            } else {
                assert(all[i] == here[i - before.len()]);
            }
        }
    }
}

/// Every quad of the blocks below `n` on a plane is well placed.
proof fn lemma_kinds_well_placed(nb: NeighborsView, face: int, k: int, n: int)
    requires
        0 <= k < 16,
        0 <= n,
    ensures
        forall|i: int|
            0 <= i < kinds_quads(nb, face, k, n).len() ==> well_placed(
                #[trigger] kinds_quads(nb, face, k, n)[i],
            ),
    decreases n,
{
    if n > 0 {
        lemma_kinds_well_placed(nb, face, k, n - 1);
        let plane = face_plane(nb, face, k, Block((n - 1) as u16));
        lemma_plane_quads_cover(plane);
        let quads = plane_quads(plane);
        let before = kinds_quads(nb, face, k, n - 1);
        let here = kind_quads(nb, face, k, n - 1);
        let all = kinds_quads(nb, face, k, n);
        assert(all == before + here);
        assert forall|i: int| 0 <= i < all.len() implies well_placed(#[trigger] all[i]) by {
            if i < before.len() {
                assert(all[i] == before[i]);
            } else {
                let j = i - before.len();
                assert(all[i] == here[j]);
                assert(here[j].quad == quads[j]);
                assert(quads[j].on_plane());
                assert(here[j].offset == k);
            }
        }
    }
}

/// The corners and normals of quad `i` of a list stand at `4 * i` and the
/// three places after it.
pub proof fn lemma_quads_vertices_index(quads: Seq<PlacedQuad>, i: int, corner: int)
    requires
        0 <= i < quads.len(),
        0 <= corner < 4,
    ensures
        quads_vertices(quads).len() == 4 * quads.len(),
        quads_normals(quads).len() == 4 * quads.len(),
        quads_vertices(quads)[4 * i + corner] == quads[i].quad.corners(
            quads[i].dir,
            quads[i].offset as int,
        )[corner],
        quads_normals(quads)[4 * i + corner] == quads[i].dir.spec_normals(),
    decreases quads.len(),
{
    lemma_quads_concat(quads, Seq::empty());
    lemma_quads_concat(quads.drop_last(), Seq::empty());
    if i < quads.len() - 1 {
        lemma_quads_vertices_index(quads.drop_last(), i, corner);
    }
}

/// Every quad of a section's mesh lies in one plane and winds
/// counter-clockwise seen from the side to which its normals point: for
/// both of its triangles, the cross product of the edges is the normal,
/// scaled by the area of the quad.
pub proof fn lemma_section_mesh_winds_outward(nb: NeighborsView, i: int)
    requires
        0 <= i < section_quads(nb).len(),
    ensures
        ({
            let v = quads_vertices(section_quads(nb));
            let n = quads_normals(section_quads(nb));
            let quad = section_quads(nb)[i].quad;
            let area = quad.w * quad.h;
            &&& v.len() == 4 * section_quads(nb).len()
            &&& n.len() == v.len()
            &&& area >= 1
            &&& n[4 * i] == n[4 * i + 1] && n[4 * i] == n[4 * i + 2] && n[4 * i] == n[4 * i + 3]
            &&& triangle_normal(v[4 * i], v[4 * i + 1], v[4 * i + 2]) == (
                area * n[4 * i].x,
                area * n[4 * i].y,
                area * n[4 * i].z,
            )
            &&& triangle_normal(v[4 * i], v[4 * i + 2], v[4 * i + 3]) == (
                area * n[4 * i].x,
                area * n[4 * i].y,
                area * n[4 * i].z,
            )
        }),
{
    let quads = section_quads(nb);
    lemma_section_quads_well_placed(nb);
    assert(well_placed(quads[i]));
    lemma_quads_vertices_index(quads, i, 0);
    lemma_quads_vertices_index(quads, i, 1);
    lemma_quads_vertices_index(quads, i, 2);
    lemma_quads_vertices_index(quads, i, 3);
    lemma_quad_winds_outward(quads[i].quad, quads[i].dir, quads[i].offset as int);
}

} // verus!
