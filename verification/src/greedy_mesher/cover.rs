//! The quads of a section cover the faces that it shows: every face that a
//! voxel shows lies in one quad and no other, and a quad holds nothing but
//! faces that voxels of one block show.

use crate::bits::bit16;
use crate::block::Block;
use crate::greedy_mesher::lattice::plane_cell_in_range;
use crate::greedy_mesher::plane::plane_quads;
use crate::greedy_mesher::surface::{
    cell_block, cell_visible, face_direction, face_plane, faces_quads, kind_quads, kinds_quads,
    lemma_kind_quads_cover, plane_cell, planes_quads, section_quads, PlacedQuad,
};
use crate::section_neighbors::NeighborsView;
use vstd::prelude::*;

verus! {

/// Whether a quad holds the face of direction `face` of the voxel at row
/// `r`, column `c` of plane `k`.
pub open spec fn holds_face(quad: PlacedQuad, face: int, k: int, r: int, c: int) -> bool {
    quad.dir == face_direction(face) && quad.offset == k && quad.quad.covers(r, c)
}

/// Whether a quad is one of the faces of direction `face` on plane `k` of
/// voxels of the block with the number `kind`: it faces that direction,
/// lies on that plane, and every cell of it is such a voxel that shows the
/// face.
pub open spec fn is_quad_of(nb: NeighborsView, quad: PlacedQuad, face: int, k: int, kind: int) -> bool {
    &&& 0 <= face < 6
    &&& 0 <= k < 16
    &&& 0 <= kind < 65536
    &&& quad.dir == face_direction(face)
    &&& quad.offset == k
    &&& quad.quad.on_plane()
    &&& forall|r: int, c: int| #[trigger]
        quad.quad.covers(r, c) ==> plane_cell(nb, face, k, Block(kind as u16), r, c)
}

/// Whether a quad is one of the faces of some direction, plane and block
/// within `scope`.
pub open spec fn is_quad_within(
    nb: NeighborsView,
    quad: PlacedQuad,
    scope: spec_fn(int, int, int) -> bool,
) -> bool {
    exists|face: int, k: int, kind: int|
        scope(face, k, kind) && #[trigger] is_quad_of(nb, quad, face, k, kind)
}

/// Whether `quads` cover exactly the faces within `scope`, a choice of
/// directions, planes and blocks: every quad is one of the faces of such a
/// direction, plane and block; every such face that a voxel shows lies in
/// a quad; and no face lies in two quads.
pub open spec fn covers_scope(
    nb: NeighborsView,
    quads: Seq<PlacedQuad>,
    scope: spec_fn(int, int, int) -> bool,
) -> bool {
    &&& forall|i: int| 0 <= i < quads.len() ==> #[trigger] is_quad_within(nb, quads[i], scope)
    &&& forall|face: int, k: int, kind: int, r: int, c: int|
        scope(face, k, kind) && plane_cell_in_range(face, k, r, c) && 0 <= kind < 65536
            && #[trigger] plane_cell(nb, face, k, Block(kind as u16), r, c) ==> exists|i: int|
            0 <= i < quads.len() && #[trigger] holds_face(quads[i], face, k, r, c)
    &&& forall|i: int, j: int, r: int, c: int|
        0 <= i < j < quads.len() && quads[i].dir == quads[j].dir && quads[i].offset
            == quads[j].offset ==> !(#[trigger] quads[i].quad.covers(r, c)
            && #[trigger] quads[j].quad.covers(r, c))
}

/// Quads that cover one scope, followed by quads that cover another scope
/// that has nothing in common with the first, cover both scopes.
proof fn lemma_covers_concat(
    nb: NeighborsView,
    a: Seq<PlacedQuad>,
    b: Seq<PlacedQuad>,
    first: spec_fn(int, int, int) -> bool,
    second: spec_fn(int, int, int) -> bool,
    both: spec_fn(int, int, int) -> bool,
)
    requires
        covers_scope(nb, a, first),
        covers_scope(nb, b, second),
        forall|face: int, k: int, kind: int| #[trigger]
            both(face, k, kind) == (first(face, k, kind) || second(face, k, kind)),
        forall|face: int, k: int, kind: int|
            !(#[trigger] first(face, k, kind) && #[trigger] second(face, k, kind)),
    ensures
        covers_scope(nb, a + b, both),
{
    let all = a + b;
    assert forall|i: int| 0 <= i < all.len() implies #[trigger] is_quad_within(
        nb,
        all[i],
        both,
    ) by {
        if i < a.len() {
            assert(all[i] == a[i]);
            assert(is_quad_within(nb, a[i], first));
            let (face, k, kind) = choose|face: int, k: int, kind: int|
                first(face, k, kind) && #[trigger] is_quad_of(nb, a[i], face, k, kind);
            assert(both(face, k, kind) && is_quad_of(nb, all[i], face, k, kind));
        } else {
            assert(all[i] == b[i - a.len()]);
            assert(is_quad_within(nb, b[i - a.len()], second));
            let (face, k, kind) = choose|face: int, k: int, kind: int|
                second(face, k, kind) && #[trigger] is_quad_of(nb, b[i - a.len()], face, k, kind);
            assert(both(face, k, kind) && is_quad_of(nb, all[i], face, k, kind));
        }
    }
    assert forall|face: int, k: int, kind: int, r: int, c: int|
        both(face, k, kind) && plane_cell_in_range(face, k, r, c) && 0 <= kind < 65536
            && #[trigger] plane_cell(nb, face, k, Block(kind as u16), r, c) implies exists|i: int|
        0 <= i < all.len() && #[trigger] holds_face(all[i], face, k, r, c) by {
        if first(face, k, kind) {
            let i = choose|i: int| 0 <= i < a.len() && #[trigger] holds_face(a[i], face, k, r, c);
            assert(all[i] == a[i]);
            assert(holds_face(all[i], face, k, r, c));
        } else {
            assert(second(face, k, kind));
            let i = choose|i: int| 0 <= i < b.len() && #[trigger] holds_face(b[i], face, k, r, c);
            assert(all[i + a.len()] == b[i]);
            assert(holds_face(all[i + a.len()], face, k, r, c));
        }
    }
    assert forall|i: int, j: int, r: int, c: int|
        0 <= i < j < all.len() && all[i].dir == all[j].dir && all[i].offset
            == all[j].offset implies !(#[trigger] all[i].quad.covers(r, c)
        && #[trigger] all[j].quad.covers(r, c)) by {
        if all[i].quad.covers(r, c) && all[j].quad.covers(r, c) {
            if j < a.len() {
                assert(all[i] == a[i] && all[j] == a[j]);
                assert(a[i].quad.covers(r, c) && a[j].quad.covers(r, c));
                assert(false);
            } else if i >= a.len() {
                assert(all[i] == b[i - a.len()] && all[j] == b[j - a.len()]);
                assert(b[i - a.len()].quad.covers(r, c) && b[j - a.len()].quad.covers(r, c));
                assert(false);
            } else {
                assert(all[i] == a[i] && all[j] == b[j - a.len()]);
                assert(is_quad_within(nb, a[i], first));
                assert(is_quad_within(nb, b[j - a.len()], second));
                let (f1, k1, d1) = choose|face: int, k: int, kind: int|
                    first(face, k, kind) && #[trigger] is_quad_of(nb, a[i], face, k, kind);
                let (f2, k2, d2) = choose|face: int, k: int, kind: int|
                    second(face, k, kind) && #[trigger] is_quad_of(
                        nb,
                        b[j - a.len()],
                        face,
                        k,
                        kind,
                    );
                assert(a[i].quad.covers(r, c));
                assert(b[j - a.len()].quad.covers(r, c));
                assert(plane_cell(nb, f1, k1, Block(d1 as u16), r, c));
                assert(plane_cell(nb, f2, k2, Block(d2 as u16), r, c));
                assert(f1 == f2);
                assert(k1 == k2);
                assert(cell_block(nb.center, f1, k1, r, c) == Block(d1 as u16));
                assert(cell_block(nb.center, f2, k2, r, c) == Block(d2 as u16));
                assert(d1 == d2);
                assert(first(f1, k1, d1) && second(f1, k1, d1));
                assert(false);
            }
        }
    }
}

/// No quads cover an empty scope.
proof fn lemma_covers_nothing(nb: NeighborsView, scope: spec_fn(int, int, int) -> bool)
    requires
        forall|face: int, k: int, kind: int| !#[trigger] scope(face, k, kind),
    ensures
        covers_scope(nb, Seq::<PlacedQuad>::empty(), scope),
{
}

/// The scope of one direction, one plane and one block.
pub open spec fn kind_scope(face: int, k: int, kind: int) -> spec_fn(int, int, int) -> bool {
    |f: int, p: int, d: int| f == face && p == k && d == kind
}

/// The scope of one direction, one plane and the blocks with a number
/// below `n`.
pub open spec fn kinds_scope(face: int, k: int, n: int) -> spec_fn(int, int, int) -> bool {
    |f: int, p: int, d: int| f == face && p == k && 0 <= d < n
}

/// The scope of one direction, the planes below `n` and all blocks.
pub open spec fn planes_scope(face: int, n: int) -> spec_fn(int, int, int) -> bool {
    |f: int, p: int, d: int| f == face && 0 <= p < n && 0 <= d < 65536
}

/// The scope of the directions with a number below `n`, all planes and all
/// blocks.
pub open spec fn faces_scope(n: int) -> spec_fn(int, int, int) -> bool {
    |f: int, p: int, d: int| 0 <= f < n && 0 <= p < 16 && 0 <= d < 65536
}

/// The quads of one direction, plane and block cover the faces of that
/// direction, plane and block.
proof fn lemma_kind_covers(nb: NeighborsView, face: int, k: int, kind: int)
    requires
        0 <= face < 6,
        0 <= k < 16,
        0 <= kind < 65536,
    ensures
        covers_scope(nb, kind_quads(nb, face, k, kind), kind_scope(face, k, kind)),
{
    let block = Block(kind as u16);
    let plane = face_plane(nb, face, k, block);
    let quads = plane_quads(plane);
    let placed = kind_quads(nb, face, k, kind);
    let scope = kind_scope(face, k, kind);
    lemma_kind_quads_cover(nb, face, k, block);
    assert forall|i: int| 0 <= i < placed.len() implies #[trigger] is_quad_within(
        nb,
        placed[i],
        scope,
    ) by {
        assert(placed[i].quad == quads[i]);
        assert(quads[i].on_plane());
        assert forall|r: int, c: int| #[trigger] placed[i].quad.covers(r, c) implies plane_cell(
            nb,
            face,
            k,
            block,
            r,
            c,
        ) by {
            assert(quads[i].covers(r, c));
            assert(bit16(plane[r], c));
        }
        assert(scope(face, k, kind) && is_quad_of(nb, placed[i], face, k, kind));
    }
    assert forall|f: int, p: int, d: int, r: int, c: int|
        scope(f, p, d) && plane_cell_in_range(f, p, r, c) && 0 <= d < 65536
            && #[trigger] plane_cell(nb, f, p, Block(d as u16), r, c) implies exists|i: int|
        0 <= i < placed.len() && #[trigger] holds_face(placed[i], f, p, r, c) by {
        assert(bit16(plane[r], c));
        let i = choose|i: int| 0 <= i < quads.len() && #[trigger] quads[i].covers(r, c);
        assert(placed[i].quad == quads[i]);
        assert(holds_face(placed[i], f, p, r, c));
    }
    assert forall|i: int, j: int, r: int, c: int|
        0 <= i < j < placed.len() && placed[i].dir == placed[j].dir && placed[i].offset
            == placed[j].offset implies !(#[trigger] placed[i].quad.covers(r, c)
        && #[trigger] placed[j].quad.covers(r, c)) by {
        assert(placed[i].quad == quads[i] && placed[j].quad == quads[j]);
        assert(!(quads[i].covers(r, c) && quads[j].covers(r, c)));
    }
}


/// The quads of one direction and plane, of the blocks with a number below
/// `n`, cover the faces of that direction, that plane and those blocks.
proof fn lemma_kinds_cover(nb: NeighborsView, face: int, k: int, n: int)
    requires
        0 <= face < 6,
        0 <= k < 16,
        0 <= n <= 65536,
    ensures
        covers_scope(nb, kinds_quads(nb, face, k, n), kinds_scope(face, k, n)),
    decreases n,
{
    if n <= 0 {
        lemma_covers_nothing(nb, kinds_scope(face, k, n));
    } else {
        lemma_kinds_cover(nb, face, k, n - 1);
        lemma_kind_covers(nb, face, k, n - 1);
        lemma_covers_concat(
            nb,
            kinds_quads(nb, face, k, n - 1),
            kind_quads(nb, face, k, n - 1),
            kinds_scope(face, k, n - 1),
            kind_scope(face, k, n - 1),
            kinds_scope(face, k, n),
        );
    }
}

/// The quads of one direction, on the planes below `n`, cover the faces of
/// that direction and those planes.
proof fn lemma_planes_cover(nb: NeighborsView, face: int, n: int)
    requires
        0 <= face < 6,
        0 <= n <= 16,
    ensures
        covers_scope(nb, planes_quads(nb, face, n), planes_scope(face, n)),
    decreases n,
{
    if n <= 0 {
        lemma_covers_nothing(nb, planes_scope(face, n));
    } else {
        lemma_planes_cover(nb, face, n - 1);
        lemma_kinds_cover(nb, face, n - 1, 65536);
        lemma_covers_concat(
            nb,
            planes_quads(nb, face, n - 1),
            kinds_quads(nb, face, n - 1, 65536),
            planes_scope(face, n - 1),
            kinds_scope(face, n - 1, 65536),
            planes_scope(face, n),
        );
    }
}

/// The quads of the directions with a number below `n` cover the faces of
/// those directions.
proof fn lemma_faces_cover(nb: NeighborsView, n: int)
    requires
        0 <= n <= 6,
    ensures
        covers_scope(nb, faces_quads(nb, n), faces_scope(n)),
    decreases n,
{
    if n <= 0 {
        lemma_covers_nothing(nb, faces_scope(n));
    } else {
        lemma_faces_cover(nb, n - 1);
        lemma_planes_cover(nb, n - 1, 16);
        lemma_covers_concat(
            nb,
            faces_quads(nb, n - 1),
            planes_quads(nb, n - 1, 16),
            faces_scope(n - 1),
            planes_scope(n - 1, 16),
            faces_scope(n),
        );
    }
}

/// The quads of a section cover exactly the faces that its voxels show.
///
/// Every face that a voxel shows lies in a quad of its direction and
/// plane. Every quad lies on a plane of the section, and its cells are
/// voxels of one block that show the face of the quad's direction. No
/// two quads of the same direction and plane have a cell in common.
pub proof fn lemma_section_quads_cover(nb: NeighborsView)
    ensures
        forall|face: int, k: int, r: int, c: int|
            plane_cell_in_range(face, k, r, c) && #[trigger] cell_visible(nb, face, k, r, c)
                ==> exists|i: int|
                0 <= i < section_quads(nb).len() && #[trigger] holds_face(
                    section_quads(nb)[i],
                    face,
                    k,
                    r,
                    c,
                ),
        forall|i: int|
            0 <= i < section_quads(nb).len() ==> #[trigger] is_quad_within(
                nb,
                section_quads(nb)[i],
                faces_scope(6),
            ),
        forall|i: int, j: int, r: int, c: int|
            0 <= i < j < section_quads(nb).len() && section_quads(nb)[i].dir
                == section_quads(nb)[j].dir && section_quads(nb)[i].offset
                == section_quads(nb)[j].offset ==> !(#[trigger] section_quads(nb)[i].quad.covers(
                r,
                c,
            ) && #[trigger] section_quads(nb)[j].quad.covers(r, c)),
{
    let quads = section_quads(nb);
    let scope = faces_scope(6);
    lemma_faces_cover(nb, 6);
    assert forall|face: int, k: int, r: int, c: int|
        plane_cell_in_range(face, k, r, c) && #[trigger] cell_visible(
            nb,
            face,
            k,
            r,
            c,
        ) implies exists|i: int|
        0 <= i < quads.len() && #[trigger] holds_face(quads[i], face, k, r, c) by {
        let block = cell_block(nb.center, face, k, r, c);
        let kind = block.0 as int;
        assert(Block(kind as u16) == block);
        assert(scope(face, k, kind));
        assert(plane_cell(nb, face, k, Block(kind as u16), r, c));
    }
}

} // verus!
