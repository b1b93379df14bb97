//! The padded lattice: the solidity of a section and of one layer of
//! cells around it as columns of bits, the faces that the columns show,
//! and those faces regrouped by plane.

use crate::bits::{
    bit16, bit64, lemma_and_or16, lemma_column_bounds, lemma_drop_lowest64, lemma_edges64,
    lemma_one_shl16, lemma_set_bit64, lemma_small64, lemma_strip64, lemma_zero16, lemma_zero64,
};
use crate::block::Block;
use crate::chunk::{ChunkSection, PADDED_CHUNK_SIZE2_USIZE, PADDED_CHUNK_SIZE_USIZE};
use crate::greedy_mesher::surface::cell_visible;
use crate::section_neighbors::{
    optional_section_get, section_view, NeighborsView, SectionNeighbors,
};
use std::sync::Arc;
use vstd::prelude::*;

verus! {

/// The block at `(x, y, z)` of a section that may be absent: air where it
/// is.
fn get_block_at_section(section: &Option<Arc<ChunkSection>>, x: i32, y: i32, z: i32) -> (b: Block)
    ensures
        b == optional_section_get(section_view(*section), x as int, y as int, z as int),
{
    match section {
        None => Block(0),
        Some(up) => up.get_by_xyz(x, y, z),
    }
}

/// A coordinate one step outside a section, wrapped into the section
/// beyond; a coordinate inside stays.
fn wrap_coordinate(v: i32) -> (w: i32)
    requires
        -1 <= v <= 16,
    ensures
        w == v as int % 16,
{
    if v < 0 {
        v + 16
    } else if v >= 16 {
        v - 16
    } else {
        v
    }
}

/// The block at `(block_x, block_y, block_z)` of the neighbourhood, counted
/// from the low corner of the centre section.
fn neighborhood_block(sections: &SectionNeighbors, block_x: i32, block_y: i32, block_z: i32) -> (b:
    Block)
    requires
        -1 <= block_x <= 16,
        -1 <= block_y <= 16,
        -1 <= block_z <= 16,
    ensures
        b == sections@.block_at(block_x as int, block_y as int, block_z as int),
{
    let section_x = wrap_coordinate(block_x);
    let section_y = wrap_coordinate(block_y);
    let section_z = wrap_coordinate(block_z);
    if section_x == block_x && section_y == block_y && section_z == block_z {
        return sections.center.get_by_xyz(block_x, block_y, block_z);
    }
    if block_y < 0 {
        return get_block_at_section(&sections.down, section_x, section_y, section_z);
    } else if block_y >= 16 {
        return get_block_at_section(&sections.up, section_x, section_y, section_z);
    }
    if block_x < 0 {
        return get_block_at_section(&sections.west, section_x, section_y, section_z);
    } else if block_x >= 16 {
        return get_block_at_section(&sections.east, section_x, section_y, section_z);
    }
    if block_z < 0 {
        return get_block_at_section(&sections.south, section_x, section_y, section_z);
    }
    get_block_at_section(&sections.north, section_x, section_y, section_z)
}

/// Whether the cell `(px, py, pz)` of the padded 18×18×18 lattice is
/// solid. The lattice is the centre section with one layer of cells around
/// it, so the cell stands at `(px - 1, py - 1, pz - 1)` of the
/// neighbourhood.
pub open spec fn padded_solid(nb: NeighborsView, px: int, py: int, pz: int) -> bool {
    nb.block_at(px - 1, py - 1, pz - 1).spec_is_solid()
}

/// Whether the lattice cell that bit `k` of column `(u, v)` of `axis`
/// stands for is the cell `(px, py, pz)`. Columns of axis 0 run along y
/// and are laid out by x and z; columns of axis 1 run along x and are laid
/// out by z and y; columns of axis 2 run along z and are laid out by x and
/// y.
pub open spec fn column_cell_is(axis: int, u: int, v: int, k: int, px: int, py: int, pz: int) -> bool {
    if axis == 0 {
        u == px && k == py && v == pz
    } else if axis == 1 {
        k == px && v == py && u == pz
    } else {
        u == px && v == py && k == pz
    }
}

/// Whether the lattice cell that bit `k` of column `(u, v)` of `axis`
/// stands for is solid.
pub open spec fn column_cell_solid(nb: NeighborsView, axis: int, u: int, v: int, k: int) -> bool {
    if axis == 0 {
        padded_solid(nb, u, k, v)
    } else if axis == 1 {
        padded_solid(nb, k, v, u)
    } else {
        padded_solid(nb, u, v, k)
    }
}

/// Bit `k` of column `(u, v)` of `axis` in the three arrays of columns,
/// which lie one behind the other, 324 columns each.
pub open spec fn column_bit(cols: Seq<u64>, axis: int, u: int, v: int, k: int) -> bool {
    bit64(cols[324 * axis + 18 * v + u], k)
}

/// Whether `(axis, u, v, k)` names a bit of a column: one of three axes,
/// one of 18×18 columns, one of 64 bits.
pub open spec fn column_bit_in_range(axis: int, u: int, v: int, k: int) -> bool {
    0 <= axis < 3 && 0 <= u < 18 && 0 <= v < 18 && 0 <= k < 64
}

/// Whether the lattice cell `(px, py, pz)` comes before `(x, y, z)` when
/// the lattice is walked by y, then z, then x.
pub open spec fn cell_before(px: int, py: int, pz: int, x: int, y: int, z: int) -> bool {
    py < y || (py == y && (pz < z || (pz == z && px < x)))
}

/// The same as [`cell_before`], for the cell that a bit of a column stands
/// for.
pub open spec fn column_cell_before(axis: int, u: int, v: int, k: int, x: int, y: int, z: int) -> bool {
    if axis == 0 {
        cell_before(u, k, v, x, y, z)
    } else if axis == 1 {
        cell_before(k, v, u, x, y, z)
    } else {
        cell_before(u, v, k, x, y, z)
    }
}

/// Sets, in each of the three arrays of columns, the bit that stands for
/// the lattice cell `(x, y, z)`.
fn mark_solid(cols: &mut Vec<u64>, x: usize, y: usize, z: usize)
    requires
        old(cols)@.len() == 972,
        x < 18,
        y < 18,
        z < 18,
        forall|i: int| 0 <= i < 972 ==> old(cols)@[i] < 0x40000,
    ensures
        final(cols)@.len() == 972,
        forall|i: int| 0 <= i < 972 ==> final(cols)@[i] < 0x40000,
        forall|axis: int, u: int, v: int, k: int|
            column_bit_in_range(axis, u, v, k) ==> #[trigger] column_bit(final(cols)@, axis, u, v, k)
                == (column_bit(old(cols)@, axis, u, v, k) || column_cell_is(
                axis,
                u,
                v,
                k,
                x as int,
                y as int,
                z as int,
            )),
{
    let i0: usize = x + z * PADDED_CHUNK_SIZE_USIZE;
    let i1: usize = z + y * PADDED_CHUNK_SIZE_USIZE + PADDED_CHUNK_SIZE2_USIZE;
    let i2: usize = x + y * PADDED_CHUNK_SIZE_USIZE + PADDED_CHUNK_SIZE2_USIZE * 2;
    let c0: u64 = cols[i0];
    let c1: u64 = cols[i1];
    let c2: u64 = cols[i2];
    proof {
        lemma_column_bounds(c0, 0, y as u64);
        lemma_column_bounds(c1, 0, x as u64);
        lemma_column_bounds(c2, 0, z as u64);
    }
    cols[i0] = c0 | (1u64 << (y as u64));
    cols[i1] = c1 | (1u64 << (x as u64));
    cols[i2] = c2 | (1u64 << (z as u64));
    assert forall|axis: int, u: int, v: int, k: int|
        column_bit_in_range(axis, u, v, k) implies #[trigger] column_bit(cols@, axis, u, v, k) == (
    column_bit(old(cols)@, axis, u, v, k) || column_cell_is(
        axis,
        u,
        v,
        k,
        x as int,
        y as int,
        z as int,
    )) by {
        let i = 324 * axis + 18 * v + u;
        if i == i0 {
            lemma_set_bit64(c0, y as int, k);
        } else if i == i1 {
            lemma_set_bit64(c1, x as int, k);
        } else if i == i2 {
            lemma_set_bit64(c2, z as int, k);
        }
    }
}

/// Whether the three arrays of columns hold the solidity of the lattice
/// cells that come before `(x, y, z)`, and nothing else.
pub open spec fn columns_hold(cols: Seq<u64>, nb: NeighborsView, x: int, y: int, z: int) -> bool {
    &&& cols.len() == 972
    &&& forall|i: int| 0 <= i < 972 ==> cols[i] < 0x40000
    &&& forall|axis: int, u: int, v: int, k: int|
        column_bit_in_range(axis, u, v, k) ==> #[trigger] column_bit(cols, axis, u, v, k) == (k < 18
            && column_cell_before(axis, u, v, k, x, y, z) && column_cell_solid(nb, axis, u, v, k))
}

/// The solidity of the padded lattice as three arrays of 18×18 columns,
/// one array for each axis along which columns run: bit `k` of a column is
/// set where the `k`-th cell along the column is solid.
fn solid_columns(sections: &SectionNeighbors) -> (cols: Vec<u64>)
    ensures
        columns_hold(cols@, sections@, 0, 18, 0),
{
    // solid voxels as binary per axis x, y, z
    let mut solid_voxels_per_axis: Vec<u64> = vec![0u64; 3 * PADDED_CHUNK_SIZE2_USIZE];
    proof {
        assert forall|axis: int, u: int, v: int, k: int|
            column_bit_in_range(axis, u, v, k) implies !#[trigger] column_bit(
            solid_voxels_per_axis@,
            axis,
            u,
            v,
            k,
        ) by {
            let ku = k as u64;
            assert((0u64 >> ku) & 1u64 == 0u64) by (bit_vector);
        }
    }
    let mut y: usize = 0;
    while y < PADDED_CHUNK_SIZE_USIZE
        invariant
            y <= 18,
            columns_hold(solid_voxels_per_axis@, sections@, 0, y as int, 0),
        decreases 18 - y,
    {
        let mut z: usize = 0;
        while z < PADDED_CHUNK_SIZE_USIZE
            invariant
                y < 18,
                z <= 18,
                columns_hold(solid_voxels_per_axis@, sections@, 0, y as int, z as int),
            decreases 18 - z,
        {
            let mut x: usize = 0;
            while x < PADDED_CHUNK_SIZE_USIZE
                invariant
                    y < 18,
                    z < 18,
                    x <= 18,
                    columns_hold(solid_voxels_per_axis@, sections@, x as int, y as int, z as int),
                decreases 18 - x,
            {
                let block_x = x as i32 - 1i32;
                let block_y = y as i32 - 1i32;
                let block_z = z as i32 - 1i32;
                let block = neighborhood_block(sections, block_x, block_y, block_z);
                if block.is_solid() {
                    mark_solid(&mut solid_voxels_per_axis, x, y, z);
                }
                x += 1;
            }
            z += 1;
        }
        y += 1;
    }
    solid_voxels_per_axis
}


/// The faces of one of the six directions along a column: the cells of the
/// column that are solid and whose neighbour in that direction is not.
/// Faces with an even number look down the column, faces with an odd
/// number up it.
pub open spec fn edge_mask(col: u64, face: int) -> u64 {
    if face % 2 == 1 {
        col & !(col >> 1u64)
    } else {
        col & !(col << 1u64)
    }
}

/// Whether `masks` holds the face masks of the first `n` columns, counted
/// through the six faces in turn, of the columns in `cols`.
pub open spec fn masks_hold(masks: Seq<u64>, cols: Seq<u64>, n: int) -> bool {
    &&& masks.len() == n
    &&& forall|i: int|
        0 <= i < n ==> #[trigger] masks[i] == edge_mask(
            cols[324 * ((i / 324) / 2) + i % 324],
            i / 324,
        )
}

/// Culls the faces between two solid cells: for each of the six face
/// directions and each column, the mask of the cells that show a face in
/// that direction. The masks of face `f` stand at `324 * f + 18 * v + u`.
fn cull_faces(cols: &Vec<u64>) -> (masks: Vec<u64>)
    requires
        cols@.len() == 972,
        forall|i: int| 0 <= i < 972 ==> cols@[i] < 0x40000,
    ensures
        masks_hold(masks@, cols@, 1944),
        forall|i: int| 0 <= i < 1944 ==> masks@[i] < 0x40000,
{
    // cull mask for greedy slicing based on solids on previous axis column
    let mut voxels_face_mask: Vec<u64> = Vec::with_capacity(1944);
    let mut face: usize = 0;
    while face < 6
        invariant
            face <= 6,
            cols@.len() == 972,
            forall|i: int| 0 <= i < 972 ==> cols@[i] < 0x40000,
            masks_hold(voxels_face_mask@, cols@, 324 * face),
            forall|i: int| 0 <= i < 324 * face ==> voxels_face_mask@[i] < 0x40000,
        decreases 6 - face,
    {
        let axis: usize = face / 2;
        let mut i: usize = 0;
        while i < 324
            invariant
                face < 6,
                axis == face / 2,
                i <= 324,
                cols@.len() == 972,
                forall|i: int| 0 <= i < 972 ==> cols@[i] < 0x40000,
                masks_hold(voxels_face_mask@, cols@, 324 * face + i),
                forall|j: int| 0 <= j < 324 * face + i ==> voxels_face_mask@[j] < 0x40000,
            decreases 324 - i,
        {
            let col: u64 = cols[324 * axis + i];
            // sample ascending/descending axes and set true if air meets solid aka need to draw face.
            let mask: u64 = if face % 2 == 1 {
                col & !(col >> 1)
            } else {
                col & !(col << 1)
            };
            proof {
                lemma_column_bounds(col, !(col >> 1u64), 0);
                lemma_column_bounds(col, !(col << 1u64), 0);
            }
            voxels_face_mask.push(mask);
            i += 1;
        }
        face += 1;
    }
    voxels_face_mask
}

/// The bit of the rows of visible faces that stands for the face of
/// direction `face` on plane `k`, at row `r` and column `c` of the plane.
pub open spec fn visible_bit(vis: Seq<u16>, face: int, k: int, r: int, c: int) -> bool {
    bit16(vis[(16 * face + k) * 16 + r], c)
}

/// Whether `(face, k, r, c)` names a cell of a plane: one of six faces, one
/// of 16 planes across the face's axis, one of 16×16 cells.
pub open spec fn plane_cell_in_range(face: int, k: int, r: int, c: int) -> bool {
    0 <= face < 6 && 0 <= k < 16 && 0 <= r < 16 && 0 <= c < 16
}

/// Sets bit `z` in row `x` of every plane of `face` whose number is a bit
/// of `col`.
fn scatter_column(vis: &mut Vec<u16>, face: usize, x: usize, z: usize, column: u64)
    requires
        old(vis)@.len() == 1536,
        face < 6,
        x < 16,
        z < 16,
        column < 0x10000,
    ensures
        final(vis)@.len() == 1536,
        forall|f: int, k: int, r: int, c: int|
            plane_cell_in_range(f, k, r, c) ==> #[trigger] visible_bit(final(vis)@, f, k, r, c) == (
            visible_bit(old(vis)@, f, k, r, c) || (f == face && r == x && c == z && bit64(column, k))),
{
    let mut col = column;
    while col != 0
        invariant
            vis@.len() == 1536,
            face < 6,
            x < 16,
            z < 16,
            col < 0x10000,
            forall|f: int, k: int, r: int, c: int|
                plane_cell_in_range(f, k, r, c) ==> #[trigger] visible_bit(vis@, f, k, r, c) == (
                visible_bit(old(vis)@, f, k, r, c) || (f == face && r == x && c == z && bit64(
                    column,
                    k,
                ) && !bit64(col, k))),
            forall|k: int| bit64(col, k) ==> bit64(column, k),
        decreases col,
    {
        let y: u32 = col.trailing_zeros();
        let ghost col_before = col;
        let ghost vis_before = vis@;
        proof {
            lemma_drop_lowest64(col, 0);
            if y >= 16 {
                lemma_small64(col, y as int);
            }
            assert forall|k: int| bit64(col & ((col - 1) as u64), k) == (bit64(col, k) && k
                != y) by {
                lemma_drop_lowest64(col, k);
            }
            lemma_column_bounds(col, (col - 1) as u64, 0);
        }
        // clear last set bit
        col &= col - 1;
        let i: usize = (16 * face + y as usize) * 16 + x;
        let row: u16 = vis[i];
        vis[i] = row | (1u16 << (z as u16));
        assert forall|f: int, k: int, r: int, c: int|
            plane_cell_in_range(f, k, r, c) implies #[trigger] visible_bit(vis@, f, k, r, c) == (
        visible_bit(old(vis)@, f, k, r, c) || (f == face && r == x && c == z && bit64(column, k)
            && !bit64(col, k))) by {
            assert(visible_bit(vis_before, f, k, r, c) == (visible_bit(old(vis)@, f, k, r, c) || (f
                == face && r == x && c == z && bit64(column, k) && !bit64(col_before, k))));
            if (16 * f + k) * 16 + r == i {
                lemma_and_or16(row, 1u16 << (z as u16), c);
                lemma_one_shl16(z as int, c);
            }
        }
    }
    assert forall|k: int| !bit64(col, k) by {
        lemma_zero64(k);
    }
}

/// Whether the plane cell `(z, x)` of a face comes before the cell
/// `(cur_z, cur_x)` of face `cur_face` when the faces are walked in turn
/// and the cells of each by column, then row.
pub open spec fn plane_cell_before(
    face: int,
    c: int,
    r: int,
    cur_face: int,
    cur_z: int,
    cur_x: int,
) -> bool {
    face < cur_face || (face == cur_face && (c < cur_z || (c == cur_z && r < cur_x)))
}

/// Whether the rows of visible faces hold the face masks of the plane
/// cells that come before `(z, x)` of `face`, and nothing else.
pub open spec fn rows_hold(vis: Seq<u16>, masks: Seq<u64>, face: int, z: int, x: int) -> bool {
    &&& vis.len() == 1536
    &&& forall|f: int, k: int, r: int, c: int|
        plane_cell_in_range(f, k, r, c) ==> #[trigger] visible_bit(vis, f, k, r, c) == (
        plane_cell_before(f, c, r, face, z, x) && bit64(masks[324 * f + 18 * (c + 1) + (r + 1)], k + 1))
}

/// Strips the padding from the face masks and regroups them by plane:
/// row `r` of plane `k` of face `f` stands at `(16 * f + k) * 16 + r` and
/// has bit `c` set where the voxel at row `r`, column `c` of that plane
/// shows a face.
fn visible_rows(masks: &Vec<u64>) -> (vis: Vec<u16>)
    requires
        masks@.len() == 1944,
        forall|i: int| 0 <= i < 1944 ==> masks@[i] < 0x40000,
    ensures
        rows_hold(vis@, masks@, 6, 0, 0),
{
    let mut vis: Vec<u16> = vec![0u16; 1536];
    proof {
        assert forall|f: int, k: int, r: int, c: int|
            plane_cell_in_range(f, k, r, c) implies !#[trigger] visible_bit(vis@, f, k, r, c) by {
            lemma_zero16(c);
        }
    }
    let mut axis: usize = 0;
    while axis < 6
        invariant
            axis <= 6,
            masks@.len() == 1944,
            forall|i: int| 0 <= i < 1944 ==> masks@[i] < 0x40000,
            rows_hold(vis@, masks@, axis as int, 0, 0),
        decreases 6 - axis,
    {
        let mut z: usize = 0;
        while z < 16
            invariant
                axis < 6,
                z <= 16,
                masks@.len() == 1944,
                forall|i: int| 0 <= i < 1944 ==> masks@[i] < 0x40000,
                rows_hold(vis@, masks@, axis as int, z as int, 0),
            decreases 16 - z,
        {
            let mut x: usize = 0;
            while x < 16
                invariant
                    axis < 6,
                    z < 16,
                    x <= 16,
                    masks@.len() == 1944,
                    forall|i: int| 0 <= i < 1944 ==> masks@[i] < 0x40000,
                    rows_hold(vis@, masks@, axis as int, z as int, x as int),
                decreases 16 - x,
            {
                // skip padded by adding 1(for x padding) and (z+1) for (z padding)
                let mut col: u64 = masks[324 * axis + 18 * (z + 1) + (x + 1)];
                let ghost mask = col;
                proof {
                    lemma_column_bounds(col, 0, 0);
                    assert forall|k: int| 0 <= k < 16 implies bit64(
                        (col >> 1u64) & !(1u64 << 16u64),
                        k,
                    ) == bit64(col, k + 1) by {
                        lemma_strip64(col, k);
                    }
                }
                // remove right most out of chunk bounds value
                col >>= 1;
                // remove left most out of chunk bounds value
                col &= !(1 << 16);
                scatter_column(&mut vis, axis, x, z, col);
                x += 1;
            }
            z += 1;
        }
        axis += 1;
    }
    vis
}

/// The rows that the mesher computes from a neighbourhood, through the
/// columns of solidity and the face masks, have a bit set exactly where a
/// voxel shows a face.
proof fn lemma_rows_are_visible(
    nb: NeighborsView,
    cols: Seq<u64>,
    masks: Seq<u64>,
    vis: Seq<u16>,
    face: int,
    k: int,
    r: int,
    c: int,
)
    requires
        nb.wf(),
        columns_hold(cols, nb, 0, 18, 0),
        masks_hold(masks, cols, 1944),
        rows_hold(vis, masks, 6, 0, 0),
        plane_cell_in_range(face, k, r, c),
    ensures
        visible_bit(vis, face, k, r, c) == cell_visible(nb, face, k, r, c),
{
    let axis = face / 2;
    let u = r + 1;
    let v = c + 1;
    let i = 324 * face + 18 * v + u;
    assert(i / 324 == face && i % 324 == 18 * v + u);
    let col = cols[324 * axis + 18 * v + u];
    assert(masks[i] == edge_mask(col, face));
    assert(visible_bit(vis, face, k, r, c) == bit64(masks[i], k + 1));
    lemma_edges64(col, k + 1);
    assert(bit64(col, k) == column_bit(cols, axis, u, v, k));
    assert(bit64(col, k + 1) == column_bit(cols, axis, u, v, k + 1));
    assert(bit64(col, k + 2) == column_bit(cols, axis, u, v, k + 2));
}

/// The rows of the faces that the voxels of a section show: row `r` of
/// plane `k` of face `f` stands at `(16 * f + k) * 16 + r` and has bit `c`
/// set where the voxel at row `r`, column `c` of that plane shows the face.
pub(crate) fn visible_faces(sections: &SectionNeighbors) -> (vis: Vec<u16>)
    ensures
        vis@.len() == 1536,
        forall|face: int, k: int, r: int, c: int|
            plane_cell_in_range(face, k, r, c) ==> #[trigger] visible_bit(vis@, face, k, r, c)
                == cell_visible(sections@, face, k, r, c),
{
    proof {
        use_type_invariant(&*sections.center);
        if let Some(s) = &sections.up {
            use_type_invariant(&**s);
        }
        if let Some(s) = &sections.down {
            use_type_invariant(&**s);
        }
        if let Some(s) = &sections.north {
            use_type_invariant(&**s);
        }
        if let Some(s) = &sections.south {
            use_type_invariant(&**s);
        }
        if let Some(s) = &sections.east {
            use_type_invariant(&**s);
        }
        if let Some(s) = &sections.west {
            use_type_invariant(&**s);
        }
        assert(sections@.wf());
    }
    let cols = solid_columns(sections);
    let masks = cull_faces(&cols);
    let vis = visible_rows(&masks);
    proof {
        assert forall|face: int, k: int, r: int, c: int|
            plane_cell_in_range(face, k, r, c) implies #[trigger] visible_bit(vis@, face, k, r, c)
            == cell_visible(sections@, face, k, r, c) by {
            lemma_rows_are_visible(sections@, cols@, masks@, vis@, face, k, r, c);
        }
    }
    vis
}

} // verus!
