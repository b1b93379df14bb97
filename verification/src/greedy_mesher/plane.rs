//! Greedy meshing of one plane: the set cells of a 16×16 plane merged
//! into rectangles.

use crate::bits::{
    bit16, clear_span16, lemma_clear_span16, lemma_shr16, lemma_span_test16, low_mask16,
    span_mask16, span_set16,
};
use crate::quad::GreedyQuad;
use vstd::prelude::*;
use vstd::std_specs::bits::{axiom_u16_trailing_ones, axiom_u16_trailing_zeros};

verus! {

/// How many cells of a row are set in a run that starts at column `c`.
pub open spec fn run_length(row: u16, c: int) -> nat
    decreases 16 - c,
{
    if 0 <= c < 16 && bit16(row, c) {
        1 + run_length(row, c + 1)
    } else {
        0
    }
}

/// How many rows of a plane, counted from row `r` on without a gap, have
/// the columns `c..c + h` all set.
pub open spec fn run_rows(plane: Seq<u16>, r: int, c: int, h: int) -> nat
    decreases 16 - r,
{
    if 0 <= r < 16 && span_set16(plane[r], c, h) {
        1 + run_rows(plane, r + 1, c, h)
    } else {
        0
    }
}

/// The plane without the cells of the rows `r0..r0 + w` in the columns
/// `c..c + h`.
pub open spec fn clear_rect(plane: Seq<u16>, r0: int, w: int, c: int, h: int) -> Seq<u16> {
    Seq::new(
        16,
        |r: int|
            if r0 <= r < r0 + w {
                clear_span16(plane[r], c, h)
            } else {
                plane[r]
            },
    )
}

/// The quads that greedy meshing makes of what is left of a plane from the
/// cell at row `r`, column `c` on, going through the rows in turn and
/// through each row by rising column.
///
/// A set cell starts a quad. The quad takes the run of set cells that
/// starts there, then every following row in which that whole run is set
/// too. The cells taken from following rows are cleared, so that no cell
/// ends up in two quads.
pub open spec fn greedy_from(plane: Seq<u16>, r: int, c: int) -> Seq<GreedyQuad>
    decreases 16 - r,
        (if c < 16 {
            16 - c
        } else {
            0
        }),
{
    if r < 0 || r >= 16 || c < 0 || plane.len() != 16 {
        Seq::empty()
    } else if c >= 16 {
        greedy_from(plane, r + 1, 0)
    } else if !bit16(plane[r], c) {
        greedy_from(plane, r, c + 1)
    } else {
        let h: int = 1 + run_length(plane[r], c + 1) as int;
        let w: int = 1 + run_rows(plane, r + 1, c, h) as int;
        seq![GreedyQuad { x: r as u32, y: c as u32, w: w as u32, h: h as u32 }] + greedy_from(
            clear_rect(plane, r + 1, w - 1, c, h),
            r,
            c + h,
        )
    }
}

/// The quads that greedy meshing makes of a 16×16 plane of cells, row `r`
/// of the plane being `plane[r]` and its cell in column `c` bit `c`.
pub open spec fn plane_quads(plane: Seq<u16>) -> Seq<GreedyQuad> {
    greedy_from(plane, 0, 0)
}

/// Cells that are not set start no quad.
pub(crate) proof fn lemma_greedy_skip(plane: Seq<u16>, r: int, c: int, c2: int)
    requires
        0 <= r < 16,
        0 <= c <= c2,
        forall|j: int| c <= j < c2 ==> !bit16(plane[r], j),
    ensures
        greedy_from(plane, r, c) == greedy_from(plane, r, c2),
    decreases c2 - c,
{
    if c < c2 {
        lemma_greedy_skip(plane, r, c + 1, c2);
        if c < 16 {
            assert(!bit16(plane[r], c));
        }
    }
}

/// A run of `h` set cells that ends before a cell that is not set has
/// length `h`.
proof fn lemma_run_length(row: u16, c: int, h: int)
    requires
        0 <= c,
        0 <= h,
        forall|j: int| c <= j < c + h ==> bit16(row, j),
        !bit16(row, c + h),
    ensures
        run_length(row, c) == h,
    decreases h,
{
    if h > 0 {
        assert(bit16(row, c));
        lemma_run_length(row, c + 1, h - 1);
    }
}

/// `n` rows in which the span is set, followed by the end of the plane or
/// by a row in which it is not, make a run of `n` rows.
proof fn lemma_run_rows(plane: Seq<u16>, r0: int, n: int, c: int, h: int)
    requires
        0 <= r0,
        0 <= n,
        r0 + n <= 16,
        forall|r: int| r0 <= r < r0 + n ==> span_set16(#[trigger] plane[r], c, h),
        r0 + n == 16 || !span_set16(plane[r0 + n], c, h),
    ensures
        run_rows(plane, r0, c, h) == n,
    decreases n,
{
    if n > 0 {
        assert(span_set16(plane[r0], c, h));
        lemma_run_rows(plane, r0 + 1, n - 1, c, h);
    }
}

/// Whether the cell at row `r`, column `c` has not been passed yet when
/// greedy meshing stands at row `r0`, column `c0`.
pub open spec fn cell_ahead(r0: int, c0: int, r: int, c: int) -> bool {
    r > r0 || (r == r0 && c >= c0)
}

/// Whether `quads` cover the set cells of `plane` that lie ahead of row
/// `r0`, column `c0` exactly: every quad lies on the plane and holds set
/// cells ahead only, every set cell ahead lies in a quad, and no cell lies
/// in two quads.
pub open spec fn covers_exactly(plane: Seq<u16>, r0: int, c0: int, quads: Seq<GreedyQuad>) -> bool {
    &&& forall|i: int| 0 <= i < quads.len() ==> (#[trigger] quads[i]).on_plane()
    &&& forall|i: int, r: int, c: int|
        0 <= i < quads.len() && #[trigger] quads[i].covers(r, c) ==> bit16(plane[r], c)
            && cell_ahead(r0, c0, r, c)
    &&& forall|r: int, c: int|
        0 <= r < 16 && #[trigger] bit16(plane[r], c) && cell_ahead(r0, c0, r, c) ==> exists|i: int|
            0 <= i < quads.len() && #[trigger] quads[i].covers(r, c)
    &&& forall|i: int, j: int, r: int, c: int|
        0 <= i < j < quads.len() ==> !(#[trigger] quads[i].covers(r, c) && #[trigger] quads[j].covers(r, c))
}

/// The cells of a run are set, the run ends inside the row, and the cell
/// behind it is not set.
proof fn lemma_run_length_cells(row: u16, c: int)
    requires
        0 <= c,
    ensures
        c + run_length(row, c) <= 16 || run_length(row, c) == 0,
        forall|j: int| c <= j < c + run_length(row, c) ==> bit16(row, j),
        !bit16(row, c + run_length(row, c)),
    decreases 16 - c,
{
    if 0 <= c < 16 && bit16(row, c) {
        lemma_run_length_cells(row, c + 1);
    }
}

/// The rows of a run of rows have the span set, and the run ends inside
/// the plane.
proof fn lemma_run_rows_cells(plane: Seq<u16>, r: int, c: int, h: int)
    requires
        0 <= r,
    ensures
        r + run_rows(plane, r, c, h) <= 16 || run_rows(plane, r, c, h) == 0,
        forall|r2: int|
            r <= r2 < r + run_rows(plane, r, c, h) ==> span_set16(#[trigger] plane[r2], c, h),
    decreases 16 - r,
{
    if 0 <= r < 16 && span_set16(plane[r], c, h) {
        lemma_run_rows_cells(plane, r + 1, c, h);
    }
}

/// Greedy meshing covers exactly the set cells that lie ahead of where it
/// stands.
pub proof fn lemma_greedy_covers(plane: Seq<u16>, r0: int, c0: int)
    requires
        plane.len() == 16,
        0 <= r0,
        0 <= c0,
    ensures
        covers_exactly(plane, r0, c0, greedy_from(plane, r0, c0)),
    decreases 16 - r0,
        (if c0 < 16 {
            16 - c0
        } else {
            0
        }),
{
    let quads = greedy_from(plane, r0, c0);
    if r0 >= 16 {
    } else if c0 >= 16 {
        lemma_greedy_covers(plane, r0 + 1, 0);
    } else if !bit16(plane[r0], c0) {
        lemma_greedy_covers(plane, r0, c0 + 1);
    } else {
        let h: int = 1 + run_length(plane[r0], c0 + 1) as int;
        let w: int = 1 + run_rows(plane, r0 + 1, c0, h) as int;
        let q = GreedyQuad { x: r0 as u32, y: c0 as u32, w: w as u32, h: h as u32 };
        let rest_plane = clear_rect(plane, r0 + 1, w - 1, c0, h);
        let rest = greedy_from(rest_plane, r0, c0 + h);
        lemma_run_length_cells(plane[r0], c0 + 1);
        lemma_run_rows_cells(plane, r0 + 1, c0, h);
        lemma_greedy_covers(rest_plane, r0, c0 + h);
        assert(quads == seq![q] + rest);
        assert(c0 + h <= 16);
        assert(r0 + w <= 16);
        assert(q.on_plane());
        // the cells of the first quad are set
        assert forall|r: int, c: int| q.covers(r, c) implies bit16(plane[r], c) by {
            if r == r0 {
                if c > c0 {
                    assert(bit16(plane[r0], c));
                }
            } else {
                assert(span_set16(plane[r], c0, h));
            }
        }
        // the rest of the plane differs from the plane in the cells of the first quad only
        assert forall|r: int, c: int| 0 <= r < 16 implies bit16(rest_plane[r], c) == (bit16(
            plane[r],
            c,
        ) && !(r0 + 1 <= r < r0 + w && c0 <= c < c0 + h)) by {
            if r0 + 1 <= r < r0 + w {
                lemma_clear_span16(plane[r], c0, h, c);
            }
        }
        assert forall|i: int| 0 <= i < quads.len() implies (#[trigger] quads[i]).on_plane() by {
            if i > 0 {
                assert(quads[i] == rest[i - 1]);
            }
        }
        assert forall|i: int, r: int, c: int|
            0 <= i < quads.len() && #[trigger] quads[i].covers(r, c) implies bit16(plane[r], c) && cell_ahead(
            r0,
            c0,
            r,
            c,
        ) by {
            if i > 0 {
                assert(quads[i] == rest[i - 1]);
                assert(rest[i - 1].covers(r, c));
                assert(bit16(rest_plane[r], c) && cell_ahead(r0, c0 + h, r, c));
                assert(0 <= r < 16);
            }
        }
        assert forall|r: int, c: int|
            0 <= r < 16 && #[trigger] bit16(plane[r], c) && cell_ahead(
                r0,
                c0,
                r,
                c,
            ) implies exists|i: int| 0 <= i < quads.len() && #[trigger] quads[i].covers(r, c) by {
            if q.covers(r, c) {
                assert(quads[0].covers(r, c));
            } else {
                assert(bit16(rest_plane[r], c));
                if r == r0 {
                    assert(c >= c0 + h);
                }
                assert(cell_ahead(r0, c0 + h, r, c));
                let i = choose|i: int| 0 <= i < rest.len() && #[trigger] rest[i].covers(r, c);
                assert(quads[i + 1] == rest[i]);
                assert(quads[i + 1].covers(r, c));
            }
        }
        assert forall|i: int, j: int, r: int, c: int| 0 <= i < j < quads.len() implies !(
        #[trigger] quads[i].covers(r, c) && #[trigger] quads[j].covers(r, c)) by {
            assert(quads[j] == rest[j - 1]);
            if quads[i].covers(r, c) && quads[j].covers(r, c) {
                assert(rest[j - 1].covers(r, c));
                assert(bit16(rest_plane[r], c) && cell_ahead(r0, c0 + h, r, c));
                assert(0 <= r < 16);
                if i == 0 {
                    assert(q.covers(r, c));
                    assert(false);
                } else {
                    assert(quads[i] == rest[i - 1]);
                    assert(rest[i - 1].covers(r, c));
                    assert(false);
                }
            }
        }
    }
}

/// The quads that greedy meshing makes of a plane cover exactly its set
/// cells: every quad lies on the plane and holds set cells only, every set
/// cell lies in a quad, and no cell lies in two quads.
pub proof fn lemma_plane_quads_cover(plane: Seq<u16>)
    requires
        plane.len() == 16,
    ensures
        covers_exactly(plane, 0, 0, plane_quads(plane)),
{
    lemma_greedy_covers(plane, 0, 0);
}

/// Merges the set cells of a 16×16 plane into rectangles: row `r` of the
/// plane is `data[r]`, its cell in column `c` is bit `c`.
pub fn greedy_mesh_binary_plane(data: [u16; 16]) -> (greedy_quads: Vec<GreedyQuad>)
    ensures
        greedy_quads@ == plane_quads(data@),
        greedy_quads@.len() <= 128,
        forall|i: int| 0 <= i < greedy_quads@.len() ==> (#[trigger] greedy_quads@[i]).on_plane(),
{
    let ghost orig = data@;
    let mut data = data;
    let mut greedy_quads: Vec<GreedyQuad> = Vec::new();
    let mut row: usize = 0;
    while row < 16
        invariant
            row <= 16,
            data@.len() == 16,
            greedy_quads@ + greedy_from(data@, row as int, 0) == plane_quads(orig),
            greedy_quads@.len() <= 8 * row,
            forall|i: int| 0 <= i < greedy_quads@.len() ==> (#[trigger] greedy_quads@[i]).on_plane(),
        decreases 16 - row,
    {
        let mut y: u32 = 0;
        while y < 16
            invariant
                row < 16,
                y <= 32,
                data@.len() == 16,
                greedy_quads@ + greedy_from(data@, row as int, y as int) == plane_quads(orig),
                greedy_quads@.len() <= 8 * row + (if y < 16 {
                    y + 1
                } else {
                    17
                }) / 2,
                0 < y < 16 ==> !bit16(data@[row as int], y as int),
                forall|i: int|
                    0 <= i < greedy_quads@.len() ==> (#[trigger] greedy_quads@[i]).on_plane(),
            decreases 32 - y,
        {
            let shifted: u16 = data[row] >> (y as u16);
            let zeros: u32 = shifted.trailing_zeros();
            proof {
                axiom_u16_trailing_zeros(shifted);
                assert forall|j: int| y <= j < y + zeros implies !bit16(data@[row as int], j) by {
                    lemma_shr16(data@[row as int], y as int, j - y);
                    let k = (j - y) as u16;
                    assert((shifted >> k) & 1u16 == 0u16);
                }
                lemma_greedy_skip(data@, row as int, y as int, y + zeros);
            }
            y += zeros;
            if y < 16 {
                let shifted: u16 = data[row] >> (y as u16);
                let height: u32 = shifted.trailing_ones();
                proof {
                    axiom_u16_trailing_ones(shifted);
                    axiom_u16_trailing_zeros(data[row as int] >> ((y - zeros) as u16));
                    lemma_shr16(data@[row as int], (y - zeros) as int, zeros as int);
                    assert(bit16(data@[row as int], y as int));
                    assert forall|j: int| y <= j < y + height implies bit16(
                        data@[row as int],
                        j,
                    ) by {
                        lemma_shr16(data@[row as int], y as int, j - y);
                        let k = (j - y) as u16;
                        assert((shifted >> k) & 1u16 == 1u16);
                    }
                    lemma_shr16(data@[row as int], y as int, height as int);
                    assert(!bit16(data@[row as int], y + height));
                    assert(height >= 1) by {
                        lemma_shr16(data@[row as int], y as int, 0);
                    }
                    assert(y + height <= 16) by {
                        if y + height > 16 {
                            assert(bit16(data@[row as int], 16int));
                        }
                    }
                    lemma_run_length(data@[row as int], y + 1, height - 1);
                }
                // 1 = 0b1, 2 = 0b11, etc
                let height_mask: u16 = if height >= 16 {
                    0xffff
                } else {
                    let hh: u16 = height as u16;
                    assert((1u16 << hh) >= 1u16) by (bit_vector)
                        requires
                            hh < 16,
                    ;
                    (1u16 << hh) - 1
                };
                let mask: u16 = height_mask << (y as u16);
                assert(height_mask == low_mask16(height as int));
                assert(mask == span_mask16(y as int, height as int));

                let ghost before = data@;
                let mut w: usize = 1;
                while row + w < 16
                    invariant_except_break
                        1 <= w,
                        row + w <= 16,
                    invariant
                        row < 16,
                        y < 16,
                        1 <= height,
                        y + height <= 16,
                        1 <= w,
                        row + w <= 16,
                        before.len() == 16,
                        data@.len() == 16,
                        height_mask == low_mask16(height as int),
                        mask == span_mask16(y as int, height as int),
                        data@ == clear_rect(
                            before,
                            row + 1,
                            w - 1,
                            y as int,
                            height as int,
                        ),
                        forall|r: int|
                            row + 1 <= r < row + w ==> span_set16(
                                #[trigger] before[r],
                                y as int,
                                height as int,
                            ),
                    ensures
                        row + w == 16 || !span_set16(
                            before[row + w],
                            y as int,
                            height as int,
                        ),
                    decreases 16 - w,
                {
                    let next_row_height: u16 = (data[row + w] >> (y as u16)) & height_mask;
                    proof {
                        lemma_span_test16(before[row + w], y as int, height as int);
                    }
                    if next_row_height != height_mask {
                        break ;  // cant expand
                    }
                    //remove bits we expanded into so we dont reuse them for later quads

                    data[row + w] = data[row + w] & !mask;
                    w += 1;
                    assert(data@ =~= clear_rect(
                        before,
                        row + 1,
                        w - 1,
                        y as int,
                        height as int,
                    ));
                }
                proof {
                    lemma_run_rows(before, row + 1, w - 1, y as int, height as int);
                    assert(greedy_from(before, row as int, y as int) == seq![
                        GreedyQuad { x: row as u32, y: y, w: w as u32, h: height },
                    ] + greedy_from(data@, row as int, y + height));
                }
                let ghost quads_before = greedy_quads@;
                greedy_quads.push(GreedyQuad { x: row as u32, y, w: w as u32, h: height });
                y += height;
                assert(greedy_quads@ + greedy_from(data@, row as int, y as int) =~= quads_before
                    + greedy_from(before, row as int, y - height));
            }
        }
        row += 1;
    }
    greedy_quads
}

} // verus!
