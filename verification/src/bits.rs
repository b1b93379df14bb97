//! Rows and columns of voxels as bits of an integer, and what the bit
//! operations of the mesher do to single bits.

use vstd::prelude::*;

verus! {

/// Whether bit `i` of a 16-bit row is set. No bit is set outside `0..16`.
pub open spec fn bit16(v: u16, i: int) -> bool {
    0 <= i < 16 && (v >> (i as u16)) & 1u16 == 1u16
}

/// Whether bit `i` of a 64-bit column is set. No bit is set outside `0..64`.
pub open spec fn bit64(v: u64, i: int) -> bool {
    0 <= i < 64 && (v >> (i as u64)) & 1u64 == 1u64
}

/// The row with exactly the bits `0..h` set.
pub open spec fn low_mask16(h: int) -> u16 {
    if h >= 16 {
        0xffffu16
    } else if h <= 0 {
        0u16
    } else {
        ((1u16 << (h as u16)) - 1) as u16
    }
}

/// The row with exactly the bits `c..c + h` set, as far as they lie in the
/// row.
pub open spec fn span_mask16(c: int, h: int) -> u16 {
    low_mask16(h) << (c as u16)
}

/// The row `v` without the bits `c..c + h`.
pub open spec fn clear_span16(v: u16, c: int, h: int) -> u16 {
    v & !span_mask16(c, h)
}

/// Whether the bits `c..c + h` of a row are all set.
pub open spec fn span_set16(v: u16, c: int, h: int) -> bool {
    forall|j: int| c <= j < c + h ==> bit16(v, j)
}

proof fn lemma_shr16_bv(v: u16, y: u16, j: u16)
    by (bit_vector)
    requires
        y < 16,
        j < 16,
    ensures
        ((v >> y) >> j) & 1u16 == 1u16 <==> (y + j < 16 && (v >> ((y + j) as u16)) & 1u16 == 1u16),
{
}

/// Bit `j` of a row shifted right by `y` is bit `y + j` of the row.
pub proof fn lemma_shr16(v: u16, y: int, j: int)
    requires
        0 <= y < 16,
        0 <= j,
    ensures
        bit16(v >> (y as u16), j) == bit16(v, y + j),
{
    if j < 16 {
        lemma_shr16_bv(v, y as u16, j as u16);
    }
}

proof fn lemma_span_mask16_bv(c: u16, h: u16, j: u16)
    by (bit_vector)
    requires
        c < 16,
        1 <= h <= 16,
        c + h <= 16,
        j < 16,
    ensures
        (((if h >= 16 {
            0xffffu16
        } else {
            ((1u16 << h) - 1) as u16
        }) << c) >> j) & 1u16 == 1u16 <==> c <= j < c + h,
        ((if h >= 16 {
            0xffffu16
        } else {
            ((1u16 << h) - 1) as u16
        }) >> j) & 1u16 == 1u16 <==> j < h,
{
}

/// The span mask has exactly the bits of its span, the low mask exactly
/// the bits below its length.
pub proof fn lemma_span_mask16(c: int, h: int, j: int)
    requires
        0 <= c < 16,
        1 <= h,
        c + h <= 16,
    ensures
        bit16(span_mask16(c, h), j) <==> c <= j < c + h,
        bit16(low_mask16(h), j) <==> 0 <= j < h,
{
    if 0 <= j < 16 {
        lemma_span_mask16_bv(c as u16, h as u16, j as u16);
    }
}

proof fn lemma_and_not16_bv(a: u16, m: u16, j: u16)
    by (bit_vector)
    requires
        j < 16,
    ensures
        ((a & !m) >> j) & 1u16 == 1u16 <==> ((a >> j) & 1u16 == 1u16 && !((m >> j) & 1u16
            == 1u16)),
        ((a & m) >> j) & 1u16 == 1u16 <==> ((a >> j) & 1u16 == 1u16 && (m >> j) & 1u16 == 1u16),
        ((a | m) >> j) & 1u16 == 1u16 <==> ((a >> j) & 1u16 == 1u16 || (m >> j) & 1u16 == 1u16),
{
}

/// Bits of `a & !m`, of `a & m` and of `a | m`.
pub proof fn lemma_and_or16(a: u16, m: u16, j: int)
    ensures
        bit16(a & !m, j) == (bit16(a, j) && !bit16(m, j)),
        bit16(a & m, j) == (bit16(a, j) && bit16(m, j)),
        bit16(a | m, j) == (bit16(a, j) || bit16(m, j)),
{
    if 0 <= j < 16 {
        lemma_and_not16_bv(a, m, j as u16);
    }
}

proof fn lemma_one_shl16_bv(z: u16, j: u16)
    by (bit_vector)
    requires
        z < 16,
        j < 16,
    ensures
        ((1u16 << z) >> j) & 1u16 == 1u16 <==> j == z,
{
}

/// `1 << z` has bit `z` and no other.
pub proof fn lemma_one_shl16(z: int, j: int)
    requires
        0 <= z < 16,
    ensures
        bit16(1u16 << (z as u16), j) <==> j == z,
{
    if 0 <= j < 16 {
        lemma_one_shl16_bv(z as u16, j as u16);
    }
}

proof fn lemma_ext16_bv(a: u16, b: u16)
    by (bit_vector)
    requires
        ((a >> 0u16) & 1u16 == 1u16) == ((b >> 0u16) & 1u16 == 1u16),
        ((a >> 1u16) & 1u16 == 1u16) == ((b >> 1u16) & 1u16 == 1u16),
        ((a >> 2u16) & 1u16 == 1u16) == ((b >> 2u16) & 1u16 == 1u16),
        ((a >> 3u16) & 1u16 == 1u16) == ((b >> 3u16) & 1u16 == 1u16),
        ((a >> 4u16) & 1u16 == 1u16) == ((b >> 4u16) & 1u16 == 1u16),
        ((a >> 5u16) & 1u16 == 1u16) == ((b >> 5u16) & 1u16 == 1u16),
        ((a >> 6u16) & 1u16 == 1u16) == ((b >> 6u16) & 1u16 == 1u16),
        ((a >> 7u16) & 1u16 == 1u16) == ((b >> 7u16) & 1u16 == 1u16),
        ((a >> 8u16) & 1u16 == 1u16) == ((b >> 8u16) & 1u16 == 1u16),
        ((a >> 9u16) & 1u16 == 1u16) == ((b >> 9u16) & 1u16 == 1u16),
        ((a >> 10u16) & 1u16 == 1u16) == ((b >> 10u16) & 1u16 == 1u16),
        ((a >> 11u16) & 1u16 == 1u16) == ((b >> 11u16) & 1u16 == 1u16),
        ((a >> 12u16) & 1u16 == 1u16) == ((b >> 12u16) & 1u16 == 1u16),
        ((a >> 13u16) & 1u16 == 1u16) == ((b >> 13u16) & 1u16 == 1u16),
        ((a >> 14u16) & 1u16 == 1u16) == ((b >> 14u16) & 1u16 == 1u16),
        ((a >> 15u16) & 1u16 == 1u16) == ((b >> 15u16) & 1u16 == 1u16),
    ensures
        a == b,
{
}

/// Two rows with the same bits are the same row.
pub proof fn lemma_ext16(a: u16, b: u16)
    requires
        forall|j: int| 0 <= j < 16 ==> bit16(a, j) == bit16(b, j),
    ensures
        a == b,
{
    assert(bit16(a, 0) == bit16(b, 0));
    assert(bit16(a, 1) == bit16(b, 1));
    assert(bit16(a, 2) == bit16(b, 2));
    assert(bit16(a, 3) == bit16(b, 3));
    assert(bit16(a, 4) == bit16(b, 4));
    assert(bit16(a, 5) == bit16(b, 5));
    assert(bit16(a, 6) == bit16(b, 6));
    assert(bit16(a, 7) == bit16(b, 7));
    assert(bit16(a, 8) == bit16(b, 8));
    assert(bit16(a, 9) == bit16(b, 9));
    assert(bit16(a, 10) == bit16(b, 10));
    assert(bit16(a, 11) == bit16(b, 11));
    assert(bit16(a, 12) == bit16(b, 12));
    assert(bit16(a, 13) == bit16(b, 13));
    assert(bit16(a, 14) == bit16(b, 14));
    assert(bit16(a, 15) == bit16(b, 15));
    lemma_ext16_bv(a, b);
}

/// The row without bits is zero, and zero has no bits.
pub proof fn lemma_zero16(j: int)
    ensures
        !bit16(0u16, j),
{
    if 0 <= j < 16 {
        let ju = j as u16;
        assert((0u16 >> ju) & 1u16 == 0u16) by (bit_vector);
    }
}

/// The row `v` without a span has the bits of `v` outside the span.
pub proof fn lemma_clear_span16(v: u16, c: int, h: int, j: int)
    requires
        0 <= c < 16,
        1 <= h,
        c + h <= 16,
    ensures
        bit16(clear_span16(v, c, h), j) == (bit16(v, j) && !(c <= j < c + h)),
{
    lemma_span_mask16(c, h, j);
    lemma_and_or16(v, span_mask16(c, h), j);
}

/// A row shifted right by `c` and cut to `h` bits equals the mask of `h`
/// bits exactly when the span `c..c + h` of the row is all set.
pub proof fn lemma_span_test16(v: u16, c: int, h: int)
    requires
        0 <= c < 16,
        1 <= h,
        c + h <= 16,
    ensures
        ((v >> (c as u16)) & low_mask16(h)) == low_mask16(h) <==> span_set16(v, c, h),
{
    let got = (v >> (c as u16)) & low_mask16(h);
    assert forall|j: int| 0 <= j < 16 implies bit16(got, j) == (j < h && bit16(v, c + j)) by {
        lemma_and_or16(v >> (c as u16), low_mask16(h), j);
        lemma_shr16(v, c, j);
        lemma_span_mask16(c, h, j);
    }
    if span_set16(v, c, h) {
        assert forall|j: int| 0 <= j < 16 implies bit16(got, j) == bit16(low_mask16(h), j) by {
            lemma_span_mask16(c, h, j);
            if j < h {
                assert(bit16(v, c + j));
            }
        }
        lemma_ext16(got, low_mask16(h));
    }
    if got == low_mask16(h) {
        assert forall|j: int| c <= j < c + h implies bit16(v, j) by {
            lemma_span_mask16(c, h, j - c);
            assert(bit16(got, j - c));
        }
    }
}

proof fn lemma_set_bit64_bv(c: u64, y: u64, j: u64)
    by (bit_vector)
    requires
        y < 64,
        j < 64,
    ensures
        ((c | (1u64 << y)) >> j) & 1u64 == 1u64 <==> ((c >> j) & 1u64 == 1u64 || j == y),
{
}

/// `c | 1 << y` has the bits of `c` and bit `y`.
pub proof fn lemma_set_bit64(c: u64, y: int, j: int)
    requires
        0 <= y < 64,
    ensures
        bit64(c | (1u64 << (y as u64)), j) == (bit64(c, j) || j == y),
{
    if 0 <= j < 64 {
        lemma_set_bit64_bv(c, y as u64, j as u64);
    }
}

proof fn lemma_edges64_bv(c: u64, j: u64)
    by (bit_vector)
    requires
        j < 63,
    ensures
        ((c & !(c >> 1u64)) >> j) & 1u64 == 1u64 <==> ((c >> j) & 1u64 == 1u64 && !((c >> ((j
            + 1) as u64)) & 1u64 == 1u64)),
        j >= 1 ==> (((c & !(c << 1u64)) >> j) & 1u64 == 1u64 <==> ((c >> j) & 1u64 == 1u64 && !((c
            >> ((j - 1) as u64)) & 1u64 == 1u64))),
{
}

/// In `c & !(c >> 1)` a bit is set where it is set in `c` and the next
/// higher bit is not; in `c & !(c << 1)` where it is set in `c` and the
/// next lower bit is not.
pub proof fn lemma_edges64(c: u64, j: int)
    requires
        1 <= j < 63,
    ensures
        bit64(c & !(c >> 1u64), j) == (bit64(c, j) && !bit64(c, j + 1)),
        bit64(c & !(c << 1u64), j) == (bit64(c, j) && !bit64(c, j - 1)),
{
    lemma_edges64_bv(c, j as u64);
}

proof fn lemma_strip64_bv(f: u64, j: u64)
    by (bit_vector)
    requires
        j < 63,
    ensures
        (((f >> 1u64) & !(1u64 << 16u64)) >> j) & 1u64 == 1u64 <==> (j != 16 && (f >> ((j
            + 1) as u64)) & 1u64 == 1u64),
{
}

/// `(f >> 1) & !(1 << 16)` has bit `j` where `f` has bit `j + 1`, but for
/// bit 16, which it has not.
pub proof fn lemma_strip64(f: u64, j: int)
    requires
        0 <= j < 63,
    ensures
        bit64((f >> 1u64) & !(1u64 << 16u64), j) == (j != 16 && bit64(f, j + 1)),
{
    lemma_strip64_bv(f, j as u64);
}

proof fn lemma_drop_lowest64_bv(c: u64, t: u64, j: u64)
    by (bit_vector)
    requires
        c != 0,
        t < 64,
        j < 64,
        (c >> t) & 1u64 == 1u64,
        c << ((64 - t) as u64) == 0 || t == 0,
    ensures
        ((c & ((c - 1) as u64)) >> j) & 1u64 == 1u64 <==> ((c >> j) & 1u64 == 1u64 && j != t),
        c & ((c - 1) as u64) < c,
{
}

/// `c & (c - 1)` is `c` without its lowest set bit, the bit at the number
/// of trailing zeros of `c`, and is smaller than `c`.
pub proof fn lemma_drop_lowest64(c: u64, j: int)
    requires
        c != 0,
    ensures
        0 <= vstd::std_specs::bits::u64_trailing_zeros(c) < 64,
        bit64(c, vstd::std_specs::bits::u64_trailing_zeros(c) as int),
        bit64(c & ((c - 1) as u64), j) == (bit64(c, j) && j
            != vstd::std_specs::bits::u64_trailing_zeros(c)),
        c & ((c - 1) as u64) < c,
{
    vstd::std_specs::bits::axiom_u64_trailing_zeros(c);
    let t = vstd::std_specs::bits::u64_trailing_zeros(c) as u64;
    if 0 <= j < 64 {
        lemma_drop_lowest64_bv(c, t, j as u64);
    } else {
        lemma_drop_lowest64_bv(c, t, 0);
    }
}

proof fn lemma_small64_bv(c: u64, j: u64)
    by (bit_vector)
    requires
        c < 0x10000,
        16 <= j < 64,
    ensures
        (c >> j) & 1u64 == 0,
{
}

/// A column below 2^16 has no bit from 16 on.
pub proof fn lemma_small64(c: u64, j: int)
    requires
        c < 0x10000,
        16 <= j,
    ensures
        !bit64(c, j),
{
    if j < 64 {
        lemma_small64_bv(c, j as u64);
    }
}

/// Columns of the padded neighbourhood stay below 2^18 under the
/// operations of the mesher, and come below 2^16 when the padding is
/// stripped.
pub proof fn lemma_column_bounds(c: u64, m: u64, y: u64)
    by (bit_vector)
    requires
        c < 0x40000,
        y < 18,
    ensures
        (c | (1u64 << y)) < 0x40000,
        (c & m) < 0x40000,
        ((c >> 1u64) & !(1u64 << 16u64)) < 0x10000,
        (c & m) <= c,
{
}

/// Zero has no bits.
pub proof fn lemma_zero64(j: int)
    ensures
        !bit64(0u64, j),
{
    if 0 <= j < 64 {
        let ju = j as u64;
        assert((0u64 >> ju) & 1u64 == 0u64) by (bit_vector);
    }
}

/// The row whose bit `j`, for `j` in `0..n`, is set exactly where
/// `cells(j)` holds.
pub open spec fn row_with_bits(cells: spec_fn(int) -> bool, n: int) -> u16
    decreases n,
{
    if n <= 0 {
        0u16
    } else if cells(n - 1) {
        row_with_bits(cells, n - 1) | (1u16 << ((n - 1) as u16))
    } else {
        row_with_bits(cells, n - 1)
    }
}

/// The bits of [`row_with_bits`].
pub proof fn lemma_row_with_bits(cells: spec_fn(int) -> bool, n: int, j: int)
    requires
        0 <= n <= 16,
    ensures
        bit16(row_with_bits(cells, n), j) == (0 <= j < n && cells(j)),
    decreases n,
{
    if n <= 0 {
        lemma_zero16(j);
    } else {
        lemma_row_with_bits(cells, n - 1, j);
        lemma_and_or16(row_with_bits(cells, n - 1), 1u16 << ((n - 1) as u16), j);
        lemma_one_shl16(n - 1, j);
    }
}

} // verus!
