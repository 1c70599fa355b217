//! Row-major flat scalar fields and their coordinate arithmetic.
//!
//! Every field of the pipeline is a flat array of `width * height` cells,
//! the cell at column `x` and row `y` stored at index `y * width + x`.
use vstd::prelude::*;

verus! {

/// Clamps a coordinate into `[0, hi]`: the edge-replicate border policy that
/// every neighbour access of the pipeline uses.
pub open spec fn clamp_coord(v: int, hi: int) -> int {
    if v < 0 {
        0
    } else if v > hi {
        hi
    } else {
        v
    }
}

/// A `u32` scalar field seen as a sequence of mathematical integers.
pub open spec fn int_field32(s: Seq<u32>) -> Seq<int> {
    Seq::new(s.len(), |i: int| s[i] as int)
}

/// A `u64` scalar field seen as a sequence of mathematical integers.
pub open spec fn int_field64(s: Seq<u64>) -> Seq<int> {
    Seq::new(s.len(), |i: int| s[i] as int)
}

/// A sequence of column indices seen as mathematical integers.
pub open spec fn int_cols(s: Seq<usize>) -> Seq<int> {
    Seq::new(s.len(), |i: int| s[i] as int)
}

/// A cell of a `width * height` grid lies inside the flat array.
pub proof fn lemma_flat_index_bounds(w: int, h: int, x: int, y: int)
    requires
        0 <= x < w,
        0 <= y < h,
    ensures
        0 <= y * w + x < w * h,
{
    assert(0 <= y * w + x < w * h) by (nonlinear_arith)
        requires
            0 <= x < w,
            0 <= y < h,
    ;
}

/// Distinct cells of a grid have distinct flat indices.
pub proof fn lemma_flat_index_injective(w: int, x1: int, y1: int, x2: int, y2: int)
    requires
        0 <= x1 < w,
        0 <= x2 < w,
        y1 * w + x1 == y2 * w + x2,
    ensures
        x1 == x2,
        y1 == y2,
{
    assert(x1 == x2 && y1 == y2) by (nonlinear_arith)
        requires
            0 <= x1 < w,
            0 <= x2 < w,
            y1 * w + x1 == y2 * w + x2,
    ;
}

/// A flat index decomposes uniquely into its row `i / w` and column `i % w`.
pub proof fn lemma_flat_coords(i: int, w: int, h: int)
    requires
        w >= 1,
        0 <= i < w * h,
    ensures
        0 <= i % w < w,
        0 <= i / w < h,
        i == (i / w) * w + (i % w),
{
    assert((i / w) * w == w * (i / w)) by (nonlinear_arith);
    vstd::arithmetic::div_mod::lemma_fundamental_div_mod(i, w);
    vstd::arithmetic::div_mod::lemma_mod_bound(i, w);
    assert(0 <= i / w < h) by (nonlinear_arith)
        requires
            w >= 1,
            0 <= i < w * h,
            i == w * (i / w) + (i % w),
            0 <= i % w < w,
    ;
}

} // verus!
