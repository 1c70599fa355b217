//! Intensity extraction and gradient-based edge energy.
//!
//! Scalar values are exact fixed-point integers: a luminance of 1.0 (pure
//! white) is `LUMA_UNIT`, and the two 3x3 gradient kernels are applied with
//! their weights scaled by 8, so every stage is computed without rounding
//! until the final integer square root of the squared gradient magnitude.
use vstd::prelude::*;

use crate::grid::clamp_coord;
use crate::grid::int_field32;
use crate::grid::lemma_flat_index_bounds;

verus! {

/// The fixed-point luminance of pure white. The REC.601 weighting
/// `0.299 R + 0.587 G + 0.114 B` over channels scaled to `[0, 1]` is computed
/// exactly as `299 R + 587 G + 114 B` over the raw bytes, which places pure
/// black at 0 and pure white at `299*255 + 587*255 + 114*255 == 255000`.
pub const LUMA_UNIT: u32 = 255000;

/// The largest edge energy any intensity field bounded by `LUMA_UNIT` can
/// produce: the floor square root of `2 * (4 * LUMA_UNIT)^2`.
pub const ENERGY_LIMIT: u32 = 1442497;

/// REC.601 luma weighting of one RGB triple, in fixed point.
pub open spec fn luma_spec(r: u8, g: u8, b: u8) -> int {
    299 * r + 587 * g + 114 * b
}

/// Converts one RGB pixel to its luminance estimate, in fixed point
/// (0 is black, `LUMA_UNIT` is white).
pub fn intensity_from_rgb(rgb: [u8; 3]) -> (luma: u32)
    ensures
        luma == luma_spec(rgb[0], rgb[1], rgb[2]),
        luma <= LUMA_UNIT,
{
    299 * (rgb[0] as u32) + 587 * (rgb[1] as u32) + 114 * (rgb[2] as u32)
}

/// Converts an RGB pixel buffer (row-major, `width * height` pixels) to a
/// luminance field of the same length.
pub fn rgb_to_intensity(rgb: &Vec<[u8; 3]>, width: usize, height: usize) -> (out: Vec<u32>)
    requires
        width > 0,
        height > 0,
        rgb@.len() == width * height,
    ensures
        out@.len() == width * height,
        forall|i: int|
            0 <= i < out@.len() ==> out@[i] == luma_spec(rgb@[i][0], rgb@[i][1], rgb@[i][2]),
        forall|i: int| 0 <= i < out@.len() ==> out@[i] <= LUMA_UNIT,
{
    let mut out: Vec<u32> = Vec::with_capacity(rgb.len());
    let mut i: usize = 0;
    while i < rgb.len()
        invariant
            i <= rgb@.len(),
            out@.len() == i,
            forall|j: int|
                0 <= j < i ==> out@[j] == luma_spec(rgb@[j][0], rgb@[j][1], rgb@[j][2]),
            forall|j: int| 0 <= j < i ==> out@[j] <= LUMA_UNIT,
        decreases rgb@.len() - i,
    {
        out.push(intensity_from_rgb(rgb[i]));
        i += 1;
    }
    out
}

/// The intensity sample a convolution reads at offset coordinates that may
/// fall outside the grid: out-of-bounds coordinates are clamped to the
/// nearest in-bounds ones (edge replication).
pub open spec fn sample(f: Seq<int>, w: int, h: int, x: int, y: int) -> int {
    f[clamp_coord(y, h - 1) * w + clamp_coord(x, w - 1)]
}

/// Horizontal gradient response at a pixel, scaled by 8: the kernel
/// `[[-1/8, 0, 1/8], [-1/4, 0, 1/4], [-1/8, 0, 1/8]]` times 8.
pub open spec fn gx8_spec(f: Seq<int>, w: int, h: int, x: int, y: int) -> int {
    (sample(f, w, h, x + 1, y - 1) - sample(f, w, h, x - 1, y - 1)) + 2 * (sample(f, w, h, x + 1, y)
        - sample(f, w, h, x - 1, y)) + (sample(f, w, h, x + 1, y + 1) - sample(
        f,
        w,
        h,
        x - 1,
        y + 1,
    ))
}

/// Vertical gradient response at a pixel, scaled by 8: the kernel
/// `[[-1/8, -1/4, -1/8], [0, 0, 0], [1/8, 1/4, 1/8]]` times 8.
pub open spec fn gy8_spec(f: Seq<int>, w: int, h: int, x: int, y: int) -> int {
    (sample(f, w, h, x - 1, y + 1) - sample(f, w, h, x - 1, y - 1)) + 2 * (sample(f, w, h, x, y + 1)
        - sample(f, w, h, x, y - 1)) + (sample(f, w, h, x + 1, y + 1) - sample(
        f,
        w,
        h,
        x + 1,
        y - 1,
    ))
}

/// Squared gradient magnitude at a pixel (scaled by 64).
pub open spec fn grad2_spec(f: Seq<int>, w: int, h: int, x: int, y: int) -> int {
    gx8_spec(f, w, h, x, y) * gx8_spec(f, w, h, x, y) + gy8_spec(f, w, h, x, y) * gy8_spec(
        f,
        w,
        h,
        x,
        y,
    )
}

/// `r` is the floor of the square root of `v`.
pub open spec fn is_sqrt_floor(v: int, r: int) -> bool {
    0 <= r && r * r <= v && v < (r + 1) * (r + 1)
}

/// The floor of the square root of a non-negative integer.
pub open spec fn sqrt_floor(v: int) -> int {
    choose|r: int| is_sqrt_floor(v, r)
}

/// The edge energy of a pixel: the Euclidean gradient magnitude, rounded
/// down to an integer (and carrying the uniform scale of the field).
pub open spec fn energy_spec(f: Seq<int>, w: int, h: int, x: int, y: int) -> int {
    sqrt_floor(grad2_spec(f, w, h, x, y))
}

/// At most one integer is the floor square root of a given value.
pub proof fn lemma_sqrt_floor_unique(v: int, r1: int, r2: int)
    requires
        is_sqrt_floor(v, r1),
        is_sqrt_floor(v, r2),
    ensures
        r1 == r2,
{
    assert(r1 == r2) by (nonlinear_arith)
        requires
            0 <= r1,
            r1 * r1 <= v,
            v < (r1 + 1) * (r1 + 1),
            0 <= r2,
            r2 * r2 <= v,
            v < (r2 + 1) * (r2 + 1),
    ;
}

/// A witness for `is_sqrt_floor(v, _)` is exactly `sqrt_floor(v)`.
pub proof fn lemma_sqrt_floor_of(v: int, r: int)
    requires
        is_sqrt_floor(v, r),
    ensures
        sqrt_floor(v) == r,
{
    assert(is_sqrt_floor(v, sqrt_floor(v))) by {
        assert(exists|s: int| is_sqrt_floor(v, s));
    }
    lemma_sqrt_floor_unique(v, r, sqrt_floor(v));
}

/// Floor square root by binary search over `[0, 2^32]`, which brackets the
/// root of any `u64` value.
fn isqrt(v: u64) -> (r: u64)
    ensures
        is_sqrt_floor(v as int, r as int),
        r as int == sqrt_floor(v as int),
{
    let mut lo: u64 = 0;
    let mut hi: u64 = 0x1_0000_0000;
    while lo + 1 < hi
        invariant
            lo < hi <= 0x1_0000_0000,
            (lo as int) * (lo as int) <= v as int,
            (v as int) < (hi as int) * (hi as int),
        decreases hi - lo,
    {
        let mid = lo + (hi - lo) / 2;
        proof {
            assert((mid as int) * (mid as int) < 0x1_0000_0000_0000_0000) by (nonlinear_arith)
                requires
                    0 <= mid < 0x1_0000_0000,
            ;
        }
        if mid * mid <= v {
            lo = mid;
        } else {
            hi = mid;
        }
    }
    proof {
        lemma_sqrt_floor_of(v as int, lo as int);
    }
    lo
}

/// The clamped neighbour read of the convolution: the intensity at signed
/// offsets `(dx, dy)` from pixel `(x, y)`, with edge replication.
fn sample_at(
    intensity: &Vec<u32>,
    width: usize,
    height: usize,
    x: usize,
    y: usize,
    right: bool,
    left: bool,
    down: bool,
    up: bool,
) -> (s: u32)
    requires
        width > 0,
        height > 0,
        intensity@.len() == width * height,
        x < width,
        y < height,
        !(right && left),
        !(down && up),
    ensures
        s as int == sample(
            int_field32(intensity@),
            width as int,
            height as int,
            x + (if right { 1int } else if left { -1int } else { 0int }),
            y + (if down { 1int } else if up { -1int } else { 0int }),
        ),
{
    let cx = if right {
        if x < width - 1 { x + 1 } else { width - 1 }
    } else if left {
        if x > 0 { x - 1 } else { 0 }
    } else {
        x
    };
    let cy = if down {
        if y < height - 1 { y + 1 } else { height - 1 }
    } else if up {
        if y > 0 { y - 1 } else { 0 }
    } else {
        y
    };
    proof {
        vstd::std_specs::vec::axiom_spec_len(intensity);
        lemma_flat_index_bounds(width as int, height as int, cx as int, cy as int);
    }
    intensity[cy * width + cx]
}

/// The edge energy of one pixel of a bounded intensity field.
fn energy_at(intensity: &Vec<u32>, width: usize, height: usize, x: usize, y: usize) -> (e: u32)
    requires
        width > 0,
        height > 0,
        intensity@.len() == width * height,
        forall|i: int| 0 <= i < intensity@.len() ==> intensity@[i] <= LUMA_UNIT,
        x < width,
        y < height,
    ensures
        e as int == energy_spec(int_field32(intensity@), width as int, height as int, x as int, y as int),
        e <= ENERGY_LIMIT,
{
    let ghost f = int_field32(intensity@);
    let ghost wi = width as int;
    let ghost hi_ = height as int;
    let tl = sample_at(intensity, width, height, x, y, false, true, false, true);
    let tm = sample_at(intensity, width, height, x, y, false, false, false, true);
    let tr = sample_at(intensity, width, height, x, y, true, false, false, true);
    let ml = sample_at(intensity, width, height, x, y, false, true, false, false);
    let mr = sample_at(intensity, width, height, x, y, true, false, false, false);
    let bl = sample_at(intensity, width, height, x, y, false, true, true, false);
    let bm = sample_at(intensity, width, height, x, y, false, false, true, false);
    let br = sample_at(intensity, width, height, x, y, true, false, true, false);
    proof {
        assert forall|cx: int, cy: int|
            x - 1 <= cx <= x + 1 && y - 1 <= cy <= y + 1 implies 0 <= #[trigger] sample(
            f,
            wi,
            hi_,
            cx,
            cy,
        ) <= LUMA_UNIT by {
            lemma_flat_index_bounds(wi, hi_, clamp_coord(cx, wi - 1), clamp_coord(cy, hi_ - 1));
        }
    }

    let gx: i64 = (tr as i64 - tl as i64) + 2 * (mr as i64 - ml as i64) + (br as i64 - bl as i64);
    let gy: i64 = (bl as i64 - tl as i64) + 2 * (bm as i64 - tm as i64) + (br as i64 - tr as i64);
    proof {
        assert(gx as int == gx8_spec(f, wi, hi_, x as int, y as int));
        assert(gy as int == gy8_spec(f, wi, hi_, x as int, y as int));
        assert(0 <= gx * gx && gx * gx <= 1040400000000 && 0 <= gy * gy && gy * gy
            <= 1040400000000) by (nonlinear_arith)
            requires
                -1020000 <= gx <= 1020000,
                -1020000 <= gy <= 1020000,
        ;
    }
    let g2: u64 = (gx * gx + gy * gy) as u64;
    let e = isqrt(g2);
    proof {
        assert(e <= ENERGY_LIMIT) by (nonlinear_arith)
            requires
                0 <= e,
                (e as int) * (e as int) <= 2080800000000,
        ;
    }
    e as u32
}

/// Convolves an intensity field with the two gradient kernels and records,
/// per pixel, the rounded-down Euclidean gradient magnitude.
pub fn edge_detect(intensity: &Vec<u32>, width: usize, height: usize) -> (out: Vec<u32>)
    requires
        width > 0,
        height > 0,
        intensity@.len() == width * height,
        forall|i: int| 0 <= i < intensity@.len() ==> intensity@[i] <= LUMA_UNIT,
    ensures
        out@.len() == width * height,
        forall|x: int, y: int|
            0 <= x < width && 0 <= y < height ==> out@[y * width + x] as int == energy_spec(
                int_field32(intensity@),
                width as int,
                height as int,
                x,
                y,
            ),
        forall|i: int| 0 <= i < out@.len() ==> out@[i] <= ENERGY_LIMIT,
{
    let ghost f = int_field32(intensity@);
    let mut out: Vec<u32> = Vec::with_capacity(intensity.len());
    let mut y: usize = 0;
    while y < height
        invariant
            y <= height,
            width > 0,
            height > 0,
            intensity@.len() == width * height,
            forall|i: int| 0 <= i < intensity@.len() ==> intensity@[i] <= LUMA_UNIT,
            f == int_field32(intensity@),
            out@.len() == y * width,
            forall|xx: int, yy: int|
                0 <= xx < width && 0 <= yy < y ==> out@[yy * width + xx] as int == energy_spec(
                    f,
                    width as int,
                    height as int,
                    xx,
                    yy,
                ),
            forall|i: int| 0 <= i < out@.len() ==> out@[i] <= ENERGY_LIMIT,
        decreases height - y,
    {
        let mut x: usize = 0;
        while x < width
            invariant
                x <= width,
                y < height,
                width > 0,
                height > 0,
                intensity@.len() == width * height,
                forall|i: int| 0 <= i < intensity@.len() ==> intensity@[i] <= LUMA_UNIT,
                f == int_field32(intensity@),
                out@.len() == y * width + x,
                forall|xx: int, yy: int|
                    0 <= xx < width && 0 <= yy < y ==> out@[yy * width + xx] as int == energy_spec(
                        f,
                        width as int,
                        height as int,
                        xx,
                        yy,
                    ),
                forall|xx: int|
                    0 <= xx < x ==> out@[y * width + xx] as int == energy_spec(
                        f,
                        width as int,
                        height as int,
                        xx,
                        y as int,
                    ),
                forall|i: int| 0 <= i < out@.len() ==> out@[i] <= ENERGY_LIMIT,
            decreases width - x,
        {
            proof {
                lemma_flat_index_bounds(width as int, height as int, x as int, y as int);
            }
            let e = energy_at(intensity, width, height, x, y);
            let ghost snap = out@;
            out.push(e);
            proof {
                assert forall|xx: int, yy: int|
                    0 <= xx < width && 0 <= yy < y implies out@[yy * width + xx] as int
                    == energy_spec(f, width as int, height as int, xx, yy) by {
                    assert(0 <= yy * width + xx < y * width + x) by (nonlinear_arith)
                        requires
                            0 <= xx < width,
                            0 <= yy < y,
                            0 <= x,
                    ;
                    assert(out@[yy * width + xx] == snap[yy * width + xx]);
                }
                assert forall|xx: int|
                    0 <= xx <= x implies out@[y * width + xx] as int == energy_spec(
                    f,
                    width as int,
                    height as int,
                    xx,
                    y as int,
                ) by {
                    if xx < x {
                        assert(out@[y * width + xx] == snap[y * width + xx]);
                    } else {
                        assert(out@[y * width + xx] == e);
                    }
                }
            }
            x += 1;
        }
        proof {
            assert((y + 1) * width == y * width + width) by (nonlinear_arith);
            assert forall|xx: int, yy: int|
                0 <= xx < width && 0 <= yy < y + 1 implies out@[yy * width + xx] as int
                == energy_spec(f, width as int, height as int, xx, yy) by {
                assert(0 <= yy * width + xx < y * width + width) by (nonlinear_arith)
                    requires
                        0 <= xx < width,
                        0 <= yy <= y,
                ;
            }
        }
        y += 1;
    }
    proof {
        assert(y == height);
        assert(out@.len() == height * width);
        assert(height * width == width * height) by (nonlinear_arith);
    }
    out
}

/// A uniform intensity field has no gradient: every pixel's edge energy is
/// exactly zero, whatever the shared value is.
pub proof fn lemma_flat_field_zero_energy(f: Seq<int>, w: int, h: int, c: int, x: int, y: int)
    requires
        w >= 1,
        h >= 1,
        f.len() == w * h,
        forall|i: int| 0 <= i < f.len() ==> f[i] == c,
        0 <= x < w,
        0 <= y < h,
    ensures
        energy_spec(f, w, h, x, y) == 0,
{
    assert forall|cx: int, cy: int|
        x - 1 <= cx <= x + 1 && y - 1 <= cy <= y + 1 implies sample(f, w, h, cx, cy) == c by {
        lemma_flat_index_bounds(w, h, clamp_coord(cx, w - 1), clamp_coord(cy, h - 1));
    }
    assert(gx8_spec(f, w, h, x, y) == 0);
    assert(gy8_spec(f, w, h, x, y) == 0);
    assert(grad2_spec(f, w, h, x, y) == 0);
    lemma_sqrt_floor_of(0, 0);
}

} // verus!
