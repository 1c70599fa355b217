//! Minimum-energy accumulation and vertical seam extraction.
//!
//! The accumulator is the classic seam-carving dynamic program, computed
//! bottom-up: each cell ends up holding the minimum cumulative energy of any
//! downward path starting there, so the top row holds full path sums. A seam
//! is then located by backtracking from the cheapest top-row column, and
//! seams are extracted repeatedly while the field narrows by one column.
use vstd::prelude::*;

use crate::grid::clamp_coord;
use crate::grid::int_field32;
use crate::grid::lemma_flat_index_bounds;
use crate::grid::lemma_flat_index_injective;

verus! {

/// The smaller of two integers.
pub open spec fn min2(a: int, b: int) -> int {
    if a <= b {
        a
    } else {
        b
    }
}

/// The smallest of three integers.
pub open spec fn min3(a: int, b: int, c: int) -> int {
    min2(min2(a, b), c)
}

/// Minimum cumulative energy of any downward path starting at `(x, y)`: the
/// cell's own energy plus the cheapest of the three cells directly below it
/// (columns clamped at the sides), with the bottom row as the base case.
pub open spec fn acc_spec(e: Seq<int>, w: int, h: int, x: int, y: int) -> int
    decreases h - y,
{
    if y >= h - 1 {
        e[y * w + x]
    } else {
        e[y * w + x] + min3(
            acc_spec(e, w, h, clamp_coord(x - 1, w - 1), y + 1),
            acc_spec(e, w, h, x, y + 1),
            acc_spec(e, w, h, clamp_coord(x + 1, w - 1), y + 1),
        )
    }
}

/// Accumulated energy is at least the cell's own energy and at most the
/// number of rows at or below the cell times the largest energy present.
pub proof fn lemma_acc_bounds(e: Seq<int>, w: int, h: int, x: int, y: int, m: int)
    requires
        w >= 1,
        h >= 1,
        e.len() == w * h,
        forall|i: int| 0 <= i < e.len() ==> 0 <= #[trigger] e[i] <= m,
        0 <= x < w,
        0 <= y < h,
    ensures
        e[y * w + x] <= acc_spec(e, w, h, x, y),
        acc_spec(e, w, h, x, y) <= (h - y) * m,
        0 <= acc_spec(e, w, h, x, y),
    decreases h - y,
{
    lemma_flat_index_bounds(w, h, x, y);
    if y >= h - 1 {
        assert((h - y) * m == m) by (nonlinear_arith)
            requires
                h - y == 1,
        ;
    } else {
        lemma_acc_bounds(e, w, h, clamp_coord(x - 1, w - 1), y + 1, m);
        lemma_acc_bounds(e, w, h, x, y + 1, m);
        lemma_acc_bounds(e, w, h, clamp_coord(x + 1, w - 1), y + 1, m);
        assert((h - y) * m == (h - (y + 1)) * m + m) by (nonlinear_arith);
    }
}

/// Runs the bottom-up dynamic-programming pass over an energy field: the
/// result holds, per cell, the cell's energy plus the minimum cumulative
/// energy of any downward path starting directly below it. The bottom row is
/// returned unchanged, and no cell shrinks below its input energy. The
/// height bound keeps the widest possible column sum inside the `u64`
/// accumulator.
pub fn min_vert_energy(energy: &Vec<u32>, width: usize, height: usize) -> (out: Vec<u64>)
    requires
        width > 0,
        height > 0,
        energy@.len() == width * height,
        height <= 0x1_0000_0000,
    ensures
        out@.len() == width * height,
        forall|x: int, y: int|
            0 <= x < width && 0 <= y < height ==> out@[y * width + x] as int == acc_spec(
                int_field32(energy@),
                width as int,
                height as int,
                x,
                y,
            ),
        forall|i: int| 0 <= i < out@.len() ==> #[trigger] out@[i] >= energy@[i],
        forall|i: int|
            (height - 1) * width <= i < width * height ==> #[trigger] out@[i] == energy@[i] as u64,
{
    let ghost e = int_field32(energy@);
    let ghost wi = width as int;
    let ghost hg = height as int;
    proof {
        assert forall|i: int| 0 <= i < e.len() implies 0 <= #[trigger] e[i] <= 0xFFFF_FFFFu32 by {}
    }
    let len = energy.len();
    let mut out: Vec<u64> = Vec::with_capacity(len);
    let mut i: usize = 0;
    while i < len
        invariant
            i <= len,
            len == energy@.len(),
            out@.len() == i,
            forall|j: int| 0 <= j < i ==> out@[j] == energy@[j] as u64,
        decreases len - i,
    {
        out.push(energy[i] as u64);
        i += 1;
    }
    proof {
        assert forall|xx: int, yy: int|
            0 <= xx < width && height - 1 <= yy < height implies out@[yy * width + xx] as int
            == acc_spec(e, wi, hg, xx, yy) by {
            lemma_flat_index_bounds(wi, hg, xx, yy);
        }
        assert((height - 1) * width <= width * height) by (nonlinear_arith)
            requires
                width >= 0,
                height >= 1,
        ;
    }
    let mut y: usize = height - 1;
    while y > 0
        invariant
            y <= height - 1,
            width > 0,
            height > 0,
            height <= 0x1_0000_0000,
            energy@.len() == width * height,
            e == int_field32(energy@),
            wi == width as int,
            hg == height as int,
            out@.len() == width * height,
            forall|xx: int, yy: int|
                0 <= xx < width && y <= yy < height ==> out@[yy * width + xx] as int == acc_spec(
                    e,
                    wi,
                    hg,
                    xx,
                    yy,
                ),
            forall|j: int| 0 <= j < y * width ==> #[trigger] out@[j] == energy@[j] as u64,
        decreases y,
    {
        let ry = y - 1;
        proof {
            assert(ry * width <= y * width <= width * height) by (nonlinear_arith)
                requires
                    0 <= ry <= y <= height,
                    0 <= width,
            ;
        }
        let mut x: usize = 0;
        while x < width
            invariant
                x <= width,
                ry == y - 1,
                1 <= y <= height - 1,
                width > 0,
                height > 0,
                height <= 0x1_0000_0000,
                energy@.len() == width * height,
                e == int_field32(energy@),
                wi == width as int,
                hg == height as int,
                out@.len() == width * height,
                forall|xx: int, yy: int|
                    0 <= xx < width && y <= yy < height ==> out@[yy * width + xx] as int
                        == acc_spec(e, wi, hg, xx, yy),
                forall|xx: int|
                    0 <= xx < x ==> out@[ry * width + xx] as int == acc_spec(e, wi, hg, xx, ry as int),
                forall|j: int|
                    ry * width + x <= j < y * width ==> #[trigger] out@[j] == energy@[j] as u64,
                forall|j: int| 0 <= j < ry * width ==> #[trigger] out@[j] == energy@[j] as u64,
            decreases width - x,
        {
            let xm = if x > 0 { x - 1 } else { 0 };
            let xp = if x < width - 1 { x + 1 } else { width - 1 };
            proof {
                vstd::std_specs::vec::axiom_spec_len(energy);
                lemma_flat_index_bounds(wi, hg, xm as int, y as int);
                lemma_flat_index_bounds(wi, hg, x as int, y as int);
                lemma_flat_index_bounds(wi, hg, xp as int, y as int);
                lemma_flat_index_bounds(wi, hg, x as int, ry as int);
            }
            let a = out[y * width + xm];
            let b = out[y * width + x];
            let c = out[y * width + xp];
            let m = if a <= b {
                if a <= c {
                    a
                } else {
                    c
                }
            } else {
                if b <= c {
                    b
                } else {
                    c
                }
            };
            proof {
                assert(m as int == min3(
                    acc_spec(e, wi, hg, xm as int, y as int),
                    acc_spec(e, wi, hg, x as int, y as int),
                    acc_spec(e, wi, hg, xp as int, y as int),
                ));
                lemma_acc_bounds(e, wi, hg, x as int, ry as int, 0xFFFF_FFFF);
                assert((hg - ry) * 0xFFFF_FFFF <= 0x1_0000_0000 * 0xFFFF_FFFFint)
                    by (nonlinear_arith)
                    requires
                        0 <= hg - ry <= 0x1_0000_0000,
                ;
            }
            let v = energy[ry * width + x] as u64 + m;
            let ghost snap = out@;
            out[ry * width + x] = v;
            proof {
                assert(v as int == acc_spec(e, wi, hg, x as int, ry as int));
                assert forall|xx: int, yy: int|
                    0 <= xx < width && y <= yy < height implies out@[yy * width + xx] as int
                    == acc_spec(e, wi, hg, xx, yy) by {
                    lemma_flat_index_bounds(wi, hg, xx, yy);
                    if yy * width + xx == ry * width + x {
                        lemma_flat_index_injective(wi, xx, yy, x as int, ry as int);
                    } else {
                        assert(out@[yy * width + xx] == snap[yy * width + xx]);
                    }
                }
                assert forall|xx: int|
                    0 <= xx <= x implies out@[ry * width + xx] as int == acc_spec(
                    e,
                    wi,
                    hg,
                    xx,
                    ry as int,
                ) by {
                    if xx < x {
                        assert(out@[ry * width + xx] == snap[ry * width + xx]);
                    } else {
                        assert(out@[ry * width + xx] == v);
                    }
                }
                assert forall|j: int|
                    ry * width + x + 1 <= j < y * width implies #[trigger] out@[j] == energy@[
                    j] as u64 by {
                    assert(out@[j] == snap[j]);
                }
                assert forall|j: int| 0 <= j < ry * width implies #[trigger] out@[j] == energy@[
                    j] as u64 by {
                    assert(out@[j] == snap[j]);
                }
            }
            x += 1;
        }
        y = ry;
    }
    proof {
        assert forall|j: int| 0 <= j < out@.len() implies #[trigger] out@[j] >= energy@[j] by {
            crate::grid::lemma_flat_coords(j, wi, hg);
            lemma_acc_bounds(e, wi, hg, j % wi, j / wi, 0xFFFF_FFFF);
            assert(out@[(j / wi) * wi + (j % wi)] as int == acc_spec(e, wi, hg, j % wi, j / wi));
        }
        assert forall|j: int|
            (height - 1) * width <= j < width * height implies #[trigger] out@[j] == energy@[
            j] as u64 by {
            crate::grid::lemma_flat_coords(j, wi, hg);
            assert(j / wi == hg - 1) by (nonlinear_arith)
                requires
                    wi >= 1,
                    j == (j / wi) * wi + (j % wi),
                    0 <= j % wi < wi,
                    (hg - 1) * wi <= j,
                    j < wi * hg,
            ;
            assert(out@[(j / wi) * wi + (j % wi)] as int == acc_spec(e, wi, hg, j % wi, j / wi));
        }
    }
    out
}

/// Index of the first occurrence of the minimum of a non-empty sequence:
/// everything before it is strictly larger, nothing anywhere is smaller.
pub open spec fn argmin_first(s: Seq<int>) -> int
    decreases s.len(),
{
    if s.len() <= 1 {
        0
    } else {
        let rest = 1 + argmin_first(s.subrange(1, s.len() as int));
        if s[0] <= s[rest] {
            0
        } else {
            rest
        }
    }
}

/// `argmin_first` points at the minimum, and every entry left of it is
/// strictly larger than the minimum.
pub proof fn lemma_argmin_first_props(s: Seq<int>)
    requires
        s.len() >= 1,
    ensures
        0 <= argmin_first(s) < s.len(),
        forall|i: int| 0 <= i < s.len() ==> s[argmin_first(s)] <= #[trigger] s[i],
        forall|i: int| 0 <= i < argmin_first(s) ==> #[trigger] s[i] > s[argmin_first(s)],
    decreases s.len(),
{
    if s.len() > 1 {
        let t = s.subrange(1, s.len() as int);
        lemma_argmin_first_props(t);
        let a = argmin_first(s);
        assert forall|i: int| 0 <= i < s.len() implies s[a] <= #[trigger] s[i] by {
            if i >= 1 {
                assert(t[i - 1] == s[i]);
                assert(t[argmin_first(t)] <= t[i - 1]);
            }
        }
        assert forall|i: int| 0 <= i < a implies #[trigger] s[i] > s[a] by {
            if i >= 1 {
                assert(t[i - 1] == s[i]);
                assert(t[i - 1] > t[argmin_first(t)]);
            } else {
                assert(t[argmin_first(t)] == s[a]);
            }
        }
    }
}

/// Any index with the first-minimum properties is `argmin_first`.
pub proof fn lemma_argmin_first_unique(s: Seq<int>, k: int)
    requires
        s.len() >= 1,
        0 <= k < s.len(),
        forall|i: int| 0 <= i < s.len() ==> s[k] <= #[trigger] s[i],
        forall|i: int| 0 <= i < k ==> #[trigger] s[i] > s[k],
    ensures
        k == argmin_first(s),
{
    lemma_argmin_first_props(s);
    let a = argmin_first(s);
    if a < k {
        assert(s[a] > s[k]);
        assert(s[a] <= s[k]);
    } else if k < a {
        assert(s[k] > s[a]);
        assert(s[k] <= s[a]);
    }
}

/// The column a seam passes through in row `y` of an accumulated
/// minimum-energy field: row 0 starts at the cheapest top-row column, and
/// each later row picks the cheapest of the up-to-three candidates under the
/// previous column (clamped at the sides), always breaking ties towards the
/// leftmost candidate.
pub open spec fn seam_col(acc: Seq<int>, w: int, h: int, y: int) -> int
    decreases y,
{
    if y <= 0 {
        argmin_first(acc.subrange(0, w))
    } else {
        let p = seam_col(acc, w, h, y - 1);
        let lo = if p - 1 >= 0 {
            p - 1
        } else {
            0
        };
        let hi = if p + 1 <= w - 1 {
            p + 1
        } else {
            w - 1
        };
        lo + argmin_first(acc.subrange(y * w + lo, y * w + hi + 1))
    }
}

/// Every seam column is a valid column, and consecutive seam columns differ
/// by at most one.
pub proof fn lemma_seam_col_props(acc: Seq<int>, w: int, h: int, y: int)
    requires
        w >= 1,
        h >= 1,
        acc.len() == w * h,
        0 <= y < h,
    ensures
        0 <= seam_col(acc, w, h, y) < w,
        y >= 1 ==> seam_col(acc, w, h, y - 1) - 1 <= seam_col(acc, w, h, y) <= seam_col(
            acc,
            w,
            h,
            y - 1,
        ) + 1,
    decreases y,
{
    if y <= 0 {
        lemma_flat_index_bounds(w, h, w - 1, 0);
        lemma_argmin_first_props(acc.subrange(0, w));
    } else {
        lemma_seam_col_props(acc, w, h, y - 1);
        let p = seam_col(acc, w, h, y - 1);
        let lo = if p - 1 >= 0 {
            p - 1
        } else {
            0
        };
        let hi = if p + 1 <= w - 1 {
            p + 1
        } else {
            w - 1
        };
        lemma_flat_index_bounds(w, h, hi, y);
        lemma_flat_index_bounds(w, h, lo, y);
        lemma_argmin_first_props(acc.subrange(y * w + lo, y * w + hi + 1));
    }
}

/// Backtracks one vertical seam through an accumulated minimum-energy field:
/// per row the chosen column, starting at the cheapest top-row column and
/// following the cheapest candidate below, leftmost tie-break throughout.
/// Consecutive entries differ by at most one column.
pub fn find_vert_seam(min_energy: &Vec<u64>, width: usize, height: usize) -> (seam: Vec<usize>)
    requires
        width > 0,
        height > 0,
        min_energy@.len() == width * height,
    ensures
        seam@.len() == height,
        forall|y: int|
            0 <= y < height ==> #[trigger] seam@[y] as int == seam_col(
                crate::grid::int_field64(min_energy@),
                width as int,
                height as int,
                y,
            ),
        forall|y: int| 0 <= y < height ==> #[trigger] seam@[y] < width,
        forall|y: int|
            0 <= y < height - 1 ==> #[trigger] seam@[y] as int - 1 <= seam@[y + 1] as int
                <= seam@[y] as int + 1,
{
    let ghost f = crate::grid::int_field64(min_energy@);
    let ghost wi = width as int;
    let ghost hg = height as int;
    proof {
        assert(width <= width * height) by (nonlinear_arith)
            requires
                width >= 0,
                height >= 1,
        ;
    }
    let mut seam: Vec<usize> = Vec::with_capacity(height);
    let mut best: usize = 0;
    let mut sx: usize = 1;
    while sx < width
        invariant
            1 <= sx <= width,
            best < sx,
            width <= min_energy@.len(),
            forall|i: int| 0 <= i < sx ==> min_energy@[best as int] <= #[trigger] min_energy@[i],
            forall|i: int| 0 <= i < best ==> #[trigger] min_energy@[i] > min_energy@[best as int],
        decreases width - sx,
    {
        if min_energy[sx] < min_energy[best] {
            best = sx;
        }
        sx += 1;
    }
    proof {
        let row = f.subrange(0, wi);
        assert forall|i: int| 0 <= i < row.len() implies row[best as int] <= #[trigger] row[i] by {
            assert(row[i] == min_energy@[i] as int);
            assert(row[best as int] == min_energy@[best as int] as int);
        }
        assert forall|i: int| 0 <= i < best implies #[trigger] row[i] > row[best as int] by {
            assert(row[i] == min_energy@[i] as int);
            assert(row[best as int] == min_energy@[best as int] as int);
        }
        lemma_argmin_first_unique(row, best as int);
        assert(best as int == seam_col(f, wi, hg, 0));
    }
    seam.push(best);
    let mut prev: usize = best;
    let mut y: usize = 1;
    while y < height
        invariant
            1 <= y <= height,
            width > 0,
            height > 0,
            min_energy@.len() == width * height,
            f == crate::grid::int_field64(min_energy@),
            wi == width as int,
            hg == height as int,
            seam@.len() == y,
            prev < width,
            prev as int == seam_col(f, wi, hg, y - 1),
            forall|yy: int| 0 <= yy < y ==> #[trigger] seam@[yy] as int == seam_col(f, wi, hg, yy),
        decreases height - y,
    {
        let lo = if prev > 0 {
            prev - 1
        } else {
            0
        };
        let hi = if prev + 1 <= width - 1 {
            prev + 1
        } else {
            width - 1
        };
        proof {
            vstd::std_specs::vec::axiom_spec_len(min_energy);
            lemma_flat_index_bounds(wi, hg, lo as int, y as int);
            lemma_flat_index_bounds(wi, hg, hi as int, y as int);
        }
        let base = y * width;
        let mut nbest: usize = lo;
        if lo + 1 <= hi {
            if min_energy[base + lo + 1] < min_energy[base + nbest] {
                nbest = lo + 1;
            }
        }
        if lo + 2 <= hi {
            if min_energy[base + lo + 2] < min_energy[base + nbest] {
                nbest = lo + 2;
            }
        }
        proof {
            let sub = f.subrange(y * wi + lo, y * wi + hi + 1);
            assert(sub.len() == hi + 1 - lo);
            assert forall|i: int|
                0 <= i < sub.len() implies #[trigger] sub[i] == min_energy@[y * wi + lo
                + i] as int by {}
            assert forall|i: int|
                0 <= i < sub.len() implies sub[nbest - lo] <= #[trigger] sub[i] by {}
            assert forall|i: int|
                0 <= i < nbest - lo implies #[trigger] sub[i] > sub[nbest - lo] by {}
            lemma_argmin_first_unique(sub, nbest as int - lo as int);
            assert(nbest as int == seam_col(f, wi, hg, y as int));
        }
        seam.push(nbest);
        prev = nbest;
        y += 1;
    }
    proof {
        assert forall|yy: int| 0 <= yy < height implies #[trigger] seam@[yy] < width by {
            lemma_seam_col_props(f, wi, hg, yy);
        }
        assert forall|yy: int|
            0 <= yy < height - 1 implies #[trigger] seam@[yy] as int - 1 <= seam@[yy + 1] as int
            <= seam@[yy] as int + 1 by {
            lemma_seam_col_props(f, wi, hg, yy + 1);
        }
    }
    seam
}


/// The accumulated minimum-energy field of an energy field, as one flat
/// row-major sequence.
pub open spec fn acc_field_spec(e: Seq<int>, w: int, h: int) -> Seq<int> {
    Seq::new((w * h) as nat, |i: int| acc_spec(e, w, h, i % w, i / w))
}

/// The seam located in an energy field: accumulate bottom-up, then backtrack
/// from the cheapest top-row column.
pub open spec fn seam_of(e: Seq<int>, w: int, h: int) -> Seq<int> {
    Seq::new(h as nat, |y: int| seam_col(acc_field_spec(e, w, h), w, h, y))
}

/// The energy field after deleting, in every row, the single cell at that
/// row's seam column: each row closes up and the field narrows by one.
pub open spec fn remove_seam(e: Seq<int>, w: int, h: int, s: Seq<int>) -> Seq<int> {
    Seq::new(
        ((w - 1) * h) as nat,
        |i: int|
            {
                let y = i / (w - 1);
                let x = i % (w - 1);
                e[y * w + if x < s[y] {
                    x
                } else {
                    x + 1
                }]
            },
    )
}

/// The working energy field after the first `m` seams have been carved out:
/// each step locates the seam of the current field and removes it.
pub open spec fn peeled(e: Seq<int>, w: int, h: int, m: int) -> Seq<int>
    decreases m,
{
    if m <= 0 {
        e
    } else {
        let prev = peeled(e, w, h, m - 1);
        remove_seam(prev, w - (m - 1), h, seam_of(prev, w - (m - 1), h))
    }
}

/// The `n` seams found by repeated extraction. Seam `m` is located in the
/// field left after removing seams `0..m`, so its columns are relative to a
/// field of width `w - m`.
pub open spec fn seams_spec(e: Seq<int>, w: int, h: int, n: int) -> Seq<Seq<int>> {
    Seq::new(n as nat, |m: int| seam_of(peeled(e, w, h, m), w - m, h))
}

/// Carving narrows the field by exactly one column per seam removed.
pub proof fn lemma_peeled_len(e: Seq<int>, w: int, h: int, m: int)
    requires
        h >= 1,
        w >= 1,
        0 <= m <= w,
        e.len() == w * h,
    ensures
        peeled(e, w, h, m).len() == (w - m) * h,
    decreases m,
{
    if m > 0 {
        lemma_peeled_len(e, w, h, m - 1);
        assert(((w - (m - 1)) - 1) * h == (w - m) * h);
    }
}

/// Deletes, per row, the cell at the seam's column from a scalar field,
/// producing the same field narrowed by one column.
fn remove_seam_cells(field: &Vec<u32>, width: usize, height: usize, seam: &Vec<usize>) -> (out: Vec<
    u32,
>)
    requires
        width >= 1,
        height >= 1,
        field@.len() == width * height,
        seam@.len() == height,
        forall|y: int| 0 <= y < height ==> #[trigger] seam@[y] < width,
    ensures
        out@.len() == (width - 1) * height,
        int_field32(out@) == remove_seam(
            int_field32(field@),
            width as int,
            height as int,
            crate::grid::int_cols(seam@),
        ),
{
    let ghost rs = remove_seam(
        int_field32(field@),
        width as int,
        height as int,
        crate::grid::int_cols(seam@),
    );
    let w1 = width - 1;
    let mut out: Vec<u32> = Vec::new();
    let mut y: usize = 0;
    while y < height
        invariant
            y <= height,
            width >= 1,
            height >= 1,
            w1 == width - 1,
            field@.len() == width * height,
            seam@.len() == height,
            forall|yy: int| 0 <= yy < height ==> #[trigger] seam@[yy] < width,
            rs == remove_seam(
                int_field32(field@),
                width as int,
                height as int,
                crate::grid::int_cols(seam@),
            ),
            out@.len() == y * w1,
            forall|j: int| 0 <= j < y * w1 ==> #[trigger] out@[j] as int == rs[j],
        decreases height - y,
    {
        let sy = seam[y];
        let mut x: usize = 0;
        while x < w1
            invariant
                x <= w1,
                y < height,
                width >= 1,
                height >= 1,
                w1 == width - 1,
                field@.len() == width * height,
                seam@.len() == height,
                forall|yy: int| 0 <= yy < height ==> #[trigger] seam@[yy] < width,
                sy == seam@[y as int],
                rs == remove_seam(
                    int_field32(field@),
                    width as int,
                    height as int,
                    crate::grid::int_cols(seam@),
                ),
                out@.len() == y * w1 + x,
                forall|j: int| 0 <= j < y * w1 + x ==> #[trigger] out@[j] as int == rs[j],
            decreases w1 - x,
        {
            let src = if x < sy {
                x
            } else {
                x + 1
            };
            proof {
                vstd::std_specs::vec::axiom_spec_len(field);
                lemma_flat_index_bounds(width as int, height as int, src as int, y as int);
            }
            let v = field[y * width + src];
            let ghost snap = out@;
            out.push(v);
            proof {
                let j = y * (w1 as int) + x;
                vstd::arithmetic::div_mod::lemma_fundamental_div_mod_converse(
                    j,
                    w1 as int,
                    y as int,
                    x as int,
                );
                lemma_flat_index_bounds(w1 as int, height as int, x as int, y as int);
                assert(rs[j] == v as int);
                assert forall|jj: int|
                    0 <= jj < y * w1 + x + 1 implies #[trigger] out@[jj] as int == rs[jj] by {
                    if jj < y * w1 + x {
                        assert(out@[jj] == snap[jj]);
                    } else {
                        assert(out@[jj] == v);
                    }
                }
            }
            x += 1;
        }
        proof {
            assert((y + 1) * w1 == y * w1 + w1) by (nonlinear_arith);
        }
        y += 1;
    }
    proof {
        assert(out@.len() == (width - 1) * height) by (nonlinear_arith)
            requires
                out@.len() == y * w1,
                y == height,
                w1 == width - 1,
        ;
        assert forall|j: int| 0 <= j < rs.len() implies int_field32(out@)[j] == rs[j] by {
            assert(out@[j] as int == rs[j]);
        }
        assert(int_field32(out@) =~= rs);
    }
    out
}

/// Extracts `n` vertical seams from an energy field (the edge-energy output,
/// not the accumulated map). Each iteration accumulates the working field,
/// backtracks the cheapest seam, records it, and removes it from the working
/// field, so seam `m` is expressed in the coordinates of a field of width
/// `width - m`. The seams come out in extraction order: the cheapest first.
pub fn find_n_vert_seams(n: usize, energy: &Vec<u32>, width: usize, height: usize) -> (seams: Vec<
    Vec<usize>,
>)
    requires
        width > 0,
        height > 0,
        energy@.len() == width * height,
        n <= width,
        height <= 0x1_0000_0000,
    ensures
        seams@.len() == n,
        forall|m: int| 0 <= m < n ==> #[trigger] seams@[m]@.len() == height,
        forall|m: int|
            0 <= m < n ==> crate::grid::int_cols(#[trigger] seams@[m]@) == seams_spec(
                int_field32(energy@),
                width as int,
                height as int,
                n as int,
            )[m],
        forall|m: int, y: int|
            0 <= m < n && 0 <= y < height ==> #[trigger] seams@[m]@[y] < width - m,
        forall|m: int, y: int|
            0 <= m < n && 0 <= y < height - 1 ==> #[trigger] seams@[m]@[y] as int - 1
                <= seams@[m]@[y + 1] as int <= seams@[m]@[y] as int + 1,
{
    let ghost e0 = int_field32(energy@);
    let ghost wi = width as int;
    let ghost hg = height as int;
    let mut work: Vec<u32> = Vec::new();
    let mut i: usize = 0;
    while i < energy.len()
        invariant
            i <= energy@.len(),
            work@.len() == i,
            forall|j: int| 0 <= j < i ==> #[trigger] work@[j] == energy@[j],
        decreases energy@.len() - i,
    {
        work.push(energy[i]);
        i += 1;
    }
    proof {
        assert(int_field32(work@) =~= e0);
    }
    let mut seams: Vec<Vec<usize>> = Vec::new();
    let mut m: usize = 0;
    while m < n
        invariant
            m <= n,
            n <= width,
            width > 0,
            height > 0,
            height <= 0x1_0000_0000,
            energy@.len() == width * height,
            e0 == int_field32(energy@),
            wi == width as int,
            hg == height as int,
            work@.len() == (width - m) * height,
            int_field32(work@) == peeled(e0, wi, hg, m as int),
            seams@.len() == m,
            forall|k: int| 0 <= k < m ==> #[trigger] seams@[k]@.len() == height,
            forall|k: int|
                0 <= k < m ==> crate::grid::int_cols(#[trigger] seams@[k]@) == seam_of(
                    peeled(e0, wi, hg, k),
                    wi - k,
                    hg,
                ),
            forall|k: int, y: int|
                0 <= k < m && 0 <= y < height ==> #[trigger] seams@[k]@[y] < width - k,
            forall|k: int, y: int|
                0 <= k < m && 0 <= y < height - 1 ==> #[trigger] seams@[k]@[y] as int - 1
                    <= seams@[k]@[y + 1] as int <= seams@[k]@[y] as int + 1,
        decreases n - m,
    {
        let cur_w = width - m;
        let ghost pw = peeled(e0, wi, hg, m as int);
        let acc = min_vert_energy(&work, cur_w, height);
        let seam = find_vert_seam(&acc, cur_w, height);
        proof {
            assert(crate::grid::int_field64(acc@) =~= acc_field_spec(pw, cur_w as int, hg)) by {
                assert forall|j: int|
                    0 <= j < (cur_w as int) * hg implies crate::grid::int_field64(acc@)[j]
                    == acc_field_spec(pw, cur_w as int, hg)[j] by {
                    crate::grid::lemma_flat_coords(j, cur_w as int, hg);
                    assert(acc@[(j / (cur_w as int)) * (cur_w as int) + (j % (cur_w as int))] as int
                        == acc_spec(pw, cur_w as int, hg, j % (cur_w as int), j / (cur_w as int)));
                }
            }
            assert(crate::grid::int_cols(seam@) =~= seam_of(pw, cur_w as int, hg));
        }
        let new_work = remove_seam_cells(&work, cur_w, height, &seam);
        proof {
            assert(int_field32(new_work@) == peeled(e0, wi, hg, m as int + 1));
        }
        let ghost snap = seams@;
        seams.push(seam);
        work = new_work;
        proof {
            assert forall|k: int|
                0 <= k < m + 1 implies crate::grid::int_cols(#[trigger] seams@[k]@) == seam_of(
                peeled(e0, wi, hg, k),
                wi - k,
                hg,
            ) by {
                if k < m {
                    assert(seams@[k] == snap[k]);
                }
            }
        }
        m += 1;
    }
    proof {
        assert forall|k: int|
            0 <= k < n implies crate::grid::int_cols(#[trigger] seams@[k]@) == seams_spec(
            e0,
            wi,
            hg,
            n as int,
        )[k] by {}
    }
    seams
}

/// Extracts one seam per column: the degenerate full extraction, whose seam
/// order ranks every column of the image by removability.
pub fn find_all_vert_seams(energy: &Vec<u32>, width: usize, height: usize) -> (seams: Vec<
    Vec<usize>,
>)
    requires
        width > 0,
        height > 0,
        energy@.len() == width * height,
        height <= 0x1_0000_0000,
    ensures
        seams@.len() == width,
        forall|m: int|
            0 <= m < width ==> crate::grid::int_cols(#[trigger] seams@[m]@) == seams_spec(
                int_field32(energy@),
                width as int,
                height as int,
                width as int,
            )[m],
        forall|m: int| 0 <= m < width ==> #[trigger] seams@[m]@.len() == height,
{
    find_n_vert_seams(width, energy, width, height)
}

/// In a single-column field the seam can only ever sit in column 0: the top
/// row has one cell, and every candidate window below holds just column 0.
pub proof fn lemma_single_column_seam(acc: Seq<int>, h: int, y: int)
    requires
        h >= 1,
        acc.len() == h,
        0 <= y < h,
    ensures
        seam_col(acc, 1, h, y) == 0,
    decreases y,
{
    if y > 0 {
        lemma_single_column_seam(acc, h, y - 1);
    }
}

/// A multi-seam extraction from a one-column field only ever yields all-zero
/// seams (and at most one seam can be asked for).
pub proof fn lemma_single_column_seams(e: Seq<int>, h: int, n: int, m: int, y: int)
    requires
        h >= 1,
        e.len() == h,
        0 <= n <= 1,
        0 <= m < n,
        0 <= y < h,
    ensures
        seams_spec(e, 1, h, n)[m][y] == 0,
{
    lemma_single_column_seam(acc_field_spec(e, 1, h), h, y);
}

/// Every stage's contract equates its output with a spec-level function of
/// its input alone, so runs over equal inputs give equal outputs; stated for
/// the full extraction pipeline, which composes all the stages.
pub proof fn lemma_extraction_deterministic(
    s1: Seq<Seq<int>>,
    s2: Seq<Seq<int>>,
    e: Seq<int>,
    w: int,
    h: int,
    n: int,
)
    requires
        s1 == seams_spec(e, w, h, n),
        s2 == seams_spec(e, w, h, n),
    ensures
        s1 == s2,
{
}


} // verus!
