//! Self-guided restoration: box statistics over an edge-replicated window (through
//! integral images), a guided filter per radius, and the projection that blends the
//! passes with the source.
use vstd::prelude::*;
use crate::dsp::superres::clampi;
use crate::dsp::copy::{block_fits, block_written, block_rows_written, rows_state, row_partial, lemma_rows_write, lemma_rows_done, lemma_rows_block};
use crate::dsp::fwd_txfm::{raster, lemma_i64_shr};

verus! {

/// Parameters of the self-guided filter.
#[derive(Debug, Clone, Copy)]
pub struct SgrprojParams {
    /// Radius of pass 0 (0 skips the pass).
    pub r0: u8,
    /// Radius of pass 1 (0 skips the pass).
    pub r1: u8,
    /// Strength of pass 0.
    pub s0: i32,
    /// Strength of pass 1.
    pub s1: i32,
    /// Projection weights of the two passes (Q7); the source gets the rest of 128.
    pub xqd: [i32; 2],
}

/// Sample `(i, j)` of the source padded by `p` on every side with its edges replicated,
/// squared when `sq`.
pub open spec fn sg_val(src: Seq<u8>, stride: usize, w: usize, h: usize, p: int, i: int, j: int, sq: bool) -> int {
    let v = src[clampi(i - p, 0, h - 1) * stride + clampi(j - p, 0, w - 1)] as int;
    if sq { v * v } else { v }
}

/// Sum of the first `j` padded samples of padded row `i`.
pub open spec fn sg_rowpre(src: Seq<u8>, stride: usize, w: usize, h: usize, p: int, i: int, j: int, sq: bool) -> int
    decreases j,
{
    if j <= 0 { 0 } else { sg_rowpre(src, stride, w, h, p, i, j - 1, sq) + sg_val(src, stride, w, h, p, i, j - 1, sq) }
}

/// Sum of the padded samples above row `i` and left of column `j`.
pub open spec fn sg_pre(src: Seq<u8>, stride: usize, w: usize, h: usize, p: int, i: int, j: int, sq: bool) -> int
    decreases i,
{
    if i <= 0 { 0 } else { sg_pre(src, stride, w, h, p, i - 1, j, sq) + sg_rowpre(src, stride, w, h, p, i - 1, j, sq) }
}

/// Sum (of squares when `sq`) over the `(2p + 1)`-square window centered on pixel
/// `(r, c)`, edges replicated.
pub open spec fn sg_box(src: Seq<u8>, stride: usize, w: usize, h: usize, p: int, r: int, c: int, sq: bool) -> int {
    let (r1, c1) = (r + 2 * p + 1, c + 2 * p + 1);
    sg_pre(src, stride, w, h, p, r1, c1, sq) - sg_pre(src, stride, w, h, p, r, c1, sq)
        - sg_pre(src, stride, w, h, p, r1, c, sq) + sg_pre(src, stride, w, h, p, r, c, sq)
}

/// `1 / n` in Q12 for a window of `n = (2 radius + 1)^2` samples, rounded.
pub open spec fn sg_n_inv(radius: int) -> int {
    let n = (2 * radius + 1) * (2 * radius + 1);
    (4096 + n / 2) / n
}

/// The guided-filter output (Q4) at pixel `(r, c)` for `radius` and `strength`: with
/// the window mean and variance, `a = var / (var + strength)` (Q12, 1 when the
/// denominator is 0) and `b = (1 - a) * mean`, the result `a * x + b` in Q4.
pub open spec fn sg_out(src: Seq<u8>, stride: usize, w: usize, h: usize, radius: int, strength: int, r: int, c: int)
    -> int {
    let n_inv = sg_n_inv(radius);
    let sum = sg_box(src, stride, w, h, radius, r, c, false);
    let sum_sq = sg_box(src, stride, w, h, radius, r, c, true);
    let mean = (sum * n_inv + 2048) / 4096;
    let sq_mean = (sum_sq * n_inv + 2048) / 4096;
    let var = if sq_mean - mean * mean > 0 { sq_mean - mean * mean } else { 0 };
    let denom = var + strength;
    let a = if denom > 0 { (var * 4096) / denom } else { 4096 };
    let b = (4096 - a) * mean;
    (a * src[r * stride + c] + b + 128) / 256
}

/// The arithmetic of one guided pass stays within its 32-bit integers.
pub open spec fn sg_pass_ok(w: usize, h: usize, radius: int, strength: int) -> bool {
    &&& 1 <= w && 1 <= h && 1 <= radius <= 255
    &&& 0 <= strength <= 0x7ffd_0000
    &&& 510 * (h + 2 * radius) * (w + 2 * radius) + 255 <= i32::MAX
}

proof fn lemma_pre_zero_col(src: Seq<u8>, stride: usize, w: usize, h: usize, p: int, i: int, sq: bool)
    ensures sg_pre(src, stride, w, h, p, i, 0, sq) == 0,
    decreases i,
{
    if i > 0 {
        lemma_pre_zero_col(src, stride, w, h, p, i - 1, sq);
    }
}

proof fn lemma_val_bounds(src: Seq<u8>, stride: usize, w: usize, h: usize, p: int, i: int, j: int, sq: bool)
    ensures 0 <= sg_val(src, stride, w, h, p, i, j, sq) <= (if sq { 65025int } else { 255int }),
{
    let v = src[clampi(i - p, 0, h - 1) * stride + clampi(j - p, 0, w - 1)] as int;
    assert(0 <= v * v <= 65025) by (nonlinear_arith) requires 0 <= v <= 255;
}

proof fn lemma_rowpre_diff(src: Seq<u8>, stride: usize, w: usize, h: usize, p: int, i: int, j0: int, j1: int, sq: bool)
    requires 0 <= j0 <= j1,
    ensures
        0 <= sg_rowpre(src, stride, w, h, p, i, j1, sq) - sg_rowpre(src, stride, w, h, p, i, j0, sq)
            <= (if sq { 65025int } else { 255int }) * (j1 - j0),
    decreases j1 - j0,
{
    if j1 > j0 {
        lemma_rowpre_diff(src, stride, w, h, p, i, j0, j1 - 1, sq);
        lemma_val_bounds(src, stride, w, h, p, i, j1 - 1, sq);
    }
}

/// The window sum is a sum of `(r1 - r0) (c1 - c0)` samples.
proof fn lemma_rect_bounds(src: Seq<u8>, stride: usize, w: usize, h: usize, p: int, r0: int, r1: int, c0: int, c1: int,
    sq: bool)
    requires 0 <= r0 <= r1, 0 <= c0 <= c1,
    ensures
        ({
            let d = sg_pre(src, stride, w, h, p, r1, c1, sq) - sg_pre(src, stride, w, h, p, r0, c1, sq)
                - sg_pre(src, stride, w, h, p, r1, c0, sq) + sg_pre(src, stride, w, h, p, r0, c0, sq);
            0 <= d <= (if sq { 65025int } else { 255int }) * (r1 - r0) * (c1 - c0)
        }),
    decreases r1 - r0,
{
    if r1 > r0 {
        lemma_rect_bounds(src, stride, w, h, p, r0, r1 - 1, c0, c1, sq);
        lemma_rowpre_diff(src, stride, w, h, p, r1 - 1, c0, c1, sq);
        let m = if sq { 65025int } else { 255int };
        assert(m * (r1 - 1 - r0) * (c1 - c0) + m * (c1 - c0) == m * (r1 - r0) * (c1 - c0)) by (nonlinear_arith);
    }
}

proof fn lemma_pre_bounds(src: Seq<u8>, stride: usize, w: usize, h: usize, p: int, i: int, j: int, sq: bool)
    requires 0 <= i, 0 <= j,
    ensures 0 <= sg_pre(src, stride, w, h, p, i, j, sq) <= (if sq { 65025int } else { 255int }) * i * j,
{
    lemma_rect_bounds(src, stride, w, h, p, 0, i, 0, j, sq);
    lemma_pre_zero_col(src, stride, w, h, p, i, sq);
}

/// The padded dimensions of a pass that [`sg_pass_ok`] admits.
proof fn lemma_pass_dims(w: usize, h: usize, radius: int, strength: int, ih: int, iw: int)
    requires sg_pass_ok(w, h, radius, strength), ih == h + 2 * radius, iw == w + 2 * radius,
    ensures
        3 <= ih <= 4210752, 3 <= iw <= 4210752, ih * iw <= 4210752,
        510 * ih * iw + 255 <= 0x7fff_ffff,
        (ih + 1) * (iw + 1) <= 12632257,
{
    assert(ih * iw <= 4210752) by (nonlinear_arith) requires 510 * ih * iw + 255 <= 0x7fff_ffff;
    assert(ih <= ih * iw && iw <= ih * iw) by (nonlinear_arith) requires ih >= 1, iw >= 1;
    assert((ih + 1) * (iw + 1) == ih * iw + ih + iw + 1) by (nonlinear_arith);
}

/// Index `v` of a line padded by `pad` on each side, mapped back into `0..n`.
fn padded_coord(v: usize, pad: usize, n: usize) -> (res: usize)
    requires 1 <= n,
    ensures res == clampi(v - pad, 0, n - 1),
{
    if v < pad { 0 } else if v - pad > n - 1 { n - 1 } else { v - pad }
}

/// The integral image: `(ih + 1) x (iw + 1)` prefix sums of the padded source, row by
/// row with stride `iw + 1`.
fn integral_images(src: &[u8], src_stride: usize, width: usize, height: usize, pad: usize) -> (res: (Vec<i32>, Vec<i64>))
    requires
        sg_pass_ok(width, height, pad as int, 0),
        (height - 1) * src_stride + width <= src@.len(),
    ensures
        res.0@.len() == (height + 2 * pad + 1) * (width + 2 * pad + 1),
        res.1@.len() == (height + 2 * pad + 1) * (width + 2 * pad + 1),
        forall|i: int, j: int| 0 <= i <= height + 2 * pad && 0 <= j <= width + 2 * pad ==>
            res.0@[#[trigger] raster(i, j, width + 2 * pad + 1)] == sg_pre(src@, src_stride, width, height, pad as int,
            i, j, false) && res.1@[raster(i, j, width + 2 * pad + 1)] == sg_pre(src@, src_stride, width, height,
            pad as int, i, j, true),
{
    let ghost p = pad as int;
    proof { lemma_pass_dims(width, height, p, 0, height + 2 * p, width + 2 * p); }
    let iw: usize = width + 2 * pad;
    let ih: usize = height + 2 * pad;
    let is: usize = iw + 1;
    let total: usize = (ih + 1) * is;
    let mut int_sum: Vec<i32> = vec![0i32; total];
    let mut int_sq: Vec<i64> = vec![0i64; total];
    let slen: usize = src.len();
    proof {
        assert forall|i: int, j: int| 0 <= i <= ih && 0 <= j <= iw && (i <= 0 || j == 0) implies
            int_sum@[#[trigger] raster(i, j, is as int)] == sg_pre(src@, src_stride, width, height, p, i, j, false)
            && int_sq@[raster(i, j, is as int)] == sg_pre(src@, src_stride, width, height, p, i, j, true) by {
            lemma_pre_zero_col(src@, src_stride, width, height, p, i, false);
            lemma_pre_zero_col(src@, src_stride, width, height, p, i, true);
            assert(0 <= raster(i, j, is as int) < total) by (nonlinear_arith)
                requires raster(i, j, is as int) == i * is + j, 0 <= i <= ih, 0 <= j <= iw, is == iw + 1,
                total == (ih + 1) * is;
        }
    }
    let mut r: usize = 0;
    while r < ih
        invariant
            r <= ih, ih == height + 2 * pad, iw == width + 2 * pad, is == iw + 1, total == (ih + 1) * is,
            p == pad, sg_pass_ok(width, height, p, 0), ih * iw <= 4210752, 510 * ih * iw + 255 <= 0x7fff_ffff,
            slen == src@.len(), (height - 1) * src_stride + width <= src@.len(),
            int_sum@.len() == total, int_sq@.len() == total,
            forall|i: int, j: int| 0 <= i <= ih && 0 <= j <= iw && (i <= r || j == 0) ==>
                int_sum@[#[trigger] raster(i, j, is as int)] == sg_pre(src@, src_stride, width, height, p, i, j, false)
                && int_sq@[raster(i, j, is as int)] == sg_pre(src@, src_stride, width, height, p, i, j, true),
        decreases ih - r,
    {
        let sr: usize = padded_coord(r, pad, height);
        let mut c: usize = 0;
        while c < iw
            invariant
                r < ih, c <= iw, ih == height + 2 * pad, iw == width + 2 * pad, is == iw + 1, total == (ih + 1) * is,
                p == pad, sg_pass_ok(width, height, p, 0), ih * iw <= 4210752, 510 * ih * iw + 255 <= 0x7fff_ffff,
                slen == src@.len(), (height - 1) * src_stride + width <= src@.len(),
                sr == clampi(r - p, 0, height - 1),
                int_sum@.len() == total, int_sq@.len() == total,
                forall|i: int, j: int| 0 <= i <= ih && 0 <= j <= iw && (i <= r || j == 0 || (i == r + 1 && j <= c)) ==>
                    int_sum@[#[trigger] raster(i, j, is as int)] == sg_pre(src@, src_stride, width, height, p, i, j,
                    false) && int_sq@[raster(i, j, is as int)] == sg_pre(src@, src_stride, width, height, p, i, j, true),
            decreases iw - c,
        {
            let sc: usize = padded_coord(c, pad, width);
            proof {
                assert(sr * src_stride <= (height - 1) * src_stride) by (nonlinear_arith) requires sr <= height - 1;
                assert(sr * src_stride + sc < slen);
                assert(raster(r as int, c + 1, is as int) < total && raster(r + 1, c as int, is as int) < total
                    && raster(r + 1, c + 1, is as int) < total) by (nonlinear_arith)
                    requires raster(r as int, c + 1, is as int) == r * is + c + 1,
                    raster(r + 1, c as int, is as int) == (r + 1) * is + c,
                    raster(r + 1, c + 1, is as int) == (r + 1) * is + c + 1,
                    r < ih, c < iw, is == iw + 1, total == (ih + 1) * is;
                assert(raster(r as int, c as int, is as int) == r * is + c);
                assert(raster(r as int, c + 1, is as int) == r * is + (c + 1));
                assert(raster(r + 1, c as int, is as int) == (r + 1) * is + c);
            }
            let v: i32 = src[sr * src_stride + sc] as i32;
            let idx: usize = (r + 1) * is + (c + 1);
            let up: i32 = int_sum[r * is + (c + 1)];
            let left: i32 = int_sum[(r + 1) * is + c];
            let diag: i32 = int_sum[r * is + c];
            let up2: i64 = int_sq[r * is + (c + 1)];
            let left2: i64 = int_sq[(r + 1) * is + c];
            let diag2: i64 = int_sq[r * is + c];
            proof {
                sum_step_bounds(src@, src_stride, width, height, p, r as int, c as int, ih as int, iw as int);
                assert(up == sg_pre(src@, src_stride, width, height, p, r as int, c + 1, false));
                assert(left == sg_pre(src@, src_stride, width, height, p, r + 1, c as int, false));
                assert(diag == sg_pre(src@, src_stride, width, height, p, r as int, c as int, false));
                assert(up2 == sg_pre(src@, src_stride, width, height, p, r as int, c + 1, true));
                assert(left2 == sg_pre(src@, src_stride, width, height, p, r + 1, c as int, true));
                assert(diag2 == sg_pre(src@, src_stride, width, height, p, r as int, c as int, true));
                assert(v == sg_val(src@, src_stride, width, height, p, r as int, c as int, false));
                assert(v * v == sg_val(src@, src_stride, width, height, p, r as int, c as int, true));
                lemma_val_bounds(src@, src_stride, width, height, p, r as int, c as int, true);
            }
            let ghost bs = int_sum@;
            let ghost bq = int_sq@;
            int_sum.set(idx, v + up + left - diag);
            int_sq.set(idx, v as i64 * v as i64 + up2 + left2 - diag2);
            proof {
                assert(sg_pre(src@, src_stride, width, height, p, r + 1, c + 1, false)
                    == sg_pre(src@, src_stride, width, height, p, r as int, c + 1, false)
                    + sg_rowpre(src@, src_stride, width, height, p, r as int, c as int, false)
                    + sg_val(src@, src_stride, width, height, p, r as int, c as int, false));
                assert(sg_pre(src@, src_stride, width, height, p, r + 1, c + 1, true)
                    == sg_pre(src@, src_stride, width, height, p, r as int, c + 1, true)
                    + sg_rowpre(src@, src_stride, width, height, p, r as int, c as int, true)
                    + sg_val(src@, src_stride, width, height, p, r as int, c as int, true));
                assert forall|i: int, j: int| 0 <= i <= ih && 0 <= j <= iw
                    && (i <= r || j == 0 || (i == r + 1 && j <= c + 1)) implies
                    int_sum@[#[trigger] raster(i, j, is as int)] == sg_pre(src@, src_stride, width, height, p, i, j,
                    false) && int_sq@[raster(i, j, is as int)] == sg_pre(src@, src_stride, width, height, p, i, j, true)
                    by {
                    if i != r + 1 || j != c + 1 {
                        assert(raster(i, j, is as int) != raster(r + 1, c + 1, is as int)) by (nonlinear_arith)
                            requires raster(i, j, is as int) == i * is + j, raster(r + 1, c + 1, is as int) == (r + 1) * is
                            + c + 1, 0 <= j < is, c + 1 < is, i != r + 1 || j != c + 1;
                        assert(0 <= raster(i, j, is as int) < total) by (nonlinear_arith)
                            requires raster(i, j, is as int) == i * is + j, 0 <= i <= ih, 0 <= j <= iw, is == iw + 1,
                            total == (ih + 1) * is;
                        assert(int_sum@[raster(i, j, is as int)] == bs[raster(i, j, is as int)]);
                        assert(int_sq@[raster(i, j, is as int)] == bq[raster(i, j, is as int)]);
                    }
                }
            }
            c = c + 1;
        }
        r = r + 1;
    }
    (int_sum, int_sq)
}

/// The three prefix sums that one step of [`integral_images`] reads are within the
/// bounds that keep its update inside `i32` and `i64`.
proof fn sum_step_bounds(src: Seq<u8>, stride: usize, w: usize, h: usize, p: int, r: int, c: int, ih: int, iw: int)
    requires 0 <= r < ih, 0 <= c < iw, ih * iw <= 4210752, 510 * ih * iw + 255 <= 0x7fff_ffff,
    ensures
        0 <= sg_pre(src, stride, w, h, p, r, c + 1, false) <= 255 * ih * iw,
        0 <= sg_pre(src, stride, w, h, p, r + 1, c, false) <= 255 * ih * iw,
        0 <= sg_pre(src, stride, w, h, p, r, c, false) <= 255 * ih * iw,
        0 <= sg_pre(src, stride, w, h, p, r, c + 1, true) <= 65025 * ih * iw,
        0 <= sg_pre(src, stride, w, h, p, r + 1, c, true) <= 65025 * ih * iw,
        0 <= sg_pre(src, stride, w, h, p, r, c, true) <= 65025 * ih * iw,
        255 * ih * iw <= 1073741760,
        65025 * ih * iw <= 0x1000_0000_0000,
        sg_pre(src, stride, w, h, p, r, c + 1, false) + sg_pre(src, stride, w, h, p, r + 1, c, false) + 255
            <= 0x7fff_ffff,
{
    lemma_pre_bounds(src, stride, w, h, p, r, c + 1, false);
    lemma_pre_bounds(src, stride, w, h, p, r + 1, c, false);
    lemma_pre_bounds(src, stride, w, h, p, r, c, false);
    lemma_pre_bounds(src, stride, w, h, p, r, c + 1, true);
    lemma_pre_bounds(src, stride, w, h, p, r + 1, c, true);
    lemma_pre_bounds(src, stride, w, h, p, r, c, true);
    assert(r * (c + 1) <= ih * iw && (r + 1) * c <= ih * iw && r * c <= ih * iw) by (nonlinear_arith)
        requires 0 <= r < ih, 0 <= c < iw;
    assert(255 * r * (c + 1) <= 255 * ih * iw && 255 * (r + 1) * c <= 255 * ih * iw && 255 * r * c <= 255 * ih * iw)
        by (nonlinear_arith) requires r * (c + 1) <= ih * iw, (r + 1) * c <= ih * iw, r * c <= ih * iw;
    assert(65025 * r * (c + 1) <= 65025 * ih * iw && 65025 * (r + 1) * c <= 65025 * ih * iw
        && 65025 * r * c <= 65025 * ih * iw) by (nonlinear_arith)
        requires r * (c + 1) <= ih * iw, (r + 1) * c <= ih * iw, r * c <= ih * iw;
    assert(255 * ih * iw <= 1073741760 && 65025 * ih * iw <= 0x1000_0000_0000) by (nonlinear_arith)
        requires ih * iw <= 4210752;
    assert(2 * (255 * ih * iw) + 255 <= 0x7fff_ffff) by (nonlinear_arith) requires 510 * ih * iw + 255 <= 0x7fff_ffff;
}

/// `n * n_inv <= 4096 + n / 2`, and a nonzero `n_inv` means `n <= 8192`.
proof fn lemma_n_inv(n: int)
    requires n >= 1,
    ensures
        n * ((4096 + n / 2) / n) <= 4096 + n / 2,
        (4096 + n / 2) / n >= 0,
        (4096 + n / 2) / n >= 1 ==> n <= 8192,
{
    let q = (4096 + n / 2) / n;
    vstd::arithmetic::div_mod::lemma_fundamental_div_mod(4096 + n / 2, n);
    assert(n * q <= 4096 + n / 2) by (nonlinear_arith)
        requires 4096 + n / 2 == n * q + (4096 + n / 2) % n, (4096 + n / 2) % n >= 0;
    assert(q >= 0) by (nonlinear_arith) requires n >= 1, 4096 + n / 2 >= 0, q == (4096 + n / 2) / n;
    if q >= 1 {
        assert(n <= 8192) by (nonlinear_arith) requires n * q <= 4096 + n / 2, q >= 1, n >= 1;
    }
}

/// The four corners that a window sum reads are within the bounds of the integral image.
proof fn corner_bounds(src: Seq<u8>, stride: usize, w: usize, h: usize, p: int, r: int, c: int, r1: int, c1: int,
    ih: int, iw: int)
    requires 0 <= r < r1 <= ih, 0 <= c < c1 <= iw, 510 * ih * iw + 255 <= 0x7fff_ffff,
    ensures
        0 <= sg_pre(src, stride, w, h, p, r1, c1, false) <= 255 * ih * iw,
        0 <= sg_pre(src, stride, w, h, p, r, c1, false) <= 255 * ih * iw,
        0 <= sg_pre(src, stride, w, h, p, r1, c, false) <= 255 * ih * iw,
        0 <= sg_pre(src, stride, w, h, p, r, c, false) <= 255 * ih * iw,
        0 <= sg_pre(src, stride, w, h, p, r1, c1, true) <= 65025 * ih * iw,
        0 <= sg_pre(src, stride, w, h, p, r, c1, true) <= 65025 * ih * iw,
        0 <= sg_pre(src, stride, w, h, p, r1, c, true) <= 65025 * ih * iw,
        0 <= sg_pre(src, stride, w, h, p, r, c, true) <= 65025 * ih * iw,
        65025 * ih * iw <= 0x1000_0000_0000,
{
    lemma_pre_bounds(src, stride, w, h, p, r1, c1, false);
    lemma_pre_bounds(src, stride, w, h, p, r, c1, false);
    lemma_pre_bounds(src, stride, w, h, p, r1, c, false);
    lemma_pre_bounds(src, stride, w, h, p, r, c, false);
    lemma_pre_bounds(src, stride, w, h, p, r1, c1, true);
    lemma_pre_bounds(src, stride, w, h, p, r, c1, true);
    lemma_pre_bounds(src, stride, w, h, p, r1, c, true);
    lemma_pre_bounds(src, stride, w, h, p, r, c, true);
    assert(r1 * c1 <= ih * iw && r * c1 <= ih * iw && r1 * c <= ih * iw && r * c <= ih * iw) by (nonlinear_arith)
        requires 0 <= r < r1 <= ih, 0 <= c < c1 <= iw;
    assert(255 * r1 * c1 <= 255 * ih * iw && 255 * r * c1 <= 255 * ih * iw && 255 * r1 * c <= 255 * ih * iw
        && 255 * r * c <= 255 * ih * iw) by (nonlinear_arith)
        requires r1 * c1 <= ih * iw, r * c1 <= ih * iw, r1 * c <= ih * iw, r * c <= ih * iw;
    assert(65025 * r1 * c1 <= 65025 * ih * iw && 65025 * r * c1 <= 65025 * ih * iw
        && 65025 * r1 * c <= 65025 * ih * iw && 65025 * r * c <= 65025 * ih * iw) by (nonlinear_arith)
        requires r1 * c1 <= ih * iw, r * c1 <= ih * iw, r1 * c <= ih * iw, r * c <= ih * iw;
    assert(65025 * ih * iw <= 0x1000_0000_0000) by (nonlinear_arith) requires 510 * ih * iw + 255 <= 0x7fff_ffff;
}

/// One guided pass: the guided-filter value [`sg_out`] of one pixel.
#[verifier::rlimit(40)]
fn guided_pixel(src: &[u8], src_stride: usize, width: usize, height: usize, radius: usize, strength: i32,
    int_sum: &Vec<i32>, int_sq: &Vec<i64>, r: usize, c: usize) -> (v: i32)
    requires
        sg_pass_ok(width, height, radius as int, strength as int),
        (height - 1) * src_stride + width <= src@.len(),
        r < height, c < width,
        int_sum@.len() == (height + 2 * radius + 1) * (width + 2 * radius + 1),
        int_sq@.len() == (height + 2 * radius + 1) * (width + 2 * radius + 1),
        forall|i: int, j: int| 0 <= i <= height + 2 * radius && 0 <= j <= width + 2 * radius ==>
            int_sum@[#[trigger] raster(i, j, width + 2 * radius + 1)] == sg_pre(src@, src_stride, width, height,
            radius as int, i, j, false) && int_sq@[raster(i, j, width + 2 * radius + 1)] == sg_pre(src@, src_stride,
            width, height, radius as int, i, j, true),
    ensures
        v == sg_out(src@, src_stride, width, height, radius as int, strength as int, r as int, c as int),
        0 <= v <= 12240,
{
    let ghost p = radius as int;
    proof {
        lemma_pass_dims(width, height, p, strength as int, height + 2 * p, width + 2 * p);
        assert(1 <= (2 * radius + 1) * (2 * radius + 1) <= 261121) by (nonlinear_arith) requires radius <= 255;
    }
    let is: usize = width + 2 * radius + 1;
    let n: usize = (2 * radius + 1) * (2 * radius + 1);
    let n_inv: i32 = (4096 + n as i32 / 2) / n as i32;
    let r1: usize = r + 2 * radius + 1;
    let c1: usize = c + 2 * radius + 1;
    let ghost ih = height + 2 * radius;
    let ghost iw = width + 2 * radius;
    proof {
        assert(raster(r1 as int, c1 as int, is as int) < int_sum@.len() && raster(r as int, c1 as int, is as int) < int_sum@.len()
            && raster(r1 as int, c as int, is as int) < int_sum@.len() && raster(r as int, c as int, is as int) < int_sum@.len())
            by (nonlinear_arith)
            requires raster(r1 as int, c1 as int, is as int) == r1 * is + c1, raster(r as int, c1 as int, is as int) == r * is + c1,
            raster(r1 as int, c as int, is as int) == r1 * is + c, raster(r as int, c as int, is as int) == r * is + c,
            r1 <= ih, c1 <= iw, r < r1, c < c1, is == iw + 1, int_sum@.len() == (ih + 1) * is;
        lemma_rect_bounds(src@, src_stride, width, height, p, r as int, r1 as int, c as int, c1 as int, false);
        lemma_rect_bounds(src@, src_stride, width, height, p, r as int, r1 as int, c as int, c1 as int, true);
        corner_bounds(src@, src_stride, width, height, p, r as int, c as int, r1 as int, c1 as int, ih, iw);
        assert(255 * (r1 - r) * (c1 - c) == 255 * n && 65025 * (r1 - r) * (c1 - c) == 65025 * n) by (nonlinear_arith)
            requires r1 - r == 2 * radius + 1, c1 - c == 2 * radius + 1, n == (2 * radius + 1) * (2 * radius + 1);
        lemma_n_inv(n as int);
        vstd::arithmetic::power2::lemma2_to64();
    }
    let s11: i32 = int_sum[r1 * is + c1];
    let s01: i32 = int_sum[r * is + c1];
    let s10: i32 = int_sum[r1 * is + c];
    let s00: i32 = int_sum[r * is + c];
    let q11: i64 = int_sq[r1 * is + c1];
    let q01: i64 = int_sq[r * is + c1];
    let q10: i64 = int_sq[r1 * is + c];
    let q00: i64 = int_sq[r * is + c];
    proof {
        assert(raster(r1 as int, c1 as int, is as int) == r1 * is + c1);
        assert(raster(r as int, c1 as int, is as int) == r * is + c1);
        assert(raster(r1 as int, c as int, is as int) == r1 * is + c);
        assert(raster(r as int, c as int, is as int) == r * is + c);
        assert(s11 == sg_pre(src@, src_stride, width, height, p, r1 as int, c1 as int, false));
        assert(s01 == sg_pre(src@, src_stride, width, height, p, r as int, c1 as int, false));
        assert(s10 == sg_pre(src@, src_stride, width, height, p, r1 as int, c as int, false));
        assert(s00 == sg_pre(src@, src_stride, width, height, p, r as int, c as int, false));
        assert(q11 == sg_pre(src@, src_stride, width, height, p, r1 as int, c1 as int, true));
        assert(q01 == sg_pre(src@, src_stride, width, height, p, r as int, c1 as int, true));
        assert(q10 == sg_pre(src@, src_stride, width, height, p, r1 as int, c as int, true));
        assert(q00 == sg_pre(src@, src_stride, width, height, p, r as int, c as int, true));
    }
    let sum: i32 = s11 - s01 - s10 + s00;
    let sum_sq: i64 = q11 - q01 - q10 + q00;
    let ghost bs = sg_box(src@, src_stride, width, height, p, r as int, c as int, false);
    let ghost bq = sg_box(src@, src_stride, width, height, p, r as int, c as int, true);
    assert(sum == bs && sum_sq == bq);
    assert(n_inv == sg_n_inv(p));
    proof {
        assert(0 <= sum * n_inv <= 255 * 8192) by (nonlinear_arith)
            requires 0 <= sum <= 255 * n, n * n_inv <= 4096 + n / 2, n_inv >= 0, n_inv >= 1 ==> n <= 8192, n >= 1;
        assert(0 <= sum_sq * n_inv <= 65025 * 8192) by (nonlinear_arith)
            requires 0 <= sum_sq <= 65025 * n, n * n_inv <= 4096 + n / 2, n_inv >= 0, n_inv >= 1 ==> n <= 8192, n >= 1;
    }
    let t: i32 = sum * n_inv + 2048;
    let t2: i64 = sum_sq * n_inv as i64 + 2048;
    proof {
        lemma_i64_shr(t as i64, 12);
        lemma_i64_shr(t2, 12);
        assert(0 <= (t as int) / 4096 <= 510) by (nonlinear_arith) requires 0 <= t <= 255 * 8192 + 2048;
        assert(0 <= (t2 as int) / 4096 <= 130050) by (nonlinear_arith) requires 0 <= t2 <= 65025 * 8192 + 2048;
    }
    let mean: i32 = ((t as i64) >> 12) as i32;
    proof {
        assert(0 <= mean * mean <= 260100) by (nonlinear_arith) requires 0 <= mean <= 510;
    }
    let mean_sq: i32 = mean * mean;
    let sq_mean: i32 = (t2 >> 12) as i32;
    let d: i32 = sq_mean - mean_sq;
    let var: i32 = if d > 0 { d } else { 0 };
    proof {
        assert(var <= 130051);
    }
    let denom: i32 = var + strength;
    let a: i32 = if denom > 0 { (var * 4096) / denom } else { 4096 };
    proof {
        if denom > 0 {
            let (vi, di) = (var as int, denom as int);
            assert((vi * 4096) / di <= 4096) by (nonlinear_arith) requires 0 <= vi <= di, di > 0;
            assert((vi * 4096) / di >= 0) by (nonlinear_arith) requires 0 <= vi, di > 0;
        }
    }
    let slen: usize = src.len();
    proof {
        assert(0 <= (4096 - a) * mean <= 4096 * 510) by (nonlinear_arith) requires 0 <= a <= 4096, 0 <= mean <= 510;
        assert(r * src_stride <= (height - 1) * src_stride) by (nonlinear_arith) requires r <= height - 1;
    }
    let b: i32 = (4096 - a) * mean;
    let x: i32 = src[r * src_stride + c] as i32;
    proof {
        assert(0 <= a * x <= 4096 * 255) by (nonlinear_arith) requires 0 <= a <= 4096, 0 <= x <= 255;
    }
    let o: i32 = a * x + b + 128;
    proof {
        lemma_i64_shr(o as i64, 8);
        assert(0 <= (o as int) / 256 <= 12240) by (nonlinear_arith) requires 0 <= o <= 4096 * 255 + 4096 * 510 + 128;
    }
    ((o as i64) >> 8) as i32
}

/// One guided pass over the `width` x `height` block: `output[r * width + c]` is
/// [`sg_out`].
#[verifier::rlimit(30)]
#[verifier::spinoff_prover]
fn box_filter_sgr(src: &[u8], src_stride: usize, output: &mut [i32], width: usize, height: usize, radius: usize,
    strength: i32)
    requires
        sg_pass_ok(width, height, radius as int, strength as int),
        (height - 1) * src_stride + width <= src@.len(),
        old(output)@.len() == width * height,
    ensures
        final(output)@.len() == width * height,
        forall|r: int, c: int| 0 <= r < height && 0 <= c < width ==>
            final(output)@[#[trigger] raster(r, c, width as int)] == sg_out(src@, src_stride, width, height,
            radius as int, strength as int, r, c)
            && 0 <= sg_out(src@, src_stride, width, height, radius as int, strength as int, r, c) <= 12240,
{
    let (int_sum, int_sq) = integral_images(src, src_stride, width, height, radius);
    let olen: usize = output.len();
    let mut r: usize = 0;
    while r < height
        invariant
            r <= height, olen == output@.len(), output@.len() == width * height,
            sg_pass_ok(width, height, radius as int, strength as int),
            (height - 1) * src_stride + width <= src@.len(),
            int_sum@.len() == (height + 2 * radius + 1) * (width + 2 * radius + 1),
            int_sq@.len() == (height + 2 * radius + 1) * (width + 2 * radius + 1),
            forall|i: int, j: int| 0 <= i <= height + 2 * radius && 0 <= j <= width + 2 * radius ==>
                int_sum@[#[trigger] raster(i, j, width + 2 * radius + 1)] == sg_pre(src@, src_stride, width, height,
                radius as int, i, j, false) && int_sq@[raster(i, j, width + 2 * radius + 1)] == sg_pre(src@,
                src_stride, width, height, radius as int, i, j, true),
            forall|rr: int, cc: int| 0 <= rr < r && 0 <= cc < width ==>
                output@[#[trigger] raster(rr, cc, width as int)] == sg_out(src@, src_stride, width, height,
                radius as int, strength as int, rr, cc)
                && 0 <= sg_out(src@, src_stride, width, height, radius as int, strength as int, rr, cc) <= 12240,
        decreases height - r,
    {
        let mut c: usize = 0;
        while c < width
            invariant
                r < height, c <= width, olen == output@.len(), output@.len() == width * height,
                sg_pass_ok(width, height, radius as int, strength as int),
                (height - 1) * src_stride + width <= src@.len(),
                int_sum@.len() == (height + 2 * radius + 1) * (width + 2 * radius + 1),
                int_sq@.len() == (height + 2 * radius + 1) * (width + 2 * radius + 1),
                forall|i: int, j: int| 0 <= i <= height + 2 * radius && 0 <= j <= width + 2 * radius ==>
                    int_sum@[#[trigger] raster(i, j, width + 2 * radius + 1)] == sg_pre(src@, src_stride, width,
                    height, radius as int, i, j, false) && int_sq@[raster(i, j, width + 2 * radius + 1)] == sg_pre(
                    src@, src_stride, width, height, radius as int, i, j, true),
                forall|rr: int, cc: int| 0 <= rr < height && 0 <= cc < width && (rr < r || (rr == r && cc < c)) ==>
                    output@[#[trigger] raster(rr, cc, width as int)] == sg_out(src@, src_stride, width, height,
                    radius as int, strength as int, rr, cc)
                    && 0 <= sg_out(src@, src_stride, width, height, radius as int, strength as int, rr, cc) <= 12240,
            decreases width - c,
        {
            let v: i32 = guided_pixel(src, src_stride, width, height, radius, strength, &int_sum, &int_sq, r, c);
            proof {
                assert(r * width + c < width * height) by (nonlinear_arith) requires r < height, c < width;
                assert forall|rr: int, cc: int| 0 <= rr < height && 0 <= cc < width implies
                    0 <= #[trigger] raster(rr, cc, width as int) < width * height by {
                    assert(0 <= rr * width + cc < width * height) by (nonlinear_arith)
                        requires 0 <= rr < height, 0 <= cc < width;
                }
                assert(raster(r as int, c as int, width as int) == r * width + c);
            }
            let ghost before = output@;
            output[r * width + c] = v;
            proof {
                assert forall|rr: int, cc: int| 0 <= rr < height && 0 <= cc < width && (rr < r || (rr == r && cc < c + 1))
                    implies output@[#[trigger] raster(rr, cc, width as int)] == sg_out(src@, src_stride, width, height,
                    radius as int, strength as int, rr, cc)
                    && 0 <= sg_out(src@, src_stride, width, height, radius as int, strength as int, rr, cc) <= 12240 by {
                    if rr != r || cc != c {
                        assert(raster(rr, cc, width as int) != r * width + c) by (nonlinear_arith)
                            requires raster(rr, cc, width as int) == rr * width + cc, 0 <= cc < width, 0 <= c < width,
                            rr != r || cc != c;
                        assert(output@[raster(rr, cc, width as int)] == before[raster(rr, cc, width as int)]);
                    } else {
                        assert(output@[raster(rr, cc, width as int)] == v);
                    }
                }
            }
            c = c + 1;
        }
        r = r + 1;
    }
}

/// The value of one pass at pixel `(r, c)` in Q4: the guided filter when the pass runs,
/// the source itself otherwise.
pub open spec fn sgr_pass(src: Seq<u8>, stride: usize, w: usize, h: usize, radius: u8, strength: i32, r: int, c: int)
    -> int {
    if radius > 0 {
        sg_out(src, stride, w, h, radius as int, strength as int, r, c)
    } else {
        16 * src[r * stride + c]
    }
}

/// The restored pixel `(r, c)`: the passes and the source (all in Q4) blended with the
/// Q7 weights `xqd[0]`, `xqd[1]` and `128 - xqd[0] - xqd[1]`, rounded down from Q11
/// and clipped to 8 bits.
pub open spec fn sgr_px(src: Seq<u8>, stride: usize, w: usize, h: usize, params: SgrprojParams, r: int, c: int) -> u8 {
    let s = src[r * stride + c] as int;
    let (w0, w1) = (params.xqd[0] as int, params.xqd[1] as int);
    let f0 = sgr_pass(src, stride, w, h, params.r0, params.s0, r, c);
    let f1 = sgr_pass(src, stride, w, h, params.r1, params.s1, r, c);
    clampi((w0 * f0 + w1 * f1 + (128 - w0 - w1) * (16 * s) + 1024) / 2048, 0, 255) as u8
}

/// The parameters keep every pass and the blend inside 32-bit arithmetic.
pub open spec fn sgr_params_ok(w: usize, h: usize, params: SgrprojParams) -> bool {
    &&& params.r0 > 0 ==> sg_pass_ok(w, h, params.r0 as int, params.s0 as int)
    &&& params.r1 > 0 ==> sg_pass_ok(w, h, params.r1 as int, params.s1 as int)
    &&& -65536 <= params.xqd[0] <= 65536
    &&& -65536 <= params.xqd[1] <= 65536
}

/// The blend of one pixel, `(w0 f0 + w1 f1 + (128 - w0 - w1) 16 s + 1024) >> 11`, clipped.
fn sgr_blend(w0: i32, w1: i32, f0: i32, f1: i32, s: i32) -> (v: u8)
    requires -65536 <= w0 <= 65536, -65536 <= w1 <= 65536, 0 <= f0 <= 12240, 0 <= f1 <= 12240, 0 <= s <= 255,
    ensures v == clampi((w0 * f0 + w1 * f1 + (128 - w0 - w1) * (16 * s) + 1024) / 2048, 0, 255),
{
    proof {
        assert(-802160640 <= w0 * f0 <= 802160640) by (nonlinear_arith) requires -65536 <= w0 <= 65536, 0 <= f0 <= 12240;
        assert(-802160640 <= w1 * f1 <= 802160640) by (nonlinear_arith) requires -65536 <= w1 <= 65536, 0 <= f1 <= 12240;
        assert(-535296000 <= (128 - w0 - w1) * (16 * s) <= 535296000) by (nonlinear_arith)
            requires -131008 <= 128 - w0 - w1 <= 131200, 0 <= 16 * s <= 4080;
    }
    let ws: i32 = 128 - w0 - w1;
    let val: i32 = w0 * f0 + w1 * f1 + ws * (s * 16) + 1024;
    proof {
        lemma_i64_shr(val as i64, 11);
        vstd::arithmetic::power2::lemma2_to64();
    }
    let q: i64 = (val as i64) >> 11;
    if q < 0 { 0 } else if q > 255 { 255 } else { q as u8 }
}

/// Self-guided restoration of the `width` x `height` block: each pixel of `dst` becomes
/// [`sgr_px`], the rest of `dst` is left as it was.
#[verifier::rlimit(40)]
#[verifier::spinoff_prover]
pub fn sgrproj_filter(src: &[u8], src_stride: usize, dst: &mut [u8], dst_stride: usize, width: usize, height: usize,
    params: &SgrprojParams)
    requires
        sgr_params_ok(width, height, *params),
        width * height <= usize::MAX,
        block_fits(old(dst)@.len(), dst_stride as nat, width as nat, height as nat),
        width > 0 && height > 0 ==> (height - 1) * src_stride + width <= src@.len(),
    ensures
        block_rows_written(final(dst)@, old(dst)@, dst_stride as nat, width as nat, height as nat,
            |r: int, c: int| sgr_px(src@, src_stride, width, height, *params, r, c)),
        width <= dst_stride ==> block_written(final(dst)@, old(dst)@, dst_stride as nat, width as nat, height as nat,
            |r: int, c: int| sgr_px(src@, src_stride, width, height, *params, r, c)),
{
    let ghost val = |r: int, c: int| sgr_px(src@, src_stride, width, height, *params, r, c);
    let ghost pr = *params;
    let n: usize = width * height;
    let mut flt0: Vec<i32> = vec![0i32; n];
    let mut flt1: Vec<i32> = vec![0i32; n];
    if params.r0 > 0 {
        box_filter_sgr(src, src_stride, flt0.as_mut_slice(), width, height, params.r0 as usize, params.s0);
    }
    if params.r1 > 0 {
        box_filter_sgr(src, src_stride, flt1.as_mut_slice(), width, height, params.r1 as usize, params.s1);
    }
    let w0: i32 = params.xqd[0];
    let w1: i32 = params.xqd[1];
    let slen: usize = src.len();
    let dlen: usize = dst.len();
    let mut r: usize = 0;
    while r < height
        invariant
            r <= height, dlen == dst@.len(), slen == src@.len(), n == width * height,
            *params == pr, w0 == pr.xqd[0], w1 == pr.xqd[1], sgr_params_ok(width, height, pr),
            width > 0 && height > 0 ==> (height - 1) * src_stride + width <= src@.len(),
            flt0@.len() == n, flt1@.len() == n,
            pr.r0 > 0 ==> forall|rr: int, cc: int| 0 <= rr < height && 0 <= cc < width ==>
                flt0@[#[trigger] raster(rr, cc, width as int)] == sg_out(src@, src_stride, width, height,
                pr.r0 as int, pr.s0 as int, rr, cc)
                && 0 <= sg_out(src@, src_stride, width, height, pr.r0 as int, pr.s0 as int, rr, cc) <= 12240,
            pr.r1 > 0 ==> forall|rr: int, cc: int| 0 <= rr < height && 0 <= cc < width ==>
                flt1@[#[trigger] raster(rr, cc, width as int)] == sg_out(src@, src_stride, width, height,
                pr.r1 as int, pr.s1 as int, rr, cc)
                && 0 <= sg_out(src@, src_stride, width, height, pr.r1 as int, pr.s1 as int, rr, cc) <= 12240,
            block_fits(old(dst)@.len(), dst_stride as nat, width as nat, height as nat),
            val == (|r: int, c: int| sgr_px(src@, src_stride, width, height, pr, r, c)),
            dst@.len() == old(dst)@.len(),
            forall|i: int| 0 <= i < old(dst)@.len() ==>
                #[trigger] dst@[i] == rows_state(old(dst)@, dst_stride as nat, width as nat, val, r as int, i),
        decreases height - r,
    {
        let mut c: usize = 0;
        while c < width
            invariant
                r < height, c <= width, dlen == dst@.len(), slen == src@.len(), n == width * height,
                *params == pr, w0 == pr.xqd[0], w1 == pr.xqd[1], sgr_params_ok(width, height, pr),
                width > 0 ==> (height - 1) * src_stride + width <= src@.len(),
                flt0@.len() == n, flt1@.len() == n,
                pr.r0 > 0 ==> forall|rr: int, cc: int| 0 <= rr < height && 0 <= cc < width ==>
                    flt0@[#[trigger] raster(rr, cc, width as int)] == sg_out(src@, src_stride, width, height,
                    pr.r0 as int, pr.s0 as int, rr, cc)
                    && 0 <= sg_out(src@, src_stride, width, height, pr.r0 as int, pr.s0 as int, rr, cc) <= 12240,
                pr.r1 > 0 ==> forall|rr: int, cc: int| 0 <= rr < height && 0 <= cc < width ==>
                    flt1@[#[trigger] raster(rr, cc, width as int)] == sg_out(src@, src_stride, width, height,
                    pr.r1 as int, pr.s1 as int, rr, cc)
                    && 0 <= sg_out(src@, src_stride, width, height, pr.r1 as int, pr.s1 as int, rr, cc) <= 12240,
                block_fits(old(dst)@.len(), dst_stride as nat, width as nat, height as nat),
                val == (|r: int, c: int| sgr_px(src@, src_stride, width, height, pr, r, c)),
                dst@.len() == old(dst)@.len(),
                forall|i: int| 0 <= i < old(dst)@.len() ==> #[trigger] dst@[i]
                    == row_partial(old(dst)@, dst_stride as nat, width as nat, val, r as int, c as int, i),
            decreases width - c,
        {
            proof {
                assert(r * width + c < width * height) by (nonlinear_arith) requires r < height, c < width;
                assert(raster(r as int, c as int, width as int) == r * width + c);
                assert(r * src_stride <= (height - 1) * src_stride) by (nonlinear_arith) requires r <= height - 1;
                let dl = dst@.len();
                assert(r * dst_stride + c < dl) by (nonlinear_arith)
                    requires r < height, c < width, (height - 1) * dst_stride + width <= dl;
            }
            let idx: usize = r * width + c;
            let s: i32 = src[r * src_stride + c] as i32;
            let f0: i32 = if params.r0 > 0 { flt0[idx] } else { s * 16 };
            let f1: i32 = if params.r1 > 0 { flt1[idx] } else { s * 16 };
            let v: u8 = sgr_blend(w0, w1, f0, f1, s);
            let ghost before = dst@;
            dst[r * dst_stride + c] = v;
            proof {
                assert(v == val(r as int, c as int));
                lemma_rows_write(dst@, before, old(dst)@, dst_stride as nat, width as nat, val, r as int, c as int);
            }
            c = c + 1;
        }
        proof { lemma_rows_done(dst@, old(dst)@, dst_stride as nat, width as nat, val, r as int); }
        r = r + 1;
    }
    proof {
        if width <= dst_stride {
            lemma_rows_block(dst@, old(dst)@, dst_stride as nat, width as nat, height as nat, val);
        }
    }
}

/// With both passes off the filter is the identity, whatever the weights: the blend
/// of three copies of the source sample weighted to 128 rounds back to it.
pub proof fn lemma_sgr_no_pass_identity(src: Seq<u8>, stride: usize, w: usize, h: usize, params: SgrprojParams,
    r: int, c: int)
    requires params.r0 == 0, params.r1 == 0,
    ensures sgr_px(src, stride, w, h, params, r, c) == src[r * stride + c],
{
    let s = src[r * stride + c] as int;
    let (w0, w1) = (params.xqd[0] as int, params.xqd[1] as int);
    assert(w0 * (16 * s) + w1 * (16 * s) + (128 - w0 - w1) * (16 * s) + 1024 == 2048 * s + 1024) by (nonlinear_arith);
    assert((2048 * s + 1024) / 2048 == s) by (nonlinear_arith) requires 0 <= s <= 255;
}

} // verus!
