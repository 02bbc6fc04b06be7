//! Intra prediction: DC, vertical, horizontal, the three smooth modes and Paeth.
use vstd::prelude::*;
use crate::dsp::copy::{block_fits, block_written, block_rows_written, rows_state, row_partial, lemma_rows_write, lemma_rows_done, lemma_rows_block};
use crate::dsp::fwd_txfm::raster;

verus! {

/// Smooth weights (Q8) for a dimension of 4.
pub const SM_WEIGHTS_4: [u8; 4] = [255, 149, 85, 64];

/// Smooth weights (Q8) for a dimension of 8.
pub const SM_WEIGHTS_8: [u8; 8] = [255, 197, 146, 105, 73, 50, 37, 32];

/// Smooth weights (Q8) for a dimension of 16.
pub const SM_WEIGHTS_16: [u8; 16] = [255, 225, 196, 170, 145, 123, 102, 84, 68, 54, 43, 33, 26, 20, 17, 16];

/// Smooth weights (Q8) for a dimension of 32.
pub const SM_WEIGHTS_32: [u8; 32] = [255, 240, 225, 210, 196, 182, 169, 157, 145, 133, 122, 111, 101, 92, 83, 74, 66, 59, 52, 45, 39, 34, 29, 25, 21, 17, 14, 12, 10, 9, 8, 8];

/// Smooth weights (Q8) for a dimension of 64.
pub const SM_WEIGHTS_64: [u8; 64] = [255, 248, 240, 233, 225, 218, 210, 203, 196, 189, 182, 176, 169, 163, 156, 150, 144, 138, 133, 127, 121, 116, 111, 106, 101, 96, 91, 86, 82, 77, 73, 69, 65, 61, 57, 54, 50, 47, 44, 41, 38, 35, 32, 29, 27, 25, 22, 20, 18, 16, 15, 13, 12, 10, 9, 8, 7, 6, 6, 5, 5, 4, 4, 4];

/// Number of smooth weights available for dimension `n` (the 4-entry table stands in
/// for sizes without a table of their own).
pub open spec fn smooth_len(n: nat) -> nat {
    if n == 8 || n == 16 || n == 32 || n == 64 { n } else { 4 }
}

/// Smooth weight `i` for dimension `n`.
pub open spec fn spec_smooth_weight(n: nat, i: int) -> u8 {
    if n == 8 { SM_WEIGHTS_8[i] } else if n == 16 { SM_WEIGHTS_16[i] } else if n == 32 { SM_WEIGHTS_32[i] }
    else if n == 64 { SM_WEIGHTS_64[i] } else { SM_WEIGHTS_4[i] }
}

/// Smooth-weight law: each block dimension of 4, 8, 16, 32 or 64 uses the weight
/// table of its own size, and every other dimension the 4-entry table.
pub proof fn lemma_smooth_weight_tables(n: nat, i: int)
    requires 0 <= i < smooth_len(n),
    ensures
        n == 4 ==> spec_smooth_weight(n, i) == SM_WEIGHTS_4[i],
        n == 8 ==> spec_smooth_weight(n, i) == SM_WEIGHTS_8[i],
        n == 16 ==> spec_smooth_weight(n, i) == SM_WEIGHTS_16[i],
        n == 32 ==> spec_smooth_weight(n, i) == SM_WEIGHTS_32[i],
        n == 64 ==> spec_smooth_weight(n, i) == SM_WEIGHTS_64[i],
        !(n == 8 || n == 16 || n == 32 || n == 64) ==> spec_smooth_weight(n, i) == SM_WEIGHTS_4[i],
{
}

/// Smooth weight `i` for dimension `n`.
fn smooth_weight(n: usize, i: usize) -> (r: u8)
    requires i < smooth_len(n as nat),
    ensures
        r == spec_smooth_weight(n as nat, i as int),
        n == 16 ==> r == SM_WEIGHTS_16[i as int],
        n == 8 ==> r == SM_WEIGHTS_8[i as int],
        n == 32 ==> r == SM_WEIGHTS_32[i as int],
        n == 64 ==> r == SM_WEIGHTS_64[i as int],
        !(n == 8 || n == 16 || n == 32 || n == 64) ==> r == SM_WEIGHTS_4[i as int],
{
    match n {
        8 => SM_WEIGHTS_8[i],
        16 => SM_WEIGHTS_16[i],
        32 => SM_WEIGHTS_32[i],
        64 => SM_WEIGHTS_64[i],
        _ => SM_WEIGHTS_4[i],
    }
}

/// Sum of the entries of `s`.
pub open spec fn seq_sum(s: Seq<u8>) -> nat
    decreases s.len(),
{
    if s.len() == 0 { 0 } else { seq_sum(s.drop_last()) + s.last() as nat }
}

/// Sum of the first `n` entries of `s`.
fn sum_prefix(s: &[u8], n: usize) -> (r: u32)
    requires n <= s@.len(), 255 * n <= u32::MAX,
    ensures r == seq_sum(s@.take(n as int)), r <= 255 * n,
{
    let mut total: u32 = 0;
    let mut i: usize = 0;
    while i < n
        invariant
            i <= n <= s@.len(), 255 * n <= u32::MAX,
            total == seq_sum(s@.take(i as int)),
            total <= 255 * i,
        decreases n - i,
    {
        proof {
            assert(s@.take(i + 1).drop_last() =~= s@.take(i as int));
        }
        total = total + s[i] as u32;
        i = i + 1;
    }
    total
}

/// The DC value: the rounded mean of the available edges, 128 without edges.
pub open spec fn spec_dc(above: Seq<u8>, left: Seq<u8>, width: nat, height: nat, has_above: bool, has_left: bool) -> u8 {
    if has_above && has_left {
        ((seq_sum(above.take(width as int)) + seq_sum(left.take(height as int)) + (width + height) / 2)
            / (width + height)) as u8
    } else if has_above {
        ((seq_sum(above.take(width as int)) + width / 2) / width) as u8
    } else if has_left {
        ((seq_sum(left.take(height as int)) + height / 2) / height) as u8
    } else {
        128
    }
}

/// Paeth predictor: of `top`, `left` and `top_left`, the one nearest to `top + left - top_left`
/// (ties favour `top`, then `left`).
pub open spec fn spec_paeth(top: int, left: int, top_left: int) -> u8 {
    let base = top + left - top_left;
    let p_top = if base >= top { base - top } else { top - base };
    let p_left = if base >= left { base - left } else { left - base };
    let p_tl = if base >= top_left { base - top_left } else { top_left - base };
    (if p_top <= p_left && p_top <= p_tl { top } else if p_left <= p_tl { left } else { top_left }) as u8
}

/// `x` capped at 255, as a byte.
pub open spec fn cap255(x: int) -> u8 {
    if x <= 255 { x as u8 } else { 255 }
}

/// Entry `i` lies in one of the `height` runs of `width` entries that start every
/// `stride` entries (the rows of a block, which overlap when `width > stride`).
pub open spec fn in_rows(i: int, stride: nat, width: nat, height: nat) -> bool {
    exists|r: int| 0 <= r < height && #[trigger] raster(r, 0, stride as int) <= i < raster(r, 0, stride as int) + width
}

/// DC prediction: every pixel of the block, whose rows may overlap, takes the rounded
/// mean of the available edges; the rest of `dst` is unchanged.
pub fn predict_dc(dst: &mut [u8], dst_stride: usize, above: &[u8], left: &[u8], width: usize, height: usize, has_above: bool, has_left: bool)
    requires
        block_fits(old(dst)@.len(), dst_stride as nat, width as nat, height as nat),
        has_above ==> width <= above@.len(),
        has_left ==> height <= left@.len(),
        255 * (width + height) + (width + height) / 2 <= u32::MAX,
        has_above && has_left ==> width + height > 0,
        has_above && !has_left ==> width > 0,
        !has_above && has_left ==> height > 0,
    ensures
        final(dst)@.len() == old(dst)@.len(),
        forall|i: int| 0 <= i < old(dst)@.len() ==> #[trigger] final(dst)@[i] == (if in_rows(i, dst_stride as nat,
            width as nat, height as nat) { spec_dc(above@, left@, width as nat, height as nat, has_above, has_left) }
            else { old(dst)@[i] }),
{
    let dc: u8 = if has_above && has_left {
        let sum: u32 = sum_prefix(above, width) + sum_prefix(left, height);
        let count: u32 = (width + height) as u32;
        ((sum + count / 2) / count) as u8
    } else if has_above {
        let sum: u32 = sum_prefix(above, width);
        ((sum + width as u32 / 2) / width as u32) as u8
    } else if has_left {
        let sum: u32 = sum_prefix(left, height);
        ((sum + height as u32 / 2) / height as u32) as u8
    } else {
        128
    };
    let ghost (st, w, h) = (dst_stride as nat, width as nat, height as nat);
    let dlen: usize = dst.len();
    let mut row: usize = 0;
    while row < height
        invariant
            block_fits(old(dst)@.len(), st, w, h), st == dst_stride, w == width, h == height,
            row <= height, dlen == dst@.len(), dst@.len() == old(dst)@.len(),
            forall|rr: int, cc: int| 0 <= rr < row && 0 <= cc < width ==>
                dst@[#[trigger] (raster(rr, 0, dst_stride as int) + cc)] == dc,
            forall|i: int| 0 <= i < old(dst)@.len() && !in_rows(i, st, w, h) ==> #[trigger] dst@[i] == old(dst)@[i],
        decreases height - row,
    {
        let mut col: usize = 0;
        while col < width
            invariant
                block_fits(old(dst)@.len(), st, w, h), st == dst_stride, w == width, h == height,
                row < height, col <= width, dlen == dst@.len(), dst@.len() == old(dst)@.len(),
                forall|rr: int, cc: int| 0 <= rr < height && 0 <= cc < width && (rr < row || (rr == row && cc < col)) ==>
                    dst@[#[trigger] (raster(rr, 0, dst_stride as int) + cc)] == dc,
                forall|i: int| 0 <= i < old(dst)@.len() && !in_rows(i, st, w, h) ==> #[trigger] dst@[i] == old(dst)@[i],
            decreases width - col,
        {
            proof {
                let dl = dst@.len();
                assert(row * dst_stride + col < dl) by (nonlinear_arith)
                    requires row < height, col < width, (height - 1) * dst_stride + width <= dl;
                assert(raster(row as int, 0, dst_stride as int) == row * dst_stride);
            }
            let ghost before = dst@;
            let j: usize = row * dst_stride + col;
            dst[j] = dc;
            proof {
                assert(in_rows(j as int, st, w, h));
                assert forall|rr: int, cc: int| 0 <= rr < height && 0 <= cc < width && (rr < row || (rr == row && cc < col + 1))
                    implies dst@[#[trigger] (raster(rr, 0, dst_stride as int) + cc)] == dc by {
                    let k = raster(rr, 0, dst_stride as int) + cc;
                    if k != j {
                        let dl = dst@.len();
                        assert(raster(rr, 0, dst_stride as int) == rr * dst_stride);
                        assert(0 <= rr * dst_stride + cc < dl) by (nonlinear_arith)
                            requires 0 <= rr < height, 0 <= cc < width, (height - 1) * dst_stride + width <= dl;
                        assert(dst@[k] == before[k]);
                    }
                }
            }
            col = col + 1;
        }
        row = row + 1;
    }
    proof {
        assert forall|i: int| 0 <= i < old(dst)@.len() implies #[trigger] dst@[i] == (if in_rows(i, st, w, h) {
            spec_dc(above@, left@, w, h, has_above, has_left) } else { old(dst)@[i] }) by {
            if in_rows(i, st, w, h) {
                let r = choose|r: int| 0 <= r < h && #[trigger] raster(r, 0, st as int) <= i < raster(r, 0, st as int) + w;
                assert(dst@[raster(r, 0, dst_stride as int) + (i - raster(r, 0, st as int))] == dc);
            }
        }
    }
}

/// Vertical prediction: each row copies the row above.
pub fn predict_v(dst: &mut [u8], dst_stride: usize, above: &[u8], width: usize, height: usize)
    requires
        block_fits(old(dst)@.len(), dst_stride as nat, width as nat, height as nat),
        width <= above@.len(),
    ensures
        block_rows_written(final(dst)@, old(dst)@, dst_stride as nat, width as nat, height as nat,
            |r: int, c: int| above@[c]),
        width <= dst_stride ==> block_written(final(dst)@, old(dst)@, dst_stride as nat, width as nat, height as nat,
            |r: int, c: int| above@[c]),
{
    let ghost val = |r: int, c: int| above@[c];
    let dlen: usize = dst.len();
    let mut row: usize = 0;
    while row < height
        invariant
            block_fits(old(dst)@.len(), dst_stride as nat, width as nat, height as nat),
            width <= above@.len(),
            row <= height,
            dlen == dst@.len(),
            val == (|r: int, c: int| above@[c]),
            dst@.len() == old(dst)@.len(),
            forall|i: int| 0 <= i < old(dst)@.len() ==>
                #[trigger] dst@[i] == rows_state(old(dst)@, dst_stride as nat, width as nat, val, row as int, i),
        decreases height - row,
    {
        let mut col: usize = 0;
        while col < width
            invariant
                row < height,
                block_fits(old(dst)@.len(), dst_stride as nat, width as nat, height as nat),
                width <= above@.len(),
                col <= width,
                dlen == dst@.len(),
                val == (|r: int, c: int| above@[c]),
                dst@.len() == old(dst)@.len(),
                forall|i: int| 0 <= i < old(dst)@.len() ==> #[trigger] dst@[i]
                    == row_partial(old(dst)@, dst_stride as nat, width as nat, val, row as int, col as int, i),
            decreases width - col,
        {
            proof {
                let dl = dst@.len();
                assert(row * dst_stride + col < dl) by (nonlinear_arith)
                    requires row < height, col < width, (height - 1) * dst_stride + width <= dl;
            }
            let v: u8 = above[col];
            let ghost before = dst@;
            dst[row * dst_stride + col] = v;
            proof {
                lemma_rows_write(dst@, before, old(dst)@, dst_stride as nat, width as nat, val, row as int, col as int);
            }
            col = col + 1;
        }
        proof { lemma_rows_done(dst@, old(dst)@, dst_stride as nat, width as nat, val, row as int); }
        row = row + 1;
    }
    proof {
        if width <= dst_stride {
            lemma_rows_block(dst@, old(dst)@, dst_stride as nat, width as nat, height as nat, val);
        }
    }
}

/// Horizontal prediction: each row repeats its left neighbour.
pub fn predict_h(dst: &mut [u8], dst_stride: usize, left: &[u8], width: usize, height: usize)
    requires
        block_fits(old(dst)@.len(), dst_stride as nat, width as nat, height as nat),
        height <= left@.len(),
    ensures
        block_rows_written(final(dst)@, old(dst)@, dst_stride as nat, width as nat, height as nat,
            |r: int, c: int| left@[r]),
        width <= dst_stride ==> block_written(final(dst)@, old(dst)@, dst_stride as nat, width as nat, height as nat,
            |r: int, c: int| left@[r]),
{
    let ghost val = |r: int, c: int| left@[r];
    let dlen: usize = dst.len();
    let mut row: usize = 0;
    while row < height
        invariant
            block_fits(old(dst)@.len(), dst_stride as nat, width as nat, height as nat),
            height <= left@.len(),
            row <= height,
            dlen == dst@.len(),
            val == (|r: int, c: int| left@[r]),
            dst@.len() == old(dst)@.len(),
            forall|i: int| 0 <= i < old(dst)@.len() ==>
                #[trigger] dst@[i] == rows_state(old(dst)@, dst_stride as nat, width as nat, val, row as int, i),
        decreases height - row,
    {
        let mut col: usize = 0;
        while col < width
            invariant
                row < height,
                block_fits(old(dst)@.len(), dst_stride as nat, width as nat, height as nat),
                height <= left@.len(),
                col <= width,
                dlen == dst@.len(),
                val == (|r: int, c: int| left@[r]),
                dst@.len() == old(dst)@.len(),
                forall|i: int| 0 <= i < old(dst)@.len() ==> #[trigger] dst@[i]
                    == row_partial(old(dst)@, dst_stride as nat, width as nat, val, row as int, col as int, i),
            decreases width - col,
        {
            proof {
                let dl = dst@.len();
                assert(row * dst_stride + col < dl) by (nonlinear_arith)
                    requires row < height, col < width, (height - 1) * dst_stride + width <= dl;
            }
            let v: u8 = left[row];
            let ghost before = dst@;
            dst[row * dst_stride + col] = v;
            proof {
                lemma_rows_write(dst@, before, old(dst)@, dst_stride as nat, width as nat, val, row as int, col as int);
            }
            col = col + 1;
        }
        proof { lemma_rows_done(dst@, old(dst)@, dst_stride as nat, width as nat, val, row as int); }
        row = row + 1;
    }
    proof {
        if width <= dst_stride {
            lemma_rows_block(dst@, old(dst)@, dst_stride as nat, width as nat, height as nat, val);
        }
    }
}

/// Smooth prediction: the rounded mean of a vertical blend of the above pixel with the bottom-left pixel and a horizontal blend of the left pixel with the top-right pixel, capped at 255.
pub fn predict_smooth(dst: &mut [u8], dst_stride: usize, above: &[u8], left: &[u8], width: usize, height: usize)
    requires
        block_fits(old(dst)@.len(), dst_stride as nat, width as nat, height as nat),
        1 <= width <= above@.len(),
        1 <= height <= left@.len(),
        height <= smooth_len(height as nat),
        width <= smooth_len(width as nat),
    ensures
        block_rows_written(final(dst)@, old(dst)@, dst_stride as nat, width as nat, height as nat,
            |r: int, c: int| cap255((spec_smooth_weight(height as nat, r) * above@[c]
                + (256 - spec_smooth_weight(height as nat, r)) * left@[height - 1]
                + spec_smooth_weight(width as nat, c) * left@[r]
                + (256 - spec_smooth_weight(width as nat, c)) * above@[width - 1] + 256) / 512)),
        width <= dst_stride ==> block_written(final(dst)@, old(dst)@, dst_stride as nat, width as nat, height as nat,
            |r: int, c: int| cap255((spec_smooth_weight(height as nat, r) * above@[c]
                + (256 - spec_smooth_weight(height as nat, r)) * left@[height - 1]
                + spec_smooth_weight(width as nat, c) * left@[r]
                + (256 - spec_smooth_weight(width as nat, c)) * above@[width - 1] + 256) / 512)),
{
    let ghost val = |r: int, c: int| cap255((spec_smooth_weight(height as nat, r) * above@[c]
                + (256 - spec_smooth_weight(height as nat, r)) * left@[height - 1]
                + spec_smooth_weight(width as nat, c) * left@[r]
                + (256 - spec_smooth_weight(width as nat, c)) * above@[width - 1] + 256) / 512);
    let dlen: usize = dst.len();
    let mut row: usize = 0;
    while row < height
        invariant
            block_fits(old(dst)@.len(), dst_stride as nat, width as nat, height as nat),
            1 <= width <= above@.len(),
            1 <= height <= left@.len(),
            height <= smooth_len(height as nat),
            width <= smooth_len(width as nat),
            row <= height,
            dlen == dst@.len(),
            val == (|r: int, c: int| cap255((spec_smooth_weight(height as nat, r) * above@[c]
                + (256 - spec_smooth_weight(height as nat, r)) * left@[height - 1]
                + spec_smooth_weight(width as nat, c) * left@[r]
                + (256 - spec_smooth_weight(width as nat, c)) * above@[width - 1] + 256) / 512)),
            dst@.len() == old(dst)@.len(),
            forall|i: int| 0 <= i < old(dst)@.len() ==>
                #[trigger] dst@[i] == rows_state(old(dst)@, dst_stride as nat, width as nat, val, row as int, i),
        decreases height - row,
    {
        let mut col: usize = 0;
        while col < width
            invariant
                row < height,
                block_fits(old(dst)@.len(), dst_stride as nat, width as nat, height as nat),
                1 <= width <= above@.len(),
                1 <= height <= left@.len(),
                height <= smooth_len(height as nat),
                width <= smooth_len(width as nat),
                col <= width,
                dlen == dst@.len(),
                val == (|r: int, c: int| cap255((spec_smooth_weight(height as nat, r) * above@[c]
                + (256 - spec_smooth_weight(height as nat, r)) * left@[height - 1]
                + spec_smooth_weight(width as nat, c) * left@[r]
                + (256 - spec_smooth_weight(width as nat, c)) * above@[width - 1] + 256) / 512)),
                dst@.len() == old(dst)@.len(),
                forall|i: int| 0 <= i < old(dst)@.len() ==> #[trigger] dst@[i]
                    == row_partial(old(dst)@, dst_stride as nat, width as nat, val, row as int, col as int, i),
            decreases width - col,
        {
            proof {
                let dl = dst@.len();
                assert(row * dst_stride + col < dl) by (nonlinear_arith)
                    requires row < height, col < width, (height - 1) * dst_stride + width <= dl;
            }
            let wh: u32 = smooth_weight(height, row) as u32;
            let ww: u32 = smooth_weight(width, col) as u32;
            let top: u32 = above[col] as u32;
            let lft: u32 = left[row] as u32;
            let below_pred: u32 = left[height - 1] as u32;
            let right_pred: u32 = above[width - 1] as u32;
            proof {
                assert(wh * top <= 255 * 255) by (nonlinear_arith) requires wh <= 255, top <= 255;
                assert((256 - wh) * below_pred <= 256 * 255) by (nonlinear_arith) requires wh <= 255, below_pred <= 255;
                assert(ww * lft <= 255 * 255) by (nonlinear_arith) requires ww <= 255, lft <= 255;
                assert((256 - ww) * right_pred <= 256 * 255) by (nonlinear_arith) requires ww <= 255, right_pred <= 255;
            }
            let pred: u32 = (wh * top + (256 - wh) * below_pred + ww * lft + (256 - ww) * right_pred + 256) / 512;
            let v: u8 = if pred < 255 { pred as u8 } else { 255 };
            let ghost before = dst@;
            dst[row * dst_stride + col] = v;
            proof {
                lemma_rows_write(dst@, before, old(dst)@, dst_stride as nat, width as nat, val, row as int, col as int);
            }
            col = col + 1;
        }
        proof { lemma_rows_done(dst@, old(dst)@, dst_stride as nat, width as nat, val, row as int); }
        row = row + 1;
    }
    proof {
        if width <= dst_stride {
            lemma_rows_block(dst@, old(dst)@, dst_stride as nat, width as nat, height as nat, val);
        }
    }
}

/// Smooth vertical prediction: each pixel blends the above pixel with the bottom-left pixel by the row's weight.
pub fn predict_smooth_v(dst: &mut [u8], dst_stride: usize, above: &[u8], left: &[u8], _width: usize, height: usize, width: usize)
    requires
        block_fits(old(dst)@.len(), dst_stride as nat, width as nat, height as nat),
        width <= above@.len(),
        1 <= height <= left@.len(),
        height <= smooth_len(height as nat),
    ensures
        block_rows_written(final(dst)@, old(dst)@, dst_stride as nat, width as nat, height as nat,
            |r: int, c: int| cap255((spec_smooth_weight(height as nat, r) * above@[c]
                + (256 - spec_smooth_weight(height as nat, r)) * left@[height - 1] + 128) / 256)),
        width <= dst_stride ==> block_written(final(dst)@, old(dst)@, dst_stride as nat, width as nat, height as nat,
            |r: int, c: int| cap255((spec_smooth_weight(height as nat, r) * above@[c]
                + (256 - spec_smooth_weight(height as nat, r)) * left@[height - 1] + 128) / 256)),
{
    let ghost val = |r: int, c: int| cap255((spec_smooth_weight(height as nat, r) * above@[c]
                + (256 - spec_smooth_weight(height as nat, r)) * left@[height - 1] + 128) / 256);
    let dlen: usize = dst.len();
    let mut row: usize = 0;
    while row < height
        invariant
            block_fits(old(dst)@.len(), dst_stride as nat, width as nat, height as nat),
            width <= above@.len(),
            1 <= height <= left@.len(),
            height <= smooth_len(height as nat),
            row <= height,
            dlen == dst@.len(),
            val == (|r: int, c: int| cap255((spec_smooth_weight(height as nat, r) * above@[c]
                + (256 - spec_smooth_weight(height as nat, r)) * left@[height - 1] + 128) / 256)),
            dst@.len() == old(dst)@.len(),
            forall|i: int| 0 <= i < old(dst)@.len() ==>
                #[trigger] dst@[i] == rows_state(old(dst)@, dst_stride as nat, width as nat, val, row as int, i),
        decreases height - row,
    {
        let mut col: usize = 0;
        while col < width
            invariant
                row < height,
                block_fits(old(dst)@.len(), dst_stride as nat, width as nat, height as nat),
                width <= above@.len(),
                1 <= height <= left@.len(),
                height <= smooth_len(height as nat),
                col <= width,
                dlen == dst@.len(),
                val == (|r: int, c: int| cap255((spec_smooth_weight(height as nat, r) * above@[c]
                + (256 - spec_smooth_weight(height as nat, r)) * left@[height - 1] + 128) / 256)),
                dst@.len() == old(dst)@.len(),
                forall|i: int| 0 <= i < old(dst)@.len() ==> #[trigger] dst@[i]
                    == row_partial(old(dst)@, dst_stride as nat, width as nat, val, row as int, col as int, i),
            decreases width - col,
        {
            proof {
                let dl = dst@.len();
                assert(row * dst_stride + col < dl) by (nonlinear_arith)
                    requires row < height, col < width, (height - 1) * dst_stride + width <= dl;
            }
            let w: u32 = smooth_weight(height, row) as u32;
            let top: u32 = above[col] as u32;
            let below_pred: u32 = left[height - 1] as u32;
            proof {
                assert(w * top <= 255 * 255) by (nonlinear_arith) requires w <= 255, top <= 255;
                assert((256 - w) * below_pred <= 256 * 255) by (nonlinear_arith) requires w <= 255, below_pred <= 255;
            }
            let pred: u32 = (w * top + (256 - w) * below_pred + 128) / 256;
            let v: u8 = if pred < 255 { pred as u8 } else { 255 };
            let ghost before = dst@;
            dst[row * dst_stride + col] = v;
            proof {
                lemma_rows_write(dst@, before, old(dst)@, dst_stride as nat, width as nat, val, row as int, col as int);
            }
            col = col + 1;
        }
        proof { lemma_rows_done(dst@, old(dst)@, dst_stride as nat, width as nat, val, row as int); }
        row = row + 1;
    }
    proof {
        if width <= dst_stride {
            lemma_rows_block(dst@, old(dst)@, dst_stride as nat, width as nat, height as nat, val);
        }
    }
}

/// Smooth horizontal prediction: each pixel blends the left pixel with the top-right pixel by the column's weight.
pub fn predict_smooth_h(dst: &mut [u8], dst_stride: usize, above: &[u8], left: &[u8], width: usize, height: usize)
    requires
        block_fits(old(dst)@.len(), dst_stride as nat, width as nat, height as nat),
        1 <= width <= above@.len(),
        height <= left@.len(),
        width <= smooth_len(width as nat),
    ensures
        block_rows_written(final(dst)@, old(dst)@, dst_stride as nat, width as nat, height as nat,
            |r: int, c: int| cap255((spec_smooth_weight(width as nat, c) * left@[r]
                + (256 - spec_smooth_weight(width as nat, c)) * above@[width - 1] + 128) / 256)),
        width <= dst_stride ==> block_written(final(dst)@, old(dst)@, dst_stride as nat, width as nat, height as nat,
            |r: int, c: int| cap255((spec_smooth_weight(width as nat, c) * left@[r]
                + (256 - spec_smooth_weight(width as nat, c)) * above@[width - 1] + 128) / 256)),
{
    let ghost val = |r: int, c: int| cap255((spec_smooth_weight(width as nat, c) * left@[r]
                + (256 - spec_smooth_weight(width as nat, c)) * above@[width - 1] + 128) / 256);
    let dlen: usize = dst.len();
    let mut row: usize = 0;
    while row < height
        invariant
            block_fits(old(dst)@.len(), dst_stride as nat, width as nat, height as nat),
            1 <= width <= above@.len(),
            height <= left@.len(),
            width <= smooth_len(width as nat),
            row <= height,
            dlen == dst@.len(),
            val == (|r: int, c: int| cap255((spec_smooth_weight(width as nat, c) * left@[r]
                + (256 - spec_smooth_weight(width as nat, c)) * above@[width - 1] + 128) / 256)),
            dst@.len() == old(dst)@.len(),
            forall|i: int| 0 <= i < old(dst)@.len() ==>
                #[trigger] dst@[i] == rows_state(old(dst)@, dst_stride as nat, width as nat, val, row as int, i),
        decreases height - row,
    {
        let mut col: usize = 0;
        while col < width
            invariant
                row < height,
                block_fits(old(dst)@.len(), dst_stride as nat, width as nat, height as nat),
                1 <= width <= above@.len(),
                height <= left@.len(),
                width <= smooth_len(width as nat),
                col <= width,
                dlen == dst@.len(),
                val == (|r: int, c: int| cap255((spec_smooth_weight(width as nat, c) * left@[r]
                + (256 - spec_smooth_weight(width as nat, c)) * above@[width - 1] + 128) / 256)),
                dst@.len() == old(dst)@.len(),
                forall|i: int| 0 <= i < old(dst)@.len() ==> #[trigger] dst@[i]
                    == row_partial(old(dst)@, dst_stride as nat, width as nat, val, row as int, col as int, i),
            decreases width - col,
        {
            proof {
                let dl = dst@.len();
                assert(row * dst_stride + col < dl) by (nonlinear_arith)
                    requires row < height, col < width, (height - 1) * dst_stride + width <= dl;
            }
            let w: u32 = smooth_weight(width, col) as u32;
            let lft: u32 = left[row] as u32;
            let right_pred: u32 = above[width - 1] as u32;
            proof {
                assert(w * lft <= 255 * 255) by (nonlinear_arith) requires w <= 255, lft <= 255;
                assert((256 - w) * right_pred <= 256 * 255) by (nonlinear_arith) requires w <= 255, right_pred <= 255;
            }
            let pred: u32 = (w * lft + (256 - w) * right_pred + 128) / 256;
            let v: u8 = if pred < 255 { pred as u8 } else { 255 };
            let ghost before = dst@;
            dst[row * dst_stride + col] = v;
            proof {
                lemma_rows_write(dst@, before, old(dst)@, dst_stride as nat, width as nat, val, row as int, col as int);
            }
            col = col + 1;
        }
        proof { lemma_rows_done(dst@, old(dst)@, dst_stride as nat, width as nat, val, row as int); }
        row = row + 1;
    }
    proof {
        if width <= dst_stride {
            lemma_rows_block(dst@, old(dst)@, dst_stride as nat, width as nat, height as nat, val);
        }
    }
}

/// Paeth prediction: each pixel takes whichever of its above, left and top-left neighbours is nearest to their gradient estimate.
pub fn predict_paeth(dst: &mut [u8], dst_stride: usize, above: &[u8], left: &[u8], top_left: u8, width: usize, height: usize)
    requires
        block_fits(old(dst)@.len(), dst_stride as nat, width as nat, height as nat),
        width <= above@.len(),
        height <= left@.len(),
    ensures
        block_rows_written(final(dst)@, old(dst)@, dst_stride as nat, width as nat, height as nat,
            |r: int, c: int| spec_paeth(above@[c] as int, left@[r] as int, top_left as int)),
        width <= dst_stride ==> block_written(final(dst)@, old(dst)@, dst_stride as nat, width as nat, height as nat,
            |r: int, c: int| spec_paeth(above@[c] as int, left@[r] as int, top_left as int)),
{
    let ghost val = |r: int, c: int| spec_paeth(above@[c] as int, left@[r] as int, top_left as int);
    let dlen: usize = dst.len();
    let mut row: usize = 0;
    while row < height
        invariant
            block_fits(old(dst)@.len(), dst_stride as nat, width as nat, height as nat),
            width <= above@.len(),
            height <= left@.len(),
            row <= height,
            dlen == dst@.len(),
            val == (|r: int, c: int| spec_paeth(above@[c] as int, left@[r] as int, top_left as int)),
            dst@.len() == old(dst)@.len(),
            forall|i: int| 0 <= i < old(dst)@.len() ==>
                #[trigger] dst@[i] == rows_state(old(dst)@, dst_stride as nat, width as nat, val, row as int, i),
        decreases height - row,
    {
        let mut col: usize = 0;
        while col < width
            invariant
                row < height,
                block_fits(old(dst)@.len(), dst_stride as nat, width as nat, height as nat),
                width <= above@.len(),
                height <= left@.len(),
                col <= width,
                dlen == dst@.len(),
                val == (|r: int, c: int| spec_paeth(above@[c] as int, left@[r] as int, top_left as int)),
                dst@.len() == old(dst)@.len(),
                forall|i: int| 0 <= i < old(dst)@.len() ==> #[trigger] dst@[i]
                    == row_partial(old(dst)@, dst_stride as nat, width as nat, val, row as int, col as int, i),
            decreases width - col,
        {
            proof {
                let dl = dst@.len();
                assert(row * dst_stride + col < dl) by (nonlinear_arith)
                    requires row < height, col < width, (height - 1) * dst_stride + width <= dl;
            }
            let top: i32 = above[col] as i32;
            let lft: i32 = left[row] as i32;
            let tl: i32 = top_left as i32;
            let base: i32 = top + lft - tl;
            let p_top: i32 = if base >= top { base - top } else { top - base };
            let p_left: i32 = if base >= lft { base - lft } else { lft - base };
            let p_tl: i32 = if base >= tl { base - tl } else { tl - base };
            let pred: i32 = if p_top <= p_left && p_top <= p_tl { top } else if p_left <= p_tl { lft } else { tl };
            let v: u8 = pred as u8;
            let ghost before = dst@;
            dst[row * dst_stride + col] = v;
            proof {
                lemma_rows_write(dst@, before, old(dst)@, dst_stride as nat, width as nat, val, row as int, col as int);
            }
            col = col + 1;
        }
        proof { lemma_rows_done(dst@, old(dst)@, dst_stride as nat, width as nat, val, row as int); }
        row = row + 1;
    }
    proof {
        if width <= dst_stride {
            lemma_rows_block(dst@, old(dst)@, dst_stride as nat, width as nat, height as nat, val);
        }
    }
}

} // verus!
