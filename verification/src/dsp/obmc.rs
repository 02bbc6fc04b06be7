//! Overlapped block motion compensation: blending the prediction of a block with
//! those of its above and left neighbours near the shared edge.
use vstd::prelude::*;
use crate::dsp::copy::{block_fits, block_written, in_block, lemma_block_step};
use crate::dsp::fwd_txfm::raster;

verus! {

/// Blend weights of the neighbour's prediction (out of 64) across an overlap of
/// `overlap` rows or columns, from the shared edge inward; `[32]` for an overlap of
/// another size.
pub open spec fn obmc_mask_seq(overlap: usize) -> Seq<u8> {
    if overlap == 1 { seq![64u8] }
    else if overlap == 2 { seq![45u8, 19] }
    else if overlap == 4 { seq![53u8, 32, 11, 4] }
    else if overlap == 8 { seq![56u8, 45, 34, 25, 17, 11, 6, 3] }
    else if overlap == 16 { seq![58u8, 52, 45, 39, 34, 28, 23, 19, 15, 11, 8, 6, 4, 3, 2, 1] }
    else if overlap == 32 {
        seq![59u8, 55, 52, 48, 45, 41, 38, 35, 32, 29, 26, 23, 21, 18, 16, 14, 12, 10, 9, 7, 6, 5, 4,
            3, 3, 2, 2, 1, 1, 1, 0, 0]
    } else { seq![32u8] }
}

/// The blend mask for an overlap size (see [`obmc_mask_seq`]).
pub fn obmc_mask(overlap: usize) -> (r: Vec<u8>)
    ensures r@ == obmc_mask_seq(overlap),
{
    let r: Vec<u8> = if overlap == 1 { vec![64u8] }
    else if overlap == 2 { vec![45u8, 19] }
    else if overlap == 4 { vec![53u8, 32, 11, 4] }
    else if overlap == 8 { vec![56u8, 45, 34, 25, 17, 11, 6, 3] }
    else if overlap == 16 { vec![58u8, 52, 45, 39, 34, 28, 23, 19, 15, 11, 8, 6, 4, 3, 2, 1] }
    else if overlap == 32 {
        vec![59u8, 55, 52, 48, 45, 41, 38, 35, 32, 29, 26, 23, 21, 18, 16, 14, 12, 10, 9, 7, 6, 5, 4,
            3, 3, 2, 2, 1, 1, 1, 0, 0]
    } else { vec![32u8] };
    assert(r@ =~= obmc_mask_seq(overlap));
    r
}

/// `(cur * (64 - m) + nb * m + 32) / 64`.
pub open spec fn obmc_blend(cur: int, nb: int, m: int) -> u8 {
    ((cur * (64 - m) + nb * m + 32) / 64) as u8
}

proof fn lemma_blend_in_range(cur: u32, nb: u32, m: u32)
    requires cur <= 255, nb <= 255, m <= 64,
    ensures
        0 <= cur * (64 - m) + nb * m + 32 <= 16352,
        (cur * (64 - m) + nb * m + 32) / 64 <= 255,
{
    assert(cur * (64 - m) <= 255 * (64 - m)) by (nonlinear_arith) requires cur <= 255, m <= 64;
    assert(nb * m <= 255 * m) by (nonlinear_arith) requires nb <= 255;
}

/// `min(a, b)`.
pub open spec fn min_usize(a: usize, b: usize) -> usize {
    if a < b { a } else { b }
}

/// Blend the first `min(overlap, height)` rows of the block with the prediction from
/// the above neighbour, row `r` with weight `mask[r]`.
#[verifier::rlimit(40)]
pub fn obmc_blend_above(dst: &mut [u8], dst_stride: usize, above_pred: &[u8], above_stride: usize, width: usize,
    height: usize, overlap: usize)
    requires
        width <= dst_stride,
        min_usize(overlap, height) <= obmc_mask_seq(overlap).len(),
        block_fits(old(dst)@.len(), dst_stride as nat, width as nat, min_usize(overlap, height) as nat),
        block_fits(above_pred@.len(), above_stride as nat, width as nat, min_usize(overlap, height) as nat),
    ensures
        block_written(final(dst)@, old(dst)@, dst_stride as nat, width as nat, min_usize(overlap, height) as nat,
            |r: int, c: int| obmc_blend(old(dst)@[raster(r, c, dst_stride as int)] as int,
                above_pred@[raster(r, c, above_stride as int)] as int, obmc_mask_seq(overlap)[r] as int)),
{
    let masks = obmc_mask(overlap);
    let rows: usize = if overlap < height { overlap } else { height };
    let ghost val = |r: int, c: int| obmc_blend(old(dst)@[raster(r, c, dst_stride as int)] as int,
        above_pred@[raster(r, c, above_stride as int)] as int, obmc_mask_seq(overlap)[r] as int);
    let dlen: usize = dst.len();
    let alen: usize = above_pred.len();
    let mut r: usize = 0;
    while r < rows
        invariant
            r <= rows, rows == min_usize(overlap, height), width <= dst_stride,
            rows <= masks@.len(), masks@ == obmc_mask_seq(overlap),
            dlen == dst@.len(), alen == above_pred@.len(),
            block_fits(old(dst)@.len(), dst_stride as nat, width as nat, rows as nat),
            block_fits(above_pred@.len(), above_stride as nat, width as nat, rows as nat),
            val == (|r: int, c: int| obmc_blend(old(dst)@[raster(r, c, dst_stride as int)] as int,
                above_pred@[raster(r, c, above_stride as int)] as int, obmc_mask_seq(overlap)[r] as int)),
            dst@.len() == old(dst)@.len(),
            forall|rr: int, cc: int| 0 <= rr < rows && 0 <= cc < width && rr < r ==>
                dst@[#[trigger] raster(rr, cc, dst_stride as int)] == val(rr, cc),
            forall|rr: int, cc: int| r <= rr < rows && 0 <= cc < width ==>
                dst@[#[trigger] raster(rr, cc, dst_stride as int)] == old(dst)@[raster(rr, cc, dst_stride as int)],
            forall|i: int| 0 <= i < old(dst)@.len() && !in_block(i, dst_stride as nat, width as nat, rows as nat) ==>
                #[trigger] dst@[i] == old(dst)@[i],
        decreases rows - r,
    {
        let mask: u32 = masks[r] as u32;
        assert(mask <= 64);
        let mut c: usize = 0;
        while c < width
            invariant
                r < rows, c <= width, rows == min_usize(overlap, height), width <= dst_stride,
                rows <= masks@.len(), masks@ == obmc_mask_seq(overlap), mask == masks@[r as int], mask <= 64,
                dlen == dst@.len(), alen == above_pred@.len(),
                block_fits(old(dst)@.len(), dst_stride as nat, width as nat, rows as nat),
                block_fits(above_pred@.len(), above_stride as nat, width as nat, rows as nat),
                val == (|r: int, c: int| obmc_blend(old(dst)@[raster(r, c, dst_stride as int)] as int,
                    above_pred@[raster(r, c, above_stride as int)] as int, obmc_mask_seq(overlap)[r] as int)),
                dst@.len() == old(dst)@.len(),
                forall|rr: int, cc: int| 0 <= rr < rows && 0 <= cc < width && (rr < r || (rr == r && cc < c)) ==>
                    dst@[#[trigger] raster(rr, cc, dst_stride as int)] == val(rr, cc),
                forall|rr: int, cc: int| 0 <= cc < width && (r < rr < rows || (rr == r && c <= cc)) ==>
                    dst@[#[trigger] raster(rr, cc, dst_stride as int)] == old(dst)@[raster(rr, cc, dst_stride as int)],
                forall|i: int| 0 <= i < old(dst)@.len() && !in_block(i, dst_stride as nat, width as nat, rows as nat) ==>
                    #[trigger] dst@[i] == old(dst)@[i],
            decreases width - c,
        {
            proof {
                let dl = dst@.len();
                assert(r * dst_stride + c < dl) by (nonlinear_arith)
                    requires r < rows, c < width, (rows - 1) * dst_stride + width <= dl;
                assert(r * above_stride + c < above_pred@.len()) by (nonlinear_arith)
                    requires r < rows, c < width, (rows - 1) * above_stride + width <= above_pred@.len();
            }
            let cur: u32 = dst[r * dst_stride + c] as u32;
            let above: u32 = above_pred[r * above_stride + c] as u32;
            proof {
                lemma_blend_in_range(cur, above, mask);
                vstd::arithmetic::power2::lemma2_to64();
            }
            let t: u32 = cur * (64 - mask) + above * mask + 32;
            proof {
                vstd::bits::lemma_u32_shr_is_div(t, 6);
            }
            let v: u8 = (t >> 6) as u8;
            let ghost before = dst@;
            proof {
                assert(cur == old(dst)@[raster(r as int, c as int, dst_stride as int)]);
                assert(v == val(r as int, c as int));
            }
            dst[r * dst_stride + c] = v;
            proof {
                lemma_block_step(dst@, before, old(dst)@, dst_stride as nat, width as nat, rows as nat, val,
                    r as int, c as int);
                crate::dsp::fwd_txfm::lemma_raster_injective(dst_stride as int);
                assert forall|rr: int, cc: int| 0 <= cc < width && (r < rr < rows || (rr == r && c + 1 <= cc))
                    implies dst@[#[trigger] raster(rr, cc, dst_stride as int)] == old(dst)@[raster(rr, cc, dst_stride as int)] by {
                    let dl = dst@.len();
                    assert(raster(rr, cc, dst_stride as int) != raster(r as int, c as int, dst_stride as int));
                    assert(0 <= rr * dst_stride + cc < dl) by (nonlinear_arith)
                        requires 0 <= rr < rows, 0 <= cc < width, (rows - 1) * dst_stride + width <= dl;
                    assert(before[raster(rr, cc, dst_stride as int)] == old(dst)@[raster(rr, cc, dst_stride as int)]);
                }
            }
            c = c + 1;
        }
        r = r + 1;
    }
}

/// Blend the first `min(overlap, width)` columns of the block with the prediction from
/// the left neighbour, column `c` with weight `mask[c]`.
#[verifier::rlimit(40)]
pub fn obmc_blend_left(dst: &mut [u8], dst_stride: usize, left_pred: &[u8], left_stride: usize, width: usize,
    height: usize, overlap: usize)
    requires
        min_usize(overlap, width) <= dst_stride,
        min_usize(overlap, width) <= obmc_mask_seq(overlap).len(),
        block_fits(old(dst)@.len(), dst_stride as nat, min_usize(overlap, width) as nat, height as nat),
        block_fits(left_pred@.len(), left_stride as nat, min_usize(overlap, width) as nat, height as nat),
    ensures
        block_written(final(dst)@, old(dst)@, dst_stride as nat, min_usize(overlap, width) as nat, height as nat,
            |r: int, c: int| obmc_blend(old(dst)@[raster(r, c, dst_stride as int)] as int,
                left_pred@[raster(r, c, left_stride as int)] as int, obmc_mask_seq(overlap)[c] as int)),
{
    let masks = obmc_mask(overlap);
    let cols: usize = if overlap < width { overlap } else { width };
    let ghost val = |r: int, c: int| obmc_blend(old(dst)@[raster(r, c, dst_stride as int)] as int,
        left_pred@[raster(r, c, left_stride as int)] as int, obmc_mask_seq(overlap)[c] as int);
    let dlen: usize = dst.len();
    let llen: usize = left_pred.len();
    let mut r: usize = 0;
    while r < height
        invariant
            r <= height, cols == min_usize(overlap, width), cols <= dst_stride,
            cols <= masks@.len(), masks@ == obmc_mask_seq(overlap),
            dlen == dst@.len(), llen == left_pred@.len(),
            block_fits(old(dst)@.len(), dst_stride as nat, cols as nat, height as nat),
            block_fits(left_pred@.len(), left_stride as nat, cols as nat, height as nat),
            val == (|r: int, c: int| obmc_blend(old(dst)@[raster(r, c, dst_stride as int)] as int,
                left_pred@[raster(r, c, left_stride as int)] as int, obmc_mask_seq(overlap)[c] as int)),
            dst@.len() == old(dst)@.len(),
            forall|rr: int, cc: int| 0 <= rr < height && 0 <= cc < cols && rr < r ==>
                dst@[#[trigger] raster(rr, cc, dst_stride as int)] == val(rr, cc),
            forall|rr: int, cc: int| r <= rr < height && 0 <= cc < cols ==>
                dst@[#[trigger] raster(rr, cc, dst_stride as int)] == old(dst)@[raster(rr, cc, dst_stride as int)],
            forall|i: int| 0 <= i < old(dst)@.len() && !in_block(i, dst_stride as nat, cols as nat, height as nat) ==>
                #[trigger] dst@[i] == old(dst)@[i],
        decreases height - r,
    {
        let mut c: usize = 0;
        while c < cols
            invariant
                r < height, c <= cols, cols == min_usize(overlap, width), cols <= dst_stride,
                cols <= masks@.len(), masks@ == obmc_mask_seq(overlap),
                dlen == dst@.len(), llen == left_pred@.len(),
                block_fits(old(dst)@.len(), dst_stride as nat, cols as nat, height as nat),
                block_fits(left_pred@.len(), left_stride as nat, cols as nat, height as nat),
                val == (|r: int, c: int| obmc_blend(old(dst)@[raster(r, c, dst_stride as int)] as int,
                    left_pred@[raster(r, c, left_stride as int)] as int, obmc_mask_seq(overlap)[c] as int)),
                dst@.len() == old(dst)@.len(),
                forall|rr: int, cc: int| 0 <= rr < height && 0 <= cc < cols && (rr < r || (rr == r && cc < c)) ==>
                    dst@[#[trigger] raster(rr, cc, dst_stride as int)] == val(rr, cc),
                forall|rr: int, cc: int| 0 <= cc < cols && (r < rr < height || (rr == r && c <= cc)) ==>
                    dst@[#[trigger] raster(rr, cc, dst_stride as int)] == old(dst)@[raster(rr, cc, dst_stride as int)],
                forall|i: int| 0 <= i < old(dst)@.len() && !in_block(i, dst_stride as nat, cols as nat, height as nat) ==>
                    #[trigger] dst@[i] == old(dst)@[i],
            decreases cols - c,
        {
            proof {
                let dl = dst@.len();
                assert(r * dst_stride + c < dl) by (nonlinear_arith)
                    requires r < height, c < cols, (height - 1) * dst_stride + cols <= dl;
                assert(r * left_stride + c < left_pred@.len()) by (nonlinear_arith)
                    requires r < height, c < cols, (height - 1) * left_stride + cols <= left_pred@.len();
            }
            let mask: u32 = masks[c] as u32;
            assert(mask <= 64);
            let cur: u32 = dst[r * dst_stride + c] as u32;
            let left: u32 = left_pred[r * left_stride + c] as u32;
            proof {
                lemma_blend_in_range(cur, left, mask);
                vstd::arithmetic::power2::lemma2_to64();
            }
            let t: u32 = cur * (64 - mask) + left * mask + 32;
            proof {
                vstd::bits::lemma_u32_shr_is_div(t, 6);
            }
            let v: u8 = (t >> 6) as u8;
            let ghost before = dst@;
            proof {
                assert(cur == old(dst)@[raster(r as int, c as int, dst_stride as int)]);
                assert(v == val(r as int, c as int));
            }
            dst[r * dst_stride + c] = v;
            proof {
                lemma_block_step(dst@, before, old(dst)@, dst_stride as nat, cols as nat, height as nat, val,
                    r as int, c as int);
                crate::dsp::fwd_txfm::lemma_raster_injective(dst_stride as int);
                assert forall|rr: int, cc: int| 0 <= cc < cols && (r < rr < height || (rr == r && c + 1 <= cc))
                    implies dst@[#[trigger] raster(rr, cc, dst_stride as int)] == old(dst)@[raster(rr, cc, dst_stride as int)] by {
                    let dl = dst@.len();
                    assert(raster(rr, cc, dst_stride as int) != raster(r as int, c as int, dst_stride as int));
                    assert(0 <= rr * dst_stride + cc < dl) by (nonlinear_arith)
                        requires 0 <= rr < height, 0 <= cc < cols, (height - 1) * dst_stride + cols <= dl;
                    assert(before[raster(rr, cc, dst_stride as int)] == old(dst)@[raster(rr, cc, dst_stride as int)]);
                }
            }
            c = c + 1;
        }
        r = r + 1;
    }
}

} // verus!
