//! Warped motion prediction: each pixel of the block is mapped through an affine
//! model (Q16) into the reference and interpolated with the 8-tap filter.
use vstd::prelude::*;
use crate::dsp::copy::{block_fits, block_written, block_rows_written, rows_state, row_partial, lemma_rows_write, lemma_rows_done, lemma_rows_block};
use crate::dsp::fwd_txfm::{lemma_i64_shr};
use crate::dsp::subpel::{ref_px, subpel_px, subpel_interp, lemma_subpel_integer};
use crate::types::motion::WarpedMotionParams;

verus! {

/// Fractional bits of the warp model.
pub const WARPEDMODEL_PREC_BITS: u32 = 16;
/// Bits dropped from the warp parameters before the shear filter.
pub const WARP_PARAM_REDUCE_BITS: u32 = 6;

/// Reference column (Q16) of pixel `(r, c)`: `m2 * (c + ref_x) + m3 * (r + ref_y) + m0 << 16`.
pub open spec fn warp_map_x(m: Seq<i32>, ref_x: i32, ref_y: i32, r: int, c: int) -> int {
    m[2] * (c + ref_x) + m[3] * (r + ref_y) + m[0] * 65536
}

/// Reference row (Q16) of pixel `(r, c)`: `m4 * (c + ref_x) + m5 * (r + ref_y) + m1 << 16`.
pub open spec fn warp_map_y(m: Seq<i32>, ref_x: i32, ref_y: i32, r: int, c: int) -> int {
    m[4] * (c + ref_x) + m[5] * (r + ref_y) + m[1] * 65536
}

/// The model maps pixel `(r, c)` without leaving 64-bit arithmetic, to a position
/// whose whole part leaves the filter room in 32 bits.
pub open spec fn warp_point_ok(m: Seq<i32>, ref_x: i32, ref_y: i32, r: int, c: int) -> bool {
    &&& r + ref_y <= i32::MAX && c + ref_x <= i32::MAX
    &&& i64::MIN <= m[2] * (c + ref_x) + m[3] * (r + ref_y) <= i64::MAX
    &&& i64::MIN <= m[4] * (c + ref_x) + m[5] * (r + ref_y) <= i64::MAX
    &&& i64::MIN <= warp_map_x(m, ref_x, ref_y, r, c) <= i64::MAX
    &&& i64::MIN <= warp_map_y(m, ref_x, ref_y, r, c) <= i64::MAX
    &&& i32::MIN + 3 <= warp_map_x(m, ref_x, ref_y, r, c) / 65536 <= i32::MAX - 4
    &&& i32::MIN + 3 <= warp_map_y(m, ref_x, ref_y, r, c) / 65536 <= i32::MAX - 4
}

/// The warped pixel `(r, c)`: the 8-tap interpolation at the mapped position, with
/// the top four fractional bits as the phase.
pub open spec fn warp_px(pic: Seq<u8>, stride: usize, pic_width: usize, pic_height: usize, m: Seq<i32>,
    ref_x: i32, ref_y: i32, r: int, c: int) -> int {
    let mx = warp_map_x(m, ref_x, ref_y, r, c);
    let my = warp_map_y(m, ref_x, ref_y, r, c);
    subpel_px(pic, stride, pic_width, pic_height, mx / 65536, my / 65536, (mx % 65536) / 4096, (my % 65536) / 4096)
}

/// Whole and phase part of a Q16 position.
fn q16_split(v: i64) -> (res: (i32, usize))
    requires i32::MIN + 3 <= (v as int) / 65536 <= i32::MAX - 4,
    ensures res.0 == (v as int) / 65536, res.1 == ((v as int) % 65536) / 4096, res.1 < 16,
{
    proof {
        lemma_i64_shr(v, 16);
        vstd::arithmetic::power2::lemma2_to64();
    }
    let whole: i32 = (v >> 16) as i32;
    let frac: u32 = (v - whole as i64 * 65536) as u32;
    proof {
        assert(frac == (v as int) % 65536);
        vstd::bits::lemma_u32_shr_is_div(frac, 12);
    }
    let f: usize = (frac >> 12) as usize;
    (whole, if f > 15 { 15 } else { f })
}

/// One warped pixel: [`warp_px`].
fn warp_pixel(pic: &[u8], stride: usize, pic_width: usize, pic_height: usize, m: &[i32; 6], ref_x: i32, ref_y: i32,
    r: usize, c: usize) -> (p: u8)
    requires
        1 <= pic_width <= i32::MAX, 1 <= pic_height <= i32::MAX,
        (pic_height - 1) * stride + pic_width <= pic@.len(),
        r <= i32::MAX, c <= i32::MAX,
        warp_point_ok(m@, ref_x, ref_y, r as int, c as int),
    ensures p == warp_px(pic@, stride, pic_width, pic_height, m@, ref_x, ref_y, r as int, c as int),
{
    let sx: i32 = r as i32 + ref_y;
    let sy: i32 = c as i32 + ref_x;
    proof {
        assert(-0x4000_0000_0000_0000 <= m[2] * sy <= 0x4000_0000_0000_0000) by (nonlinear_arith)
            requires i32::MIN <= m[2] <= i32::MAX, i32::MIN <= sy <= i32::MAX;
        assert(-0x4000_0000_0000_0000 <= m[3] * sx <= 0x4000_0000_0000_0000) by (nonlinear_arith)
            requires i32::MIN <= m[3] <= i32::MAX, i32::MIN <= sx <= i32::MAX;
        assert(-0x4000_0000_0000_0000 <= m[4] * sy <= 0x4000_0000_0000_0000) by (nonlinear_arith)
            requires i32::MIN <= m[4] <= i32::MAX, i32::MIN <= sy <= i32::MAX;
        assert(-0x4000_0000_0000_0000 <= m[5] * sx <= 0x4000_0000_0000_0000) by (nonlinear_arith)
            requires i32::MIN <= m[5] <= i32::MAX, i32::MIN <= sx <= i32::MAX;
    }
    let map_x: i64 = m[2] as i64 * sy as i64 + m[3] as i64 * sx as i64 + m[0] as i64 * 65536;
    let map_y: i64 = m[4] as i64 * sy as i64 + m[5] as i64 * sx as i64 + m[1] as i64 * 65536;
    let (ix, fx) = q16_split(map_x);
    let (iy, fy) = q16_split(map_y);
    subpel_interp(pic, stride, pic_width, pic_height, ix, iy, fx, fy)
}

/// Warped prediction of the `width` x `height` block: each pixel is [`warp_px`] under
/// the affine model `params.wmmat`.
pub fn warp_prediction(
    pic: &[u8],
    ref_stride: usize,
    dst: &mut [u8],
    dst_stride: usize,
    params: &WarpedMotionParams,
    ref_x: i32,
    ref_y: i32,
    width: usize,
    height: usize,
    pic_width: usize,
    pic_height: usize,
)
    requires
        width <= i32::MAX, height <= i32::MAX,
        block_fits(old(dst)@.len(), dst_stride as nat, width as nat, height as nat),
        forall|r: int, c: int| 0 <= r < height && 0 <= c < width ==>
            #[trigger] warp_point_ok(params.wmmat@, ref_x, ref_y, r, c),
        width > 0 && height > 0 ==> 1 <= pic_width <= i32::MAX && 1 <= pic_height <= i32::MAX
            && (pic_height - 1) * ref_stride + pic_width <= pic@.len(),
    ensures
        block_rows_written(final(dst)@, old(dst)@, dst_stride as nat, width as nat, height as nat,
            |r: int, c: int| warp_px(pic@, ref_stride, pic_width, pic_height, params.wmmat@, ref_x, ref_y, r, c)
            as u8),
        width <= dst_stride ==> block_written(final(dst)@, old(dst)@, dst_stride as nat, width as nat, height as nat,
            |r: int, c: int| warp_px(pic@, ref_stride, pic_width, pic_height, params.wmmat@, ref_x, ref_y, r, c)
            as u8),
{
    let ghost val = |r: int, c: int| warp_px(pic@, ref_stride, pic_width, pic_height, params.wmmat@, ref_x, ref_y,
        r, c) as u8;
    let m: &[i32; 6] = &params.wmmat;
    let dlen: usize = dst.len();
    let mut r: usize = 0;
    while r < height
        invariant
            r <= height, width <= i32::MAX, height <= i32::MAX, dlen == dst@.len(),
            m@ == params.wmmat@,
            block_fits(old(dst)@.len(), dst_stride as nat, width as nat, height as nat),
            forall|r: int, c: int| 0 <= r < height && 0 <= c < width ==>
                #[trigger] warp_point_ok(params.wmmat@, ref_x, ref_y, r, c),
            width > 0 && height > 0 ==> 1 <= pic_width <= i32::MAX && 1 <= pic_height <= i32::MAX
                && (pic_height - 1) * ref_stride + pic_width <= pic@.len(),
            val == (|r: int, c: int| warp_px(pic@, ref_stride, pic_width, pic_height, params.wmmat@, ref_x, ref_y,
                r, c) as u8),
            dst@.len() == old(dst)@.len(),
            forall|i: int| 0 <= i < old(dst)@.len() ==>
                #[trigger] dst@[i] == rows_state(old(dst)@, dst_stride as nat, width as nat, val, r as int, i),
        decreases height - r,
    {
        let mut c: usize = 0;
        while c < width
            invariant
                r < height, c <= width, width <= i32::MAX, height <= i32::MAX,
                dlen == dst@.len(), m@ == params.wmmat@,
                block_fits(old(dst)@.len(), dst_stride as nat, width as nat, height as nat),
                forall|r: int, c: int| 0 <= r < height && 0 <= c < width ==>
                    #[trigger] warp_point_ok(params.wmmat@, ref_x, ref_y, r, c),
                width > 0 ==> 1 <= pic_width <= i32::MAX && 1 <= pic_height <= i32::MAX
                    && (pic_height - 1) * ref_stride + pic_width <= pic@.len(),
                val == (|r: int, c: int| warp_px(pic@, ref_stride, pic_width, pic_height, params.wmmat@, ref_x,
                    ref_y, r, c) as u8),
                dst@.len() == old(dst)@.len(),
                forall|i: int| 0 <= i < old(dst)@.len() ==> #[trigger] dst@[i]
                    == row_partial(old(dst)@, dst_stride as nat, width as nat, val, r as int, c as int, i),
            decreases width - c,
        {
            proof {
                let dl = dst@.len();
                assert(r * dst_stride + c < dl) by (nonlinear_arith)
                    requires r < height, c < width, (height - 1) * dst_stride + width <= dl;
                assert(warp_point_ok(params.wmmat@, ref_x, ref_y, r as int, c as int));
            }
            let v: u8 = warp_pixel(pic, ref_stride, pic_width, pic_height, m, ref_x, ref_y, r, c);
            let ghost before = dst@;
            dst[r * dst_stride + c] = v;
            proof {
                assert(v == val(r as int, c as int));
                lemma_rows_write(dst@, before, old(dst)@, dst_stride as nat, width as nat, val, r as int, c as int);
            }
            c = c + 1;
        }
        proof { lemma_rows_done(dst@, old(dst)@, dst_stride as nat, width as nat, val, r as int); }
        r = r + 1;
    }
    proof {
        if width <= dst_stride {
            lemma_rows_block(dst@, old(dst)@, dst_stride as nat, width as nat, height as nat, val);
        }
    }
}

/// The identity model (`m2 = m5 = 1 << 16`, all else 0) copies the reference:
/// pixel `(r, c)` is the reference pixel at `(ref_y + r, ref_x + c)`, edges clamped.
pub proof fn lemma_warp_identity_is_copy(pic: Seq<u8>, stride: usize, pic_width: usize, pic_height: usize,
    m: Seq<i32>, ref_x: i32, ref_y: i32, r: int, c: int)
    requires m =~= seq![0i32, 0, 65536, 0, 0, 65536],
    ensures
        warp_px(pic, stride, pic_width, pic_height, m, ref_x, ref_y, r, c)
            == ref_px(pic, stride, pic_width, pic_height, ref_y + r, ref_x + c),
{
    let mx = warp_map_x(m, ref_x, ref_y, r, c);
    let my = warp_map_y(m, ref_x, ref_y, r, c);
    assert(m[0] == 0 && m[1] == 0 && m[2] == 65536 && m[3] == 0 && m[4] == 0 && m[5] == 65536);
    let (m0, m1, m2, m3, m4, m5) = (m[0] as int, m[1] as int, m[2] as int, m[3] as int, m[4] as int, m[5] as int);
    assert(mx == (c + ref_x) * 65536) by (nonlinear_arith)
        requires mx == m2 * (c + ref_x) + m3 * (r + ref_y) + m0 * 65536, m0 == 0, m2 == 65536, m3 == 0;
    assert(my == (r + ref_y) * 65536) by (nonlinear_arith)
        requires my == m4 * (c + ref_x) + m5 * (r + ref_y) + m1 * 65536, m1 == 0, m4 == 0, m5 == 65536;
    assert(mx / 65536 == c + ref_x && mx % 65536 == 0) by (nonlinear_arith) requires mx == (c + ref_x) * 65536;
    assert(my / 65536 == r + ref_y && my % 65536 == 0) by (nonlinear_arith) requires my == (r + ref_y) * 65536;
    lemma_subpel_integer(pic, stride, pic_width, pic_height, c + ref_x, r + ref_y);
}

/// Number of the four neighbouring motion vectors that are available.
pub fn count_warp_samples(above_mv: Option<(i16, i16)>, left_mv: Option<(i16, i16)>,
    above_right_mv: Option<(i16, i16)>, below_left_mv: Option<(i16, i16)>) -> (count: u8)
    ensures
        count == (if above_mv is Some { 1int } else { 0 }) + (if left_mv is Some { 1int } else { 0 })
            + (if above_right_mv is Some { 1int } else { 0 }) + (if below_left_mv is Some { 1int } else { 0 }),
{
    let mut count: u8 = 0;
    if above_mv.is_some() {
        count += 1;
    }
    if left_mv.is_some() {
        count += 1;
    }
    if above_right_mv.is_some() {
        count += 1;
    }
    if below_left_mv.is_some() {
        count += 1;
    }
    count
}

} // verus!
