//! Scaled inter prediction: motion compensation from a reference whose size differs
//! from the current frame's, through Q14 scale factors and 8-tap interpolation.
use vstd::prelude::*;
use crate::dsp::copy::{block_fits, block_written, block_rows_written, rows_state, row_partial, lemma_rows_write, lemma_rows_done, lemma_rows_block};
use crate::dsp::fwd_txfm::{lemma_i64_shr};
use crate::dsp::subpel::{ref_px, subpel_px, subpel_interp, subpel_args_ok};
use crate::dsp::superres::clampi;

verus! {

/// Scale factors from the current frame to a reference, in Q14.
#[derive(Debug, Clone, Copy)]
pub struct ScaleFactors {
    /// Horizontal scale: `(ref_width << 14) / cur_width`.
    pub x_scale: i32,
    /// Vertical scale.
    pub y_scale: i32,
}

/// One Q14 scale factor, wrapped to 32 bits: `(ref_dim << 14) / cur_dim`.
pub open spec fn q14_scale(ref_dim: u32, cur_dim: u32) -> i32 {
    ((ref_dim * 16384) / (cur_dim as int)) as i32
}

/// A coordinate mapped by a Q14 scale, floored, wrapped to 32 bits.
pub open spec fn q14_apply(v: i32, scale: i32) -> i32 {
    ((v * scale) / 16384) as i32
}

impl ScaleFactors {
    /// Scale factors for a `ref_width` x `ref_height` reference of a
    /// `cur_width` x `cur_height` frame.
    pub fn new(ref_width: u32, ref_height: u32, cur_width: u32, cur_height: u32) -> (r: Self)
        requires cur_width > 0, cur_height > 0,
        ensures r.x_scale == q14_scale(ref_width, cur_width), r.y_scale == q14_scale(ref_height, cur_height),
    {
        let xs: i64 = (ref_width as i64 * 16384) / cur_width as i64;
        let ys: i64 = (ref_height as i64 * 16384) / cur_height as i64;
        ScaleFactors { x_scale: #[verifier::truncate] (xs as i32), y_scale: #[verifier::truncate] (ys as i32) }
    }

    /// Whether the reference is scaled at all (either factor differs from 1.0).
    pub fn is_scaled(&self) -> (r: bool)
        ensures r == (self.x_scale != 16384 || self.y_scale != 16384),
    {
        self.x_scale != 16384 || self.y_scale != 16384
    }

    /// A horizontal coordinate in the reference.
    pub fn scale_x(&self, x: i32) -> (r: i32)
        ensures r == q14_apply(x, self.x_scale),
    {
        assert(-0x4000_0000_0000_0000 <= x * self.x_scale <= 0x4000_0000_0000_0000) by (nonlinear_arith)
            requires i32::MIN <= x <= i32::MAX, i32::MIN <= self.x_scale <= i32::MAX;
        let p: i64 = x as i64 * self.x_scale as i64;
        proof {
            lemma_i64_shr(p, 14);
            vstd::arithmetic::power2::lemma2_to64();
        }
        #[verifier::truncate] ((p >> 14) as i32)
    }

    /// A vertical coordinate in the reference.
    pub fn scale_y(&self, y: i32) -> (r: i32)
        ensures r == q14_apply(y, self.y_scale),
    {
        assert(-0x4000_0000_0000_0000 <= y * self.y_scale <= 0x4000_0000_0000_0000) by (nonlinear_arith)
            requires i32::MIN <= y <= i32::MAX, i32::MIN <= self.y_scale <= i32::MAX;
        let p: i64 = y as i64 * self.y_scale as i64;
        proof {
            lemma_i64_shr(p, 14);
            vstd::arithmetic::power2::lemma2_to64();
        }
        #[verifier::truncate] ((p >> 14) as i32)
    }
}

/// Coordinate `b + i` stays a 32-bit value and, scaled, leaves room for the
/// filter's reach of 3 before and 4 after.
pub open spec fn scaled_coord_ok(b: i32, i: int, scale: i32) -> bool {
    &&& b + i <= i32::MAX
    &&& i32::MIN + 3 <= ((b + i) * scale) / 16384 <= i32::MAX - 4
}

/// Every coordinate `b + i`, `i < n`, is valid for [`scaled_coord_ok`].
pub open spec fn scaled_axis_ok(b: i32, n: usize, scale: i32) -> bool {
    &&& n <= i32::MAX
    &&& forall|i: int| 0 <= i < n ==> #[trigger] scaled_coord_ok(b, i, scale)
}

/// The predicted pixel `(r, c)`: at a whole-pixel position the reference pixel, else
/// the 8-tap interpolation at the 1/16-pel phase of the scaled position.
pub open spec fn scaled_px(pic: Seq<u8>, stride: usize, ref_width: usize, ref_height: usize, block_x: i32,
    block_y: i32, sf: ScaleFactors, r: int, c: int) -> int {
    let full_x = (block_x + c) * sf.x_scale;
    let full_y = (block_y + r) * sf.y_scale;
    let ix = full_x / 16384;
    let iy = full_y / 16384;
    let fx = (full_x % 16384) / 1024;
    let fy = (full_y % 16384) / 1024;
    if fx == 0 && fy == 0 {
        ref_px(pic, stride, ref_width, ref_height, iy, ix)
    } else {
        subpel_px(pic, stride, ref_width, ref_height, ix, iy, fx, fy)
    }
}

/// Integer and phase part of a scaled coordinate.
fn scaled_position(b: i32, i: usize, scale: i32) -> (res: (i32, usize))
    requires i <= i32::MAX, scaled_coord_ok(b, i as int, scale),
    ensures
        res.0 == ((b + i) * scale) / 16384,
        res.1 == (((b + i) * scale) % 16384) / 1024,
        res.1 < 16,
{
    let v: i32 = b + i as i32;
    let full: i64 = v as i64 * scale as i64;
    proof {
        assert(-0x4000_0000_0000_0000 <= v * scale <= 0x4000_0000_0000_0000) by (nonlinear_arith)
            requires i32::MIN <= v <= i32::MAX, i32::MIN <= scale <= i32::MAX;
        lemma_i64_shr(full, 14);
        vstd::arithmetic::power2::lemma2_to64();
    }
    let int_part: i32 = (full >> 14) as i32;
    let rem: i64 = full - int_part as i64 * 16384;
    proof {
        assert(rem == (full as int) % 16384);
        lemma_i64_shr(rem, 10);
    }
    let frac: i64 = rem >> 10;
    let f: usize = frac as usize;
    (int_part, if f > 15 { 15 } else { f })
}

/// One scaled-prediction pixel: [`scaled_px`].
fn scaled_pixel(pic: &[u8], stride: usize, ref_width: usize, ref_height: usize, block_x: i32, block_y: i32,
    sf: &ScaleFactors, r: usize, c: usize) -> (p: u8)
    requires
        1 <= ref_width <= i32::MAX, 1 <= ref_height <= i32::MAX,
        (ref_height - 1) * stride + ref_width <= pic@.len(),
        r <= i32::MAX, c <= i32::MAX,
        scaled_coord_ok(block_x, c as int, sf.x_scale), scaled_coord_ok(block_y, r as int, sf.y_scale),
    ensures p == scaled_px(pic@, stride, ref_width, ref_height, block_x, block_y, *sf, r as int, c as int),
{
    let (int_x, frac_x) = scaled_position(block_x, c, sf.x_scale);
    let (int_y, frac_y) = scaled_position(block_y, r, sf.y_scale);
    if frac_x == 0 && frac_y == 0 {
        let rx: usize = if int_x < 0 { 0 } else if int_x as usize > ref_width - 1 { ref_width - 1 } else { int_x as usize };
        let ry: usize = if int_y < 0 { 0 } else if int_y as usize > ref_height - 1 { ref_height - 1 } else { int_y as usize };
        proof {
            assert(ry * stride <= (ref_height - 1) * stride) by (nonlinear_arith) requires ry <= ref_height - 1;
            assert(rx == clampi(int_x as int, 0, ref_width - 1));
            assert(ry == clampi(int_y as int, 0, ref_height - 1));
        }
        let plen: usize = pic.len();
        assert(ry * stride + rx < plen);
        pic[ry * stride + rx]
    } else {
        subpel_interp(pic, stride, ref_width, ref_height, int_x, int_y, frac_x, frac_y)
    }
}

/// With both factors at 1.0 the prediction is a copy: pixel `(r, c)` is the
/// reference pixel at `(block_y + r, block_x + c)`, edges clamped.
pub proof fn lemma_unscaled_is_copy(pic: Seq<u8>, stride: usize, ref_width: usize, ref_height: usize,
    block_x: i32, block_y: i32, sf: ScaleFactors, r: int, c: int)
    requires sf.x_scale == 16384, sf.y_scale == 16384,
    ensures
        scaled_px(pic, stride, ref_width, ref_height, block_x, block_y, sf, r, c)
            == ref_px(pic, stride, ref_width, ref_height, block_y + r, block_x + c),
{
    let fx = (block_x + c) * sf.x_scale;
    let fy = (block_y + r) * sf.y_scale;
    assert(fx / 16384 == block_x + c && fx % 16384 == 0) by (nonlinear_arith)
        requires fx == (block_x + c) * 16384;
    assert(fy / 16384 == block_y + r && fy % 16384 == 0) by (nonlinear_arith)
        requires fy == (block_y + r) * 16384;
}

/// Scaled prediction of the `width` x `height` block at `(block_x, block_y)` of the
/// current frame from the reference `pic`: each pixel is [`scaled_px`].
pub fn scaled_prediction(
    pic: &[u8],
    ref_stride: usize,
    dst: &mut [u8],
    dst_stride: usize,
    block_x: i32,
    block_y: i32,
    width: usize,
    height: usize,
    sf: &ScaleFactors,
    ref_width: usize,
    ref_height: usize,
)
    requires
        block_fits(old(dst)@.len(), dst_stride as nat, width as nat, height as nat),
        scaled_axis_ok(block_x, width, sf.x_scale), scaled_axis_ok(block_y, height, sf.y_scale),
        width > 0 && height > 0 ==> 1 <= ref_width <= i32::MAX && 1 <= ref_height <= i32::MAX
            && (ref_height - 1) * ref_stride + ref_width <= pic@.len(),
    ensures
        block_rows_written(final(dst)@, old(dst)@, dst_stride as nat, width as nat, height as nat,
            |r: int, c: int| scaled_px(pic@, ref_stride, ref_width, ref_height, block_x, block_y, *sf, r, c) as u8),
        width <= dst_stride ==> block_written(final(dst)@, old(dst)@, dst_stride as nat, width as nat, height as nat,
            |r: int, c: int| scaled_px(pic@, ref_stride, ref_width, ref_height, block_x, block_y, *sf, r, c) as u8),
{
    let ghost val = |r: int, c: int| scaled_px(pic@, ref_stride, ref_width, ref_height, block_x, block_y, *sf, r, c)
        as u8;
    let dlen: usize = dst.len();
    let mut r: usize = 0;
    while r < height
        invariant
            r <= height, dlen == dst@.len(),
            block_fits(old(dst)@.len(), dst_stride as nat, width as nat, height as nat),
            scaled_axis_ok(block_x, width, sf.x_scale), scaled_axis_ok(block_y, height, sf.y_scale),
            width > 0 && height > 0 ==> 1 <= ref_width <= i32::MAX && 1 <= ref_height <= i32::MAX
                && (ref_height - 1) * ref_stride + ref_width <= pic@.len(),
            val == (|r: int, c: int| scaled_px(pic@, ref_stride, ref_width, ref_height, block_x, block_y, *sf, r, c)
                as u8),
            dst@.len() == old(dst)@.len(),
            forall|i: int| 0 <= i < old(dst)@.len() ==>
                #[trigger] dst@[i] == rows_state(old(dst)@, dst_stride as nat, width as nat, val, r as int, i),
        decreases height - r,
    {
        let mut c: usize = 0;
        while c < width
            invariant
                r < height, c <= width, dlen == dst@.len(),
                block_fits(old(dst)@.len(), dst_stride as nat, width as nat, height as nat),
                scaled_axis_ok(block_x, width, sf.x_scale), scaled_axis_ok(block_y, height, sf.y_scale),
                width > 0 ==> 1 <= ref_width <= i32::MAX && 1 <= ref_height <= i32::MAX
                    && (ref_height - 1) * ref_stride + ref_width <= pic@.len(),
                val == (|r: int, c: int| scaled_px(pic@, ref_stride, ref_width, ref_height, block_x, block_y, *sf,
                    r, c) as u8),
                dst@.len() == old(dst)@.len(),
                forall|i: int| 0 <= i < old(dst)@.len() ==> #[trigger] dst@[i]
                    == row_partial(old(dst)@, dst_stride as nat, width as nat, val, r as int, c as int, i),
            decreases width - c,
        {
            proof {
                let dl = dst@.len();
                assert(r * dst_stride + c < dl) by (nonlinear_arith)
                    requires r < height, c < width, (height - 1) * dst_stride + width <= dl;
                assert(scaled_coord_ok(block_x, c as int, sf.x_scale));
                assert(scaled_coord_ok(block_y, r as int, sf.y_scale));
            }
            let v: u8 = scaled_pixel(pic, ref_stride, ref_width, ref_height, block_x, block_y, sf, r, c);
            let ghost before = dst@;
            dst[r * dst_stride + c] = v;
            proof {
                assert(v == val(r as int, c as int));
                lemma_rows_write(dst@, before, old(dst)@, dst_stride as nat, width as nat, val, r as int, c as int);
            }
            c = c + 1;
        }
        proof { lemma_rows_done(dst@, old(dst)@, dst_stride as nat, width as nat, val, r as int); }
        r = r + 1;
    }
    proof {
        if width <= dst_stride {
            lemma_rows_block(dst@, old(dst)@, dst_stride as nat, width as nat, height as nat, val);
        }
    }
}

} // verus!
