//! Rate control: the rate-control modes, and QP adjustments from the temporal
//! complexity of a frame against its reference.
use vstd::prelude::*;
use crate::dsp::copy::block_fits;
use crate::dsp::fwd_txfm::{raster, lemma_raster_divmod};

verus! {

/// Rate control mode.
#[derive(Debug, Clone, Copy, PartialEq, Eq, Structural)]
pub enum RcMode {
    /// Constant QP: fixed quantizer, no rate control.
    Cqp,
    /// Constant rate factor: quality-targeting.
    Crf,
    /// Variable bit rate: target average bitrate.
    Vbr,
    /// Constant bit rate: strict bitrate limit.
    Cbr,
}

/// QP offsets of the temporal layers: the base layer keeps the base QP, higher layers
/// get a higher one.
pub const TEMPORAL_LAYER_QP_DELTA: [i8; 6] = [0, 4, 8, 10, 12, 12];

/// The QP offset of a temporal layer (layers past 5 share the last offset).
pub open spec fn layer_qp_delta(layer: u8) -> int {
    TEMPORAL_LAYER_QP_DELTA[if layer < 5 { layer as int } else { 5 }] as int
}

/// `v` clamped to `[0, 63]`.
pub open spec fn clamp_qp(v: int) -> int {
    if v < 0 { 0 } else if v > 63 { 63 } else { v }
}

/// `3 t / 4` rounded toward zero.
pub open spec fn three_quarters(t: int) -> int {
    if t >= 0 { (3 * t) / 4 } else { -((-3 * t) / 4) }
}

/// The QP of a picture: for CQP and CRF the configured QP plus the layer offset; for
/// VBR and CBR the current QP moved by one against the average bits per frame so far
/// (the target when nothing is coded yet: up when above the target, down when below
/// three quarters of it), plus the layer offset; always clamped to `[0, 63]`.
pub open spec fn spec_picture_qp(mode: RcMode, config_qp: u8, state_qp: u8, total_bits: u64, total_frames: u64,
    target_bits_per_frame: i64, temporal_layer: u8) -> int {
    let ld = layer_qp_delta(temporal_layer);
    match mode {
        RcMode::Cqp | RcMode::Crf => clamp_qp(config_qp + ld),
        _ => {
            let t = target_bits_per_frame as int;
            let avg = if total_frames > 0 { ((total_bits / total_frames) as i64) as int } else { t };
            let d = if avg > t { 1int } else if avg < three_quarters(t) { -1int } else { 0int };
            clamp_qp(state_qp + d + ld)
        },
    }
}

/// QP of a picture from the rate-control mode, the configured and current QP, the
/// bits and frames coded so far, the per-frame bit target and the temporal layer (see
/// [`spec_picture_qp`]).
pub fn picture_qp(mode: RcMode, config_qp: u8, state_qp: u8, total_bits: u64, total_frames: u64,
    target_bits_per_frame: i64, temporal_layer: u8) -> (r: u8)
    requires
        i64::MIN <= 3 * target_bits_per_frame <= i64::MAX,
    ensures
        r == spec_picture_qp(mode, config_qp, state_qp, total_bits, total_frames, target_bits_per_frame, temporal_layer),
{
    let li: usize = if temporal_layer < 5 { temporal_layer as usize } else { 5 };
    let ld: i16 = TEMPORAL_LAYER_QP_DELTA[li] as i16;
    let v: i16 = match mode {
        RcMode::Cqp | RcMode::Crf => config_qp as i16 + ld,
        _ => {
            let avg: i64 = if total_frames > 0 { (total_bits / total_frames) as i64 } else { target_bits_per_frame };
            let t3: i64 = target_bits_per_frame * 3 / 4;
            proof {
                let t = target_bits_per_frame as int;
                assert(t3 == three_quarters(t));
            }
            let d: i16 = if avg > target_bits_per_frame { 1 } else if avg < t3 { -1 } else { 0 };
            state_qp as i16 + d + ld
        },
    };
    if v < 0 { 0 } else if v > 63 { 63 } else { v as u8 }
}

/// `|a - b|`.
pub open spec fn absdiff(a: int, b: int) -> int {
    if a >= b { a - b } else { b - a }
}

/// SAD of the first `k` pixels, in raster order, of the `width`-wide region at
/// `(x0, y0)` of `source` (row stride `src_stride`) against the same region of
/// `reference` (row stride `width`, the frame width `frame_w`).
pub open spec fn region_sad(source: Seq<u8>, src_stride: usize, reference: Seq<u8>, frame_w: usize, x0: int, y0: int,
    width: int, k: int) -> int
    decreases k,
{
    if k <= 0 || width <= 0 {
        0
    } else {
        let r = (k - 1) / width;
        let c = (k - 1) % width;
        region_sad(source, src_stride, reference, frame_w, x0, y0, width, k - 1)
            + absdiff(source[raster(y0 + r, x0 + c, src_stride as int)] as int,
                reference[raster(y0 + r, x0 + c, frame_w as int)] as int)
    }
}

/// SAD of a `w` x `h` region (see [`region_sad`]).
fn region_sad_exec(source: &[u8], src_stride: usize, reference: &[u8], frame_w: usize, x0: usize, y0: usize,
    w: usize, h: usize) -> (r: u64)
    requires
        w > 0,
        w * h <= 0x1_0000_0000,
        y0 + h <= usize::MAX,
        h == 0 || (y0 + h - 1) * src_stride + x0 + w <= source@.len(),
        h == 0 || (y0 + h - 1) * frame_w + x0 + w <= reference@.len(),
    ensures
        r == region_sad(source@, src_stride, reference@, frame_w, x0 as int, y0 as int, w as int, w * h),
{
    let slen: usize = source.len();
    let rlen: usize = reference.len();
    let mut sad: u64 = 0;
    let mut r: usize = 0;
    while r < h
        invariant
            r <= h, w > 0, slen == source@.len(), rlen == reference@.len(),
            w * h <= 0x1_0000_0000, y0 + h <= usize::MAX,
            h == 0 || (y0 + h - 1) * src_stride + x0 + w <= source@.len(),
            h == 0 || (y0 + h - 1) * frame_w + x0 + w <= reference@.len(),
            sad == region_sad(source@, src_stride, reference@, frame_w, x0 as int, y0 as int, w as int, r * w),
            sad <= 255 * (r * w),
        decreases h - r,
    {
        let mut c: usize = 0;
        while c < w
            invariant
                r < h, c <= w, w > 0, slen == source@.len(), rlen == reference@.len(),
                w * h <= 0x1_0000_0000, y0 + h <= usize::MAX,
                (y0 + h - 1) * src_stride + x0 + w <= source@.len(),
                (y0 + h - 1) * frame_w + x0 + w <= reference@.len(),
                sad == region_sad(source@, src_stride, reference@, frame_w, x0 as int, y0 as int, w as int, r * w + c),
                sad <= 255 * (r * w + c),
            decreases w - c,
        {
            proof {
                assert((y0 + r) * src_stride + x0 + c < source@.len()) by (nonlinear_arith)
                    requires r < h, c < w, (y0 + h - 1) * src_stride + x0 + w <= source@.len();
                assert((y0 + r) * frame_w + x0 + c < reference@.len()) by (nonlinear_arith)
                    requires r < h, c < w, (y0 + h - 1) * frame_w + x0 + w <= reference@.len();
                lemma_raster_divmod(r as int, c as int, w as int);
                assert(r * w + c < w * h) by (nonlinear_arith) requires r < h, c < w;
            }
            let s: i32 = source[(y0 + r) * src_stride + x0 + c] as i32;
            let ref_val: i32 = reference[(y0 + r) * frame_w + x0 + c] as i32;
            let d: u64 = if s >= ref_val { (s - ref_val) as u64 } else { (ref_val - s) as u64 };
            sad = sad + d;
            c = c + 1;
        }
        proof {
            assert((r + 1) * w == r * w + w) by (nonlinear_arith);
        }
        r = r + 1;
    }
    proof {
        assert(h * w == w * h) by (nonlinear_arith);
    }
    sad
}

/// QP adjustment of a frame for its average SAD: -4 below 2 (static), none from 2 to 8,
/// 2 up to 20, else 4.
pub open spec fn frame_sad_adjustment(avg: int) -> int {
    if avg <= 1 { -4 } else if avg <= 8 { 0 } else if avg <= 20 { 2 } else { 4 }
}

/// QP adjustment from the temporal complexity of a frame: 0 when either buffer is
/// shorter than `width * height`, else [`frame_sad_adjustment`] of the average SAD
/// against the reference (read with the frame width as stride).
pub fn tpl_qp_adjustment(source: &[u8], reference: &[u8], width: usize, height: usize, src_stride: usize) -> (r: i8)
    requires
        width * height > 0,
        width * height <= 0x1_0000_0000,
        width * height <= usize::MAX,
        width * height <= source@.len() ==> block_fits(source@.len(), src_stride as nat, width as nat, height as nat),
    ensures
        r == (if source@.len() < width * height || reference@.len() < width * height { 0 }
            else { frame_sad_adjustment(region_sad(source@, src_stride, reference@, width, 0, 0, width as int,
                width * height) / (width * height)) }),
{
    let n: usize = width * height;
    if source.len() < n || reference.len() < n {
        return 0;
    }
    proof {
        assert(width > 0 && height > 0) by (nonlinear_arith) requires width * height > 0;
        assert((height - 1) * width + width <= reference@.len()) by (nonlinear_arith)
            requires width * height <= reference@.len(), height > 0;
        assert((height - 1) * src_stride + width <= source@.len());
    }
    let sad: u64 = region_sad_exec(source, src_stride, reference, width, 0, 0, width, height);
    let avg_sad: u64 = sad / n as u64;
    if avg_sad <= 1 { -4 } else if avg_sad <= 8 { 0 } else if avg_sad <= 20 { 2 } else { 4 }
}

/// QP offset of a superblock for its average SAD: -2 up to 2, 0 up to 10, 2 up to 25,
/// else 4.
pub open spec fn sb_sad_offset(avg: int) -> int {
    if avg <= 2 { -2 } else if avg <= 10 { 0 } else if avg <= 25 { 2 } else { 4 }
}

/// `ceil(a / b)`.
pub open spec fn ceil_div(a: int, b: int) -> int {
    (a + b - 1) / b
}

/// Width of the superblock starting at `x0` of a frame of width `width`.
pub open spec fn sb_extent(sb_size: int, width: int, x0: int) -> int {
    if sb_size < width - x0 { sb_size } else { width - x0 }
}

/// Per-superblock QP offsets in raster order: [`sb_sad_offset`] of the average SAD of
/// each superblock (clipped to the frame) against the reference.
pub fn tpl_sb_qp_offsets(source: &[u8], reference: &[u8], width: usize, height: usize, src_stride: usize,
    sb_size: usize) -> (r: Vec<i8>)
    requires
        sb_size > 0,
        width * height <= 0x1_0000_0000,
        width * height <= usize::MAX,
        width + sb_size <= usize::MAX, height + sb_size <= usize::MAX,
        block_fits(source@.len(), src_stride as nat, width as nat, height as nat),
        width * height <= reference@.len(),
    ensures
        r@.len() == ceil_div(width as int, sb_size as int) * ceil_div(height as int, sb_size as int),
        forall|sr: int, sc: int| 0 <= sr < ceil_div(height as int, sb_size as int)
            && 0 <= sc < ceil_div(width as int, sb_size as int) ==>
            r@[#[trigger] raster(sr, sc, ceil_div(width as int, sb_size as int))] == sb_sad_offset(
                region_sad(source@, src_stride, reference@, width, sc * sb_size, sr * sb_size,
                    sb_extent(sb_size as int, width as int, sc * sb_size),
                    sb_extent(sb_size as int, width as int, sc * sb_size)
                        * sb_extent(sb_size as int, height as int, sr * sb_size))
                / (sb_extent(sb_size as int, width as int, sc * sb_size)
                    * sb_extent(sb_size as int, height as int, sr * sb_size))),
{
    let sb_cols: usize = (width + sb_size - 1) / sb_size;
    let sb_rows: usize = (height + sb_size - 1) / sb_size;
    proof {
        assert(sb_cols <= width) by (nonlinear_arith)
            requires sb_cols as int == (width as int + sb_size as int - 1) / (sb_size as int), sb_size > 0;
        assert(sb_rows <= height) by (nonlinear_arith)
            requires sb_rows as int == (height as int + sb_size as int - 1) / (sb_size as int), sb_size > 0;
        assert(sb_cols * sb_rows <= width * height) by (nonlinear_arith)
            requires sb_cols <= width, sb_rows <= height;
    }
    let mut offsets: Vec<i8> = vec![0i8; sb_cols * sb_rows];
    let ghost val = |sr: int, sc: int| sb_sad_offset(
        region_sad(source@, src_stride, reference@, width, sc * sb_size, sr * sb_size,
            sb_extent(sb_size as int, width as int, sc * sb_size),
            sb_extent(sb_size as int, width as int, sc * sb_size) * sb_extent(sb_size as int, height as int, sr * sb_size))
        / (sb_extent(sb_size as int, width as int, sc * sb_size) * sb_extent(sb_size as int, height as int, sr * sb_size)));
    let mut sb_row: usize = 0;
    while sb_row < sb_rows
        invariant
            sb_row <= sb_rows, sb_size > 0,
            sb_cols == ceil_div(width as int, sb_size as int), sb_rows == ceil_div(height as int, sb_size as int),
            sb_cols * sb_rows <= width * height,
            width * height <= 0x1_0000_0000, width * height <= usize::MAX,
            block_fits(source@.len(), src_stride as nat, width as nat, height as nat),
            width * height <= reference@.len(),
            offsets@.len() == sb_cols * sb_rows,
            val == (|sr: int, sc: int| sb_sad_offset(
                region_sad(source@, src_stride, reference@, width, sc * sb_size, sr * sb_size,
                    sb_extent(sb_size as int, width as int, sc * sb_size),
                    sb_extent(sb_size as int, width as int, sc * sb_size) * sb_extent(sb_size as int, height as int, sr * sb_size))
                / (sb_extent(sb_size as int, width as int, sc * sb_size) * sb_extent(sb_size as int, height as int, sr * sb_size)))),
            forall|sr: int, sc: int| 0 <= sr < sb_row && 0 <= sc < sb_cols ==>
                offsets@[#[trigger] raster(sr, sc, sb_cols as int)] == val(sr, sc),
        decreases sb_rows - sb_row,
    {
        let mut sb_col: usize = 0;
        while sb_col < sb_cols
            invariant
                sb_row < sb_rows, sb_col <= sb_cols, sb_size > 0,
                sb_cols == ceil_div(width as int, sb_size as int), sb_rows == ceil_div(height as int, sb_size as int),
                sb_cols * sb_rows <= width * height,
                width * height <= 0x1_0000_0000, width * height <= usize::MAX,
                block_fits(source@.len(), src_stride as nat, width as nat, height as nat),
                width * height <= reference@.len(),
                offsets@.len() == sb_cols * sb_rows,
                val == (|sr: int, sc: int| sb_sad_offset(
                    region_sad(source@, src_stride, reference@, width, sc * sb_size, sr * sb_size,
                        sb_extent(sb_size as int, width as int, sc * sb_size),
                        sb_extent(sb_size as int, width as int, sc * sb_size) * sb_extent(sb_size as int, height as int, sr * sb_size))
                    / (sb_extent(sb_size as int, width as int, sc * sb_size) * sb_extent(sb_size as int, height as int, sr * sb_size)))),
                forall|sr: int, sc: int| 0 <= sr < sb_rows && 0 <= sc < sb_cols && (sr < sb_row || (sr == sb_row && sc < sb_col)) ==>
                    offsets@[#[trigger] raster(sr, sc, sb_cols as int)] == val(sr, sc),
            decreases sb_cols - sb_col,
        {
            proof {
                assert(sb_col * sb_size < width) by (nonlinear_arith)
                    requires sb_col < sb_cols, sb_cols as int == (width as int + sb_size as int - 1) / (sb_size as int), sb_size > 0;
                assert(sb_row * sb_size < height) by (nonlinear_arith)
                    requires sb_row < sb_rows, sb_rows as int == (height as int + sb_size as int - 1) / (sb_size as int), sb_size > 0;
            }
            let x0: usize = sb_col * sb_size;
            let y0: usize = sb_row * sb_size;
            let cur_w: usize = if sb_size < width - x0 { sb_size } else { width - x0 };
            let cur_h: usize = if sb_size < height - y0 { sb_size } else { height - y0 };
            proof {
                assert(cur_w * cur_h <= width * height) by (nonlinear_arith)
                    requires cur_w <= width, cur_h <= height;
                assert(cur_w * cur_h > 0) by (nonlinear_arith) requires cur_w > 0, cur_h > 0;
                assert((y0 + cur_h - 1) * src_stride + x0 + cur_w <= source@.len()) by (nonlinear_arith)
                    requires y0 + cur_h <= height, x0 + cur_w <= width, cur_h > 0,
                        (height - 1) * src_stride + width <= source@.len();
                assert((y0 + cur_h - 1) * width + x0 + cur_w <= reference@.len()) by (nonlinear_arith)
                    requires y0 + cur_h <= height, x0 + cur_w <= width, cur_h > 0, width * height <= reference@.len();
            }
            let sad: u64 = region_sad_exec(source, src_stride, reference, width, x0, y0, cur_w, cur_h);
            let avg: u64 = sad / (cur_w * cur_h) as u64;
            let off: i8 = if avg <= 2 { -2 } else if avg <= 10 { 0 } else if avg <= 25 { 2 } else { 4 };
            proof {
                assert(off == val(sb_row as int, sb_col as int));
                assert(sb_row * sb_cols + sb_col < sb_cols * sb_rows) by (nonlinear_arith)
                    requires sb_row < sb_rows, sb_col < sb_cols;
                crate::dsp::fwd_txfm::lemma_raster_injective(sb_cols as int);
            }
            let ghost before = offsets@;
            offsets.set(sb_row * sb_cols + sb_col, off);
            proof {
                assert forall|sr: int, sc: int| 0 <= sr < sb_rows && 0 <= sc < sb_cols
                    && (sr < sb_row || (sr == sb_row && sc < sb_col + 1)) implies
                    offsets@[#[trigger] raster(sr, sc, sb_cols as int)] == val(sr, sc) by {
                    assert(0 <= sr * sb_cols + sc < sb_cols * sb_rows) by (nonlinear_arith)
                        requires 0 <= sr < sb_rows, 0 <= sc < sb_cols;
                    if sr != sb_row || sc != sb_col {
                        assert(raster(sr, sc, sb_cols as int) != raster(sb_row as int, sb_col as int, sb_cols as int));
                        assert(before[raster(sr, sc, sb_cols as int)] == val(sr, sc));
                    }
                }
            }
            sb_col = sb_col + 1;
        }
        sb_row = sb_row + 1;
    }
    offsets
}

} // verus!
