//! Film grain: the noise statistics of a source against its denoised version, the
//! grain parameters derived from them, and grain synthesis on a decoded frame.
use vstd::prelude::*;
use crate::dsp::copy::{block_fits, block_written, in_block, lemma_block_step};
use crate::dsp::fwd_txfm::{raster, lemma_raster_divmod};

verus! {

/// Film grain parameters for a frame.
#[derive(Debug, Clone)]
pub struct FilmGrainParams {
    /// Whether film grain is applied to this frame.
    pub apply_grain: bool,
    /// Grain seed for pseudo-random generation.
    pub grain_seed: u16,
    /// Number of luma points in the piecewise-linear scaling function.
    pub num_y_points: u8,
    /// Luma scaling function points: (intensity, scaling) pairs.
    pub point_y_value: [u8; 14],
    pub point_y_scaling: [u8; 14],
    /// Number of Cb points.
    pub num_cb_points: u8,
    pub point_cb_value: [u8; 10],
    pub point_cb_scaling: [u8; 10],
    /// Number of Cr points.
    pub num_cr_points: u8,
    pub point_cr_value: [u8; 10],
    pub point_cr_scaling: [u8; 10],
    /// Auto-regressive coefficients for luma.
    pub ar_coeffs_y: [i8; 24],
    /// Auto-regressive coefficients for Cb.
    pub ar_coeffs_cb: [i8; 25],
    /// Auto-regressive coefficients for Cr.
    pub ar_coeffs_cr: [i8; 25],
    /// Auto-regressive coefficient lag.
    pub ar_coeff_lag: u8,
    /// Auto-regressive coefficient shift (precision).
    pub ar_coeff_shift: u8,
    /// Grain scaling shift.
    pub grain_scale_shift: u8,
    /// Cb/Cr multipliers and offsets.
    pub cb_mult: u8,
    pub cb_luma_mult: u8,
    pub cb_offset: u16,
    pub cr_mult: u8,
    pub cr_luma_mult: u8,
    pub cr_offset: u16,
    /// Whether to overlap grain blocks.
    pub overlap_flag: bool,
    /// Whether to clip to restricted range.
    pub clip_to_restricted_range: bool,
    /// Chroma scaling from luma.
    pub chroma_scaling_from_luma: bool,
}

/// Parameters with no grain: every flag off and every number zero.
pub open spec fn no_grain(p: FilmGrainParams) -> bool {
    &&& !p.apply_grain && p.grain_seed == 0 && p.num_y_points == 0 && p.num_cb_points == 0 && p.num_cr_points == 0
    &&& forall|i: int| 0 <= i < 14 ==> p.point_y_value@[i] == 0 && #[trigger] p.point_y_scaling@[i] == 0
    &&& forall|i: int| 0 <= i < 10 ==> p.point_cb_value@[i] == 0 && #[trigger] p.point_cb_scaling@[i] == 0
        && p.point_cr_value@[i] == 0 && p.point_cr_scaling@[i] == 0
    &&& forall|i: int| 0 <= i < 24 ==> #[trigger] p.ar_coeffs_y@[i] == 0
    &&& forall|i: int| 0 <= i < 25 ==> p.ar_coeffs_cb@[i] == 0 && #[trigger] p.ar_coeffs_cr@[i] == 0
    &&& p.ar_coeff_lag == 0 && p.ar_coeff_shift == 0 && p.grain_scale_shift == 0
    &&& p.cb_mult == 0 && p.cb_luma_mult == 0 && p.cb_offset == 0
    &&& p.cr_mult == 0 && p.cr_luma_mult == 0 && p.cr_offset == 0
    &&& !p.overlap_flag && !p.clip_to_restricted_range && !p.chroma_scaling_from_luma
}

impl Default for FilmGrainParams {
    /// No grain.
    fn default() -> (r: Self)
        ensures no_grain(r),
    {
        FilmGrainParams {
            apply_grain: false,
            grain_seed: 0,
            num_y_points: 0,
            point_y_value: [0u8; 14],
            point_y_scaling: [0u8; 14],
            num_cb_points: 0,
            point_cb_value: [0u8; 10],
            point_cb_scaling: [0u8; 10],
            num_cr_points: 0,
            point_cr_value: [0u8; 10],
            point_cr_scaling: [0u8; 10],
            ar_coeffs_y: [0i8; 24],
            ar_coeffs_cb: [0i8; 25],
            ar_coeffs_cr: [0i8; 25],
            ar_coeff_lag: 0,
            ar_coeff_shift: 0,
            grain_scale_shift: 0,
            cb_mult: 0,
            cb_luma_mult: 0,
            cb_offset: 0,
            cr_mult: 0,
            cr_luma_mult: 0,
            cr_offset: 0,
            overlap_flag: false,
            clip_to_restricted_range: false,
            chroma_scaling_from_luma: false,
        }
    }
}

/// Noise `source - denoised` at row `r`, column `c`.
pub open spec fn noise_at(source: Seq<u8>, denoised: Seq<u8>, stride: usize, r: int, c: int) -> int {
    source[raster(r, c, stride as int)] - denoised[raster(r, c, stride as int)]
}

/// Sum of the noise, and of its squares, over the first `k` pixels in raster order
/// of a `width`-wide block.
pub open spec fn noise_sums(source: Seq<u8>, denoised: Seq<u8>, stride: usize, width: usize, k: int) -> (int, int)
    decreases k,
{
    if k <= 0 || width == 0 {
        (0, 0)
    } else {
        let prev = noise_sums(source, denoised, stride, width, k - 1);
        let v = noise_at(source, denoised, stride, (k - 1) / (width as int), (k - 1) % (width as int));
        (prev.0 + v, prev.1 + v * v)
    }
}

/// Sum of the noise `source - denoised` and of its squares over the block, the
/// moments from which the grain decision is taken.
pub fn noise_moments(source: &[u8], denoised: &[u8], width: usize, height: usize, stride: usize) -> (r: (i64, i64))
    requires
        width * height <= 0x1_0000_0000,
        block_fits(source@.len(), stride as nat, width as nat, height as nat),
        block_fits(denoised@.len(), stride as nat, width as nat, height as nat),
    ensures
        r.0 == noise_sums(source@, denoised@, stride, width, width * height).0,
        r.1 == noise_sums(source@, denoised@, stride, width, width * height).1,
{
    let slen: usize = source.len();
    let dlen: usize = denoised.len();
    let mut noise_sum: i64 = 0;
    let mut noise_sq_sum: i64 = 0;
    if width == 0 {
        return (0, 0);
    }
    let mut r: usize = 0;
    while r < height
        invariant
            r <= height, width > 0, slen == source@.len(), dlen == denoised@.len(),
            width * height <= 0x1_0000_0000,
            block_fits(source@.len(), stride as nat, width as nat, height as nat),
            block_fits(denoised@.len(), stride as nat, width as nat, height as nat),
            noise_sum == noise_sums(source@, denoised@, stride, width, r * width).0,
            noise_sq_sum == noise_sums(source@, denoised@, stride, width, r * width).1,
            -255 * (r * width) <= noise_sum <= 255 * (r * width),
            0 <= noise_sq_sum <= 65025 * (r * width),
        decreases height - r,
    {
        let mut c: usize = 0;
        while c < width
            invariant
                r < height, c <= width, width > 0, slen == source@.len(), dlen == denoised@.len(),
                width * height <= 0x1_0000_0000,
                block_fits(source@.len(), stride as nat, width as nat, height as nat),
                block_fits(denoised@.len(), stride as nat, width as nat, height as nat),
                noise_sum == noise_sums(source@, denoised@, stride, width, r * width + c).0,
                noise_sq_sum == noise_sums(source@, denoised@, stride, width, r * width + c).1,
                -255 * (r * width + c) <= noise_sum <= 255 * (r * width + c),
                0 <= noise_sq_sum <= 65025 * (r * width + c),
            decreases width - c,
        {
            proof {
                assert(r * stride + c < source@.len()) by (nonlinear_arith)
                    requires r < height, c < width, (height - 1) * stride + width <= source@.len();
                assert(r * stride + c < denoised@.len()) by (nonlinear_arith)
                    requires r < height, c < width, (height - 1) * stride + width <= denoised@.len();
                lemma_raster_divmod(r as int, c as int, width as int);
                assert(r * width + c < width * height) by (nonlinear_arith) requires r < height, c < width;
            }
            let noise: i32 = source[r * stride + c] as i32 - denoised[r * stride + c] as i32;
            proof {
                assert(0 <= noise * noise <= 65025) by (nonlinear_arith) requires -255 <= noise <= 255;
            }
            noise_sum = noise_sum + noise as i64;
            noise_sq_sum = noise_sq_sum + (noise * noise) as i64;
            c = c + 1;
        }
        proof {
            assert((r + 1) * width == r * width + width) by (nonlinear_arith);
        }
        r = r + 1;
    }
    proof {
        assert(height * width == width * height) by (nonlinear_arith);
    }
    (noise_sum, noise_sq_sum)
}

/// Grain parameters for a noise of luma scaling `scaling`: grain on with seed 42, no
/// auto-regression, overlapping blocks, and a flat two-point luma scaling function
/// (intensities 0 and 255, both scaled by `scaling`); everything else off.
pub fn grain_params_for_scaling(scaling: u8) -> (r: FilmGrainParams)
    ensures
        r.apply_grain, r.grain_seed == 42, r.ar_coeff_lag == 0, r.grain_scale_shift == 0, r.overlap_flag,
        r.num_y_points == 2,
        r.point_y_value@[0] == 0, r.point_y_scaling@[0] == scaling,
        r.point_y_value@[1] == 255, r.point_y_scaling@[1] == scaling,
        forall|i: int| 2 <= i < 14 ==> r.point_y_value@[i] == 0 && #[trigger] r.point_y_scaling@[i] == 0,
        r.num_cb_points == 0, r.num_cr_points == 0,
        !r.clip_to_restricted_range, !r.chroma_scaling_from_luma,
{
    FilmGrainParams {
        apply_grain: true,
        grain_seed: 42,
        num_y_points: 2,
        point_y_value: [0, 255, 0, 0, 0, 0, 0, 0, 0, 0, 0, 0, 0, 0],
        point_y_scaling: [scaling, scaling, 0, 0, 0, 0, 0, 0, 0, 0, 0, 0, 0, 0],
        num_cb_points: 0,
        point_cb_value: [0u8; 10],
        point_cb_scaling: [0u8; 10],
        num_cr_points: 0,
        point_cr_value: [0u8; 10],
        point_cr_scaling: [0u8; 10],
        ar_coeffs_y: [0i8; 24],
        ar_coeffs_cb: [0i8; 25],
        ar_coeffs_cr: [0i8; 25],
        ar_coeff_lag: 0,
        ar_coeff_shift: 0,
        grain_scale_shift: 0,
        cb_mult: 0,
        cb_luma_mult: 0,
        cb_offset: 0,
        cr_mult: 0,
        cr_luma_mult: 0,
        cr_offset: 0,
        overlap_flag: true,
        clip_to_restricted_range: false,
        chroma_scaling_from_luma: false,
    }
}

/// One step of the grain generator: `seed * 1103515245 + 12345` modulo `2^32`.
pub open spec fn lcg_next(seed: u32) -> u32 {
    ((seed * 1103515245 + 12345) % 0x1_0000_0000) as u32
}

/// The generator state after `k` steps from `seed`.
pub open spec fn lcg_state(seed: u32, k: nat) -> u32
    decreases k,
{
    if k == 0 { seed } else { lcg_next(lcg_state(seed, (k - 1) as nat)) }
}

/// Grain value of generator state `s` for scaling `scaling`: `(s >> 16) % (2 scaling + 1) - scaling`.
pub open spec fn grain_value(s: u32, scaling: int) -> int {
    (s as int / 65536) % (2 * scaling + 1) - scaling
}

/// `v` clipped to `[0, 255]`.
pub open spec fn clip_u8(v: int) -> u8 {
    (if v < 0 { 0 } else if v > 255 { 255 } else { v }) as u8
}

/// One grain pixel: the next generator state, and `p` plus its grain value, clipped.
fn grain_pixel(p: u8, seed: u32, scaling: i32) -> (r: (u8, u32))
    requires 0 <= scaling <= 255,
    ensures
        r.1 == lcg_next(seed),
        r.0 == clip_u8(p + grain_value(lcg_next(seed), scaling as int)),
{
    proof {
        vstd::arithmetic::power2::lemma2_to64();
        vstd::bits::lemma_u32_shr_is_div(seed.wrapping_mul(1103515245).wrapping_add(12345), 16);
    }
    let next: u32 = seed.wrapping_mul(1103515245).wrapping_add(12345);
    proof {
        assert(next == lcg_next(seed)) by (nonlinear_arith)
            requires next == ((((seed * 1103515245) % 0x1_0000_0000) + 12345) % 0x1_0000_0000);
    }
    let noise: i32 = ((next >> 16) as i32 % (scaling * 2 + 1)) - scaling;
    let v: i32 = p as i32 + noise;
    let q: u8 = if v < 0 { 0 } else if v > 255 { 255 } else { v as u8 };
    (q, next)
}

/// Add synthesized grain to the `width` x `height` frame: pixel `k` in raster order
/// gets the grain value of generator state `k + 1` from the grain seed, scaled by the
/// first luma scaling point, clipped to `[0, 255]`. Nothing changes when grain is off
/// or there is no luma point.
pub fn synthesize_grain(frame: &mut [u8], width: usize, height: usize, stride: usize, params: &FilmGrainParams)
    requires
        params.apply_grain && params.num_y_points != 0 ==> {
            &&& width <= stride
            &&& width * height <= usize::MAX
            &&& block_fits(old(frame)@.len(), stride as nat, width as nat, height as nat)
        },
    ensures
        !params.apply_grain || params.num_y_points == 0 ==> final(frame)@ == old(frame)@,
        params.apply_grain && params.num_y_points != 0 ==> block_written(final(frame)@, old(frame)@, stride as nat,
            width as nat, height as nat, |r: int, c: int| clip_u8(old(frame)@[raster(r, c, stride as int)]
                + grain_value(lcg_state(params.grain_seed as u32, (r * width + c + 1) as nat),
                    params.point_y_scaling@[0] as int))),
{
    if !params.apply_grain || params.num_y_points == 0 {
        return;
    }
    let scaling: i32 = params.point_y_scaling[0] as i32;
    let ghost sc = params.point_y_scaling@[0] as int;
    let ghost seed0 = params.grain_seed as u32;
    let ghost val = |r: int, c: int| clip_u8(old(frame)@[raster(r, c, stride as int)]
        + grain_value(lcg_state(seed0, (r * width + c + 1) as nat), sc));
    let mut seed: u32 = params.grain_seed as u32;
    let flen: usize = frame.len();
    // The grain pixels, in raster order.
    let mut vals: Vec<u8> = Vec::new();
    let mut r: usize = 0;
    while r < height
        invariant
            r <= height, width <= stride, flen == frame@.len(), frame@ == old(frame)@,
            width * height <= usize::MAX,
            block_fits(old(frame)@.len(), stride as nat, width as nat, height as nat),
            scaling == sc, 0 <= sc <= 255,
            val == (|r: int, c: int| clip_u8(old(frame)@[raster(r, c, stride as int)]
                + grain_value(lcg_state(seed0, (r * width + c + 1) as nat), sc))),
            seed == lcg_state(seed0, (r * width) as nat),
            vals@.len() == r * width,
            forall|k: int| 0 <= k < r * width ==> #[trigger] vals@[k] == val(k / (width as int), k % (width as int)),
        decreases height - r,
    {
        let mut c: usize = 0;
        while c < width
            invariant
                r < height, c <= width, width <= stride, flen == frame@.len(), frame@ == old(frame)@,
                width * height <= usize::MAX,
                block_fits(old(frame)@.len(), stride as nat, width as nat, height as nat),
                scaling == sc, 0 <= sc <= 255,
                val == (|r: int, c: int| clip_u8(old(frame)@[raster(r, c, stride as int)]
                    + grain_value(lcg_state(seed0, (r * width + c + 1) as nat), sc))),
                seed == lcg_state(seed0, (r * width + c) as nat),
                vals@.len() == r * width + c,
                forall|k: int| 0 <= k < r * width + c ==> #[trigger] vals@[k] == val(k / (width as int), k % (width as int)),
            decreases width - c,
        {
            proof {
                let fl = frame@.len();
                assert(r * stride + c < fl) by (nonlinear_arith)
                    requires r < height, c < width, (height - 1) * stride + width <= fl;
                lemma_raster_divmod(r as int, c as int, width as int);
            }
            let (p, next) = grain_pixel(frame[r * stride + c], seed, scaling);
            seed = next;
            proof {
                assert(seed == lcg_state(seed0, (r * width + c + 1) as nat));
                assert(p == val(r as int, c as int));
            }
            vals.push(p);
            c = c + 1;
        }
        proof {
            assert((r + 1) * width == r * width + width) by (nonlinear_arith);
        }
        r = r + 1;
    }
    let mut r2: usize = 0;
    while r2 < height
        invariant
            r2 <= height, width <= stride, flen == frame@.len(),
            width * height <= usize::MAX,
            block_fits(old(frame)@.len(), stride as nat, width as nat, height as nat),
            vals@.len() == height * width,
            forall|k: int| 0 <= k < height * width ==> #[trigger] vals@[k] == val(k / (width as int), k % (width as int)),
            frame@.len() == old(frame)@.len(),
            forall|rr: int, cc: int| 0 <= rr < height && 0 <= cc < width && rr < r2 ==>
                frame@[#[trigger] raster(rr, cc, stride as int)] == val(rr, cc),
            forall|i: int| 0 <= i < old(frame)@.len() && !in_block(i, stride as nat, width as nat, height as nat) ==>
                #[trigger] frame@[i] == old(frame)@[i],
        decreases height - r2,
    {
        let mut c2: usize = 0;
        while c2 < width
            invariant
                r2 < height, c2 <= width, width <= stride, flen == frame@.len(),
                width * height <= usize::MAX,
                block_fits(old(frame)@.len(), stride as nat, width as nat, height as nat),
                vals@.len() == height * width,
                forall|k: int| 0 <= k < height * width ==> #[trigger] vals@[k] == val(k / (width as int), k % (width as int)),
                frame@.len() == old(frame)@.len(),
                forall|rr: int, cc: int| 0 <= rr < height && 0 <= cc < width && (rr < r2 || (rr == r2 && cc < c2)) ==>
                    frame@[#[trigger] raster(rr, cc, stride as int)] == val(rr, cc),
                forall|i: int| 0 <= i < old(frame)@.len() && !in_block(i, stride as nat, width as nat, height as nat) ==>
                    #[trigger] frame@[i] == old(frame)@[i],
            decreases width - c2,
        {
            proof {
                let fl = frame@.len();
                assert(r2 * stride + c2 < fl) by (nonlinear_arith)
                    requires r2 < height, c2 < width, (height - 1) * stride + width <= fl;
                assert(r2 * width + c2 < height * width) by (nonlinear_arith) requires r2 < height, c2 < width;
                lemma_raster_divmod(r2 as int, c2 as int, width as int);
            }
            let v: u8 = vals[r2 * width + c2];
            let ghost before = frame@;
            frame[r2 * stride + c2] = v;
            proof {
                lemma_block_step(frame@, before, old(frame)@, stride as nat, width as nat, height as nat, val,
                    r2 as int, c2 as int);
            }
            c2 = c2 + 1;
        }
        r2 = r2 + 1;
    }
}

} // verus!
