//! The block coding loop: residual, forward transform, dead-zone quantization,
//! inverse transform, reconstruction, distortion and an estimate of the rate.
use vstd::prelude::*;
use crate::dsp::copy::block_fits;
use crate::dsp::fwd_txfm::{ints, FwdTxfm1d, spec_fwd_txfm2d, raster, lemma_raster_divmod, lemma_raster_injective,
    fwd_txfm2d_4x4_dct_dct, fwd_txfm2d_8x8_dct_dct, FWD_SHIFT_4X4, FWD_SHIFT_8X8};
use crate::dsp::inv_txfm::{InvTxfm1d, spec_inv_txfm2d, inv_txfm2d_4x4_dct_dct, inv_txfm2d_8x8_dct_dct,
    INV_SHIFT_4X4, INV_SHIFT_8X8};
use crate::dsp::txfm_bounds::{lemma_fwd4x4_in_range, lemma_fwd8x8_in_range, lemma_inv4x4_in_range,
    lemma_inv8x8_in_range};
use crate::entropy::range_coder::{ilog, ilog_nz};

verus! {

/// Result of encoding a single block.
#[derive(Debug, Clone)]
pub struct EncodeBlockResult {
    /// Quantized transform coefficients.
    pub qcoeffs: Vec<i32>,
    /// Reconstructed pixels.
    pub recon: Vec<u8>,
    /// One past the last non-zero quantized coefficient (0 when all are zero).
    pub eob: u16,
    /// Distortion (SSE between source and reconstruction).
    pub distortion: u64,
    /// Estimated rate in Q8 bits.
    pub rate: u32,
}

/// Pixel at row `r`, column `c` of a plane with row stride `stride`.
pub open spec fn px(p: Seq<u8>, stride: usize, r: int, c: int) -> int {
    p[raster(r, c, stride as int)] as int
}

/// The block sizes the loop codes: 4x4, 8x8, or at most 4 wide with 16 pixels or
/// more (coded through the 4x4 transform of its first 16 residuals).
pub open spec fn supported_block(width: usize, height: usize) -> bool {
    ||| (width == 4 && height == 4)
    ||| (width == 8 && height == 8)
    ||| (1 <= width <= 4 && width * height >= 16)
}

/// Residual `src - pred` of a `width` x `height` block, in raster order.
pub open spec fn spec_residual(src: Seq<u8>, src_stride: usize, pred: Seq<u8>, pred_stride: usize, width: usize,
    height: usize) -> Seq<i32> {
    Seq::new((width * height) as nat, |k: int|
        (px(src, src_stride, k / (width as int), k % (width as int))
            - px(pred, pred_stride, k / (width as int), k % (width as int))) as i32)
}

/// Transform coefficients of the residual: the 4x4 or 8x8 DCT-DCT, otherwise the
/// 4x4 DCT-DCT of the first residuals read with the block's width as stride,
/// followed by zeros.
pub open spec fn spec_block_coeffs(res: Seq<i32>, width: usize, height: usize) -> Seq<int> {
    if width == 4 && height == 4 {
        spec_fwd_txfm2d(res, 4, FwdTxfm1d::Fdct4, FwdTxfm1d::Fdct4, 4, FWD_SHIFT_4X4)
    } else if width == 8 && height == 8 {
        spec_fwd_txfm2d(res, 8, FwdTxfm1d::Fdct8, FwdTxfm1d::Fdct8, 8, FWD_SHIFT_8X8)
    } else {
        Seq::new((width * height) as nat, |k: int| if k < 16 {
            spec_fwd_txfm2d(res, width as nat, FwdTxfm1d::Fdct4, FwdTxfm1d::Fdct4, 4, FWD_SHIFT_4X4)[k]
        } else {
            0
        })
    }
}

/// Dequantization step: `4 + 2 * qp` for the DC coefficient, 2 more for the others.
pub open spec fn spec_dequant(qp: u8, is_dc: bool) -> int {
    4 + 2 * qp + if is_dc { 0int } else { 2int }
}

/// Dead-zone quantization of `c` with step `d`: `(|c| + d / 2) / d`, with the sign of `c`.
pub open spec fn spec_quantize(c: int, d: int) -> int {
    if c < 0 { -((-c + d / 2) / d) } else { (c + d / 2) / d }
}

/// Quantized coefficients (DC with the DC step, the others with the AC step).
pub open spec fn spec_qcoeffs(coeffs: Seq<int>, qp: u8) -> Seq<int> {
    Seq::new(coeffs.len(), |i: int| spec_quantize(coeffs[i], spec_dequant(qp, i == 0)))
}

/// Dequantized coefficients.
pub open spec fn spec_dqcoeffs(q: Seq<int>, qp: u8) -> Seq<i32> {
    Seq::new(q.len(), |i: int| (q[i] * spec_dequant(qp, i == 0)) as i32)
}

/// One past the last non-zero entry among the first `n` (0 if there is none).
pub open spec fn spec_last_nonzero(q: Seq<int>, n: int) -> int
    decreases n,
{
    if n <= 0 { 0 } else if q[n - 1] != 0 { n } else { spec_last_nonzero(q, n - 1) }
}

/// Inverse-transformed residual: the inverse 4x4 or 8x8 DCT-DCT, otherwise the first
/// dequantized coefficients themselves followed by zeros.
pub open spec fn spec_inv_residual(dq: Seq<i32>, width: usize, height: usize) -> Seq<int> {
    if width == 4 && height == 4 {
        Seq::new(16, |k: int| spec_inv_txfm2d(dq, 4, InvTxfm1d::Idct4, InvTxfm1d::Idct4, 4, INV_SHIFT_4X4, k / 4, k % 4))
    } else if width == 8 && height == 8 {
        Seq::new(64, |k: int| spec_inv_txfm2d(dq, 8, InvTxfm1d::Idct8, InvTxfm1d::Idct8, 8, INV_SHIFT_8X8, k / 8, k % 8))
    } else {
        Seq::new((width * height) as nat, |k: int| if k < 16 { dq[k] as int } else { 0 })
    }
}

/// `v` clipped to `[0, 255]`.
pub open spec fn clip_pixel(v: int) -> int {
    if v < 0 { 0 } else if v > 255 { 255 } else { v }
}

/// Reconstruction: prediction plus inverse residual, clipped, in raster order.
pub open spec fn spec_recon(pred: Seq<u8>, pred_stride: usize, inv: Seq<int>, width: usize, height: usize) -> Seq<u8> {
    Seq::new((width * height) as nat, |k: int|
        clip_pixel(px(pred, pred_stride, k / (width as int), k % (width as int)) + inv[k]) as u8)
}

/// Sum of squared differences between the source block and the first `k`
/// reconstructed pixels, in raster order.
pub open spec fn spec_block_sse(src: Seq<u8>, src_stride: usize, recon: Seq<u8>, width: usize, k: int) -> int
    decreases k,
{
    if k <= 0 {
        0
    } else {
        let d = px(src, src_stride, (k - 1) / (width as int), (k - 1) % (width as int)) - recon[k - 1];
        spec_block_sse(src, src_stride, recon, width, k - 1) + d * d
    }
}

/// Rate of one quantized coefficient in Q8 bits: 64 for zero, 256 for magnitude 1,
/// else `384 + 128 * floor(log2 |c|)`.
pub open spec fn spec_coeff_cost(c: int) -> int {
    let a = if c < 0 { -c } else { c };
    if a == 0 { 64 } else if a == 1 { 256 } else { 384 + 128 * (ilog(a as nat) - 1) }
}

/// Total cost of the first `k` coefficients.
pub open spec fn spec_cost_sum(q: Seq<i32>, k: int) -> int
    decreases k,
{
    if k <= 0 { 0 } else { spec_cost_sum(q, k - 1) + spec_coeff_cost(q[k - 1] as int) }
}

/// Estimated rate: 64 for a block with no coefficient, else 128 for the end of block
/// plus the cost of each coefficient up to it.
pub open spec fn spec_coeff_rate(q: Seq<i32>, eob: u16) -> int {
    if eob == 0 { 64 } else { 128 + spec_cost_sum(q, eob as int) }
}

/// The rate estimate of [`spec_coeff_rate`]; the coefficients up to `eob` must not be
/// `i32::MIN`.
pub fn estimate_coeff_rate(qcoeffs: &[i32], eob: u16) -> (r: u32)
    requires
        eob <= qcoeffs@.len(),
        forall|i: int| 0 <= i < eob ==> #[trigger] qcoeffs@[i] != i32::MIN,
    ensures r == spec_coeff_rate(qcoeffs@, eob),
{
    if eob == 0 {
        return 64;
    }
    let mut bits: u32 = 128;
    let mut i: usize = 0;
    while i < eob as usize
        invariant
            i <= eob, eob <= qcoeffs@.len(),
            forall|j: int| 0 <= j < eob ==> #[trigger] qcoeffs@[j] != i32::MIN,
            bits == 128 + spec_cost_sum(qcoeffs@, i as int),
            bits <= 128 + 4352 * i,
        decreases eob - i,
    {
        let c: i32 = qcoeffs[i];
        let cost: u32;
        if c == 0 {
            cost = 64;
        } else {
            let a: u32 = if c < 0 { (0 - c) as u32 } else { c as u32 };
            if a == 1 {
                cost = 256;
            } else {
                let l: i32 = ilog_nz(a);
                cost = 384 + ((l - 1) as u32) * 128;
            }
        }
        assert(cost == spec_coeff_cost(c as int));
        bits = bits + cost;
        i = i + 1;
    }
    bits
}

fn qp_to_dequant(qp: u8, is_dc: bool) -> (r: u16)
    ensures r == spec_dequant(qp, is_dc),
{
    let base: u16 = 4 + qp as u16 * 2;
    if is_dc { base } else { base + 2 }
}

/// Step 1: the residual block, every entry within `[-255, 255]`.
fn compute_residual(src: &[u8], src_stride: usize, pred: &[u8], pred_stride: usize, width: usize, height: usize)
    -> (residual: Vec<i32>)
    requires
        width * height <= usize::MAX,
        width > 0,
        block_fits(src@.len(), src_stride as nat, width as nat, height as nat),
        block_fits(pred@.len(), pred_stride as nat, width as nat, height as nat),
    ensures
        residual@ == spec_residual(src@, src_stride, pred@, pred_stride, width, height),
        forall|k: int| 0 <= k < residual@.len() ==> -255 <= #[trigger] residual@[k] <= 255,
{
    let n: usize = width * height;
    let slen: usize = src.len();
    let plen: usize = pred.len();
    let mut residual: Vec<i32> = vec![0i32; n];
    let ghost spec = spec_residual(src@, src_stride, pred@, pred_stride, width, height);
    let mut row: usize = 0;
    while row < height
        invariant
            row <= height, n == width * height, width > 0, slen == src@.len(), plen == pred@.len(),
            block_fits(src@.len(), src_stride as nat, width as nat, height as nat),
            block_fits(pred@.len(), pred_stride as nat, width as nat, height as nat),
            spec == spec_residual(src@, src_stride, pred@, pred_stride, width, height),
            residual@.len() == n,
            forall|k: int| 0 <= k < row * width ==> #[trigger] residual@[k] == spec[k],
            forall|k: int| 0 <= k < n ==> -255 <= #[trigger] residual@[k] <= 255,
        decreases height - row,
    {
        let mut col: usize = 0;
        while col < width
            invariant
                row < height, col <= width, n == width * height, width > 0, slen == src@.len(), plen == pred@.len(),
                block_fits(src@.len(), src_stride as nat, width as nat, height as nat),
                block_fits(pred@.len(), pred_stride as nat, width as nat, height as nat),
                spec == spec_residual(src@, src_stride, pred@, pred_stride, width, height),
                residual@.len() == n,
                forall|k: int| 0 <= k < row * width + col ==> #[trigger] residual@[k] == spec[k],
                forall|k: int| 0 <= k < n ==> -255 <= #[trigger] residual@[k] <= 255,
            decreases width - col,
        {
            proof {
                assert(row * width + col < width * height) by (nonlinear_arith)
                    requires row < height, col < width;
                assert(row * src_stride + col < src@.len()) by (nonlinear_arith)
                    requires row < height, col < width, (height - 1) * src_stride + width <= src@.len();
                assert(row * pred_stride + col < pred@.len()) by (nonlinear_arith)
                    requires row < height, col < width, (height - 1) * pred_stride + width <= pred@.len();
                lemma_raster_divmod(row as int, col as int, width as int);
            }
            let idx: usize = row * width + col;
            let v: i32 = src[row * src_stride + col] as i32 - pred[row * pred_stride + col] as i32;
            residual.set(idx, v);
            col = col + 1;
        }
        proof {
            assert((row + 1) * width == row * width + width) by (nonlinear_arith);
        }
        row = row + 1;
    }
    proof {
        assert(height * width == n) by (nonlinear_arith) requires n == width * height;
        assert(residual@ =~= spec);
    }
    residual
}


/// Step 2: the transform coefficients, at most 9184 in magnitude (25007 for 8x8).
fn forward_block(residual: &Vec<i32>, width: usize, height: usize) -> (coeffs: Vec<i32>)
    requires
        supported_block(width, height),
        residual@.len() == width * height,
        forall|k: int| 0 <= k < residual@.len() ==> -255 <= #[trigger] residual@[k] <= 255,
    ensures
        coeffs@.len() == width * height,
        forall|k: int| 0 <= k < width * height ==>
            #[trigger] coeffs@[k] == spec_block_coeffs(residual@, width, height)[k],
        forall|k: int| 0 <= k < width * height ==>
            -coeff_bound(width, height) <= #[trigger] coeffs@[k] <= coeff_bound(width, height),
{
    let n: usize = residual.len();
    let mut coeffs: Vec<i32> = vec![0i32; n];
    let ghost zeros = coeffs@;
    if width == 4 && height == 4 {
        proof {
            assert forall|r: int, c: int| 0 <= r < 4 && 0 <= c < 4 implies
                -255 <= #[trigger] residual@[r * 4 + c] <= 255 by {
                assert(0 <= r * 4 + c < 16);
            }
            lemma_fwd4x4_in_range(residual@, 4);
        }
        fwd_txfm2d_4x4_dct_dct(residual.as_slice(), coeffs.as_mut_slice(), width);
        proof {
            assert forall|k: int| 0 <= k < width * height implies
                -9184 <= #[trigger] coeffs@[k] <= 9184 by {
                assert(coeffs@[k] == spec_fwd_txfm2d(residual@, 4, FwdTxfm1d::Fdct4, FwdTxfm1d::Fdct4, 4,
                    FWD_SHIFT_4X4)[k]);
            }
        }
    } else if width == 8 && height == 8 {
        proof {
            assert forall|r: int, c: int| 0 <= r < 8 && 0 <= c < 8 implies
                -255 <= #[trigger] residual@[r * 8 + c] <= 255 by {
                assert(0 <= r * 8 + c < 64);
            }
            lemma_fwd8x8_in_range(residual@, 8);
        }
        fwd_txfm2d_8x8_dct_dct(residual.as_slice(), coeffs.as_mut_slice(), width);
        proof {
            assert forall|k: int| 0 <= k < width * height implies
                -25007 <= #[trigger] coeffs@[k] <= 25007 by {
                assert(coeffs@[k] == spec_fwd_txfm2d(residual@, 8, FwdTxfm1d::Fdct8, FwdTxfm1d::Fdct8, 8,
                    FWD_SHIFT_8X8)[k]);
            }
        }
    } else {
        proof {
            assert forall|r: int, c: int| 0 <= r < 4 && 0 <= c < 4 implies
                -255 <= #[trigger] residual@[r * width + c] <= 255 by {
                assert(0 <= r * width + c < 16) by (nonlinear_arith)
                    requires 0 <= r < 4, 0 <= c < 4, 1 <= width <= 4;
            }
            lemma_fwd4x4_in_range(residual@, width as nat);
            assert(3 * width + 4 <= 16);
            assert(16 <= n);
        }
        fwd_txfm2d_4x4_dct_dct(residual.as_slice(), coeffs.as_mut_slice(), width);
        proof {
            assert forall|k: int| 0 <= k < width * height implies
                -9184 <= #[trigger] coeffs@[k] <= 9184 by {
                if k >= 16 {
                    assert(coeffs@[k] == zeros[k]);
                } else {
                    assert(coeffs@[k] == spec_fwd_txfm2d(residual@, width as nat, FwdTxfm1d::Fdct4, FwdTxfm1d::Fdct4, 4,
                        FWD_SHIFT_4X4)[k]);
                }
            }
        }
    }
    coeffs
}

/// Largest coefficient magnitude of a block of 8-bit residuals.
pub open spec fn coeff_bound(width: usize, height: usize) -> int {
    if width == 8 && height == 8 { 25007 } else { 9184 }
}

/// Dead-zone quantization stays within the coefficient plus half a step, and keeps its sign.
proof fn lemma_quantize_bound(c: int, d: int)
    requires d >= 4,
    ensures
        ({
            let q = spec_quantize(c, d);
            let a = if c < 0 { -c } else { c };
            &&& 0 <= (if q < 0 { -q } else { q }) <= a
            &&& -(a + d / 2) <= q * d <= a + d / 2
            &&& (q != 0 ==> (q < 0) == (c < 0))
        }),
{
    let a = if c < 0 { -c } else { c };
    let m = (a + d / 2) / d;
    vstd::arithmetic::div_mod::lemma_fundamental_div_mod(a + d / 2, d);
    assert(0 <= m);
    assert(m * d <= a + d / 2) by (nonlinear_arith)
        requires m == (a + d / 2) / d, d > 0, a + d / 2 == d * ((a + d / 2) / d) + (a + d / 2) % d,
            0 <= (a + d / 2) % d;
    assert(m <= a) by (nonlinear_arith)
        requires m * d <= a + d / 2, d >= 4, a >= 0, m >= 0;
    if c < 0 {
        assert(spec_quantize(c, d) == -m);
        assert((-m) * d == -(m * d)) by (nonlinear_arith);
    }
}

/// Step 3: quantized and dequantized coefficients, and the end of block.
fn quantize_block(coeffs: &Vec<i32>, qp: u8) -> (res: (Vec<i32>, Vec<i32>, u16))
    requires
        forall|k: int| 0 <= k < coeffs@.len() ==> -25007 <= #[trigger] coeffs@[k] <= 25007,
    ensures
        res.0@.len() == coeffs@.len(),
        res.1@.len() == coeffs@.len(),
        forall|k: int| 0 <= k < coeffs@.len() ==>
            #[trigger] res.0@[k] == spec_qcoeffs(ints(coeffs@), qp)[k],
        res.1@ == spec_dqcoeffs(spec_qcoeffs(ints(coeffs@), qp), qp),
        res.2 == spec_last_nonzero(spec_qcoeffs(ints(coeffs@), qp), coeffs@.len() as int) as u16,
        res.2 <= coeffs@.len(),
        forall|k: int| 0 <= k < coeffs@.len() ==> #[trigger] res.0@[k] != i32::MIN,
        forall|k: int| 0 <= k < coeffs@.len() ==> {
            let a = if coeffs@[k] < 0 { -coeffs@[k] } else { coeffs@[k] as int };
            -(a + 258) <= #[trigger] res.1@[k] <= a + 258
        },
{
    let ghost cs = ints(coeffs@);
    let ghost qs = spec_qcoeffs(cs, qp);
    let n: usize = coeffs.len();
    let dequant_dc: i32 = qp_to_dequant(qp, true) as i32;
    let dequant_ac: i32 = qp_to_dequant(qp, false) as i32;
    let mut qcoeffs: Vec<i32> = vec![0i32; n];
    let mut dqcoeffs: Vec<i32> = vec![0i32; n];
    let mut eob: u16 = 0;
    let mut i: usize = 0;
    while i < n
        invariant
            i <= n, n == coeffs@.len(),
            cs == ints(coeffs@),
            qs == spec_qcoeffs(cs, qp),
            dequant_dc == spec_dequant(qp, true), dequant_ac == spec_dequant(qp, false),
            forall|k: int| 0 <= k < coeffs@.len() ==> -25007 <= #[trigger] coeffs@[k] <= 25007,
            qcoeffs@.len() == n, dqcoeffs@.len() == n,
            forall|k: int| 0 <= k < i ==> #[trigger] qcoeffs@[k] == qs[k],
            forall|k: int| 0 <= k < i ==> #[trigger] dqcoeffs@[k] == spec_dqcoeffs(qs, qp)[k],
            forall|k: int| 0 <= k < i ==> {
                let a = if coeffs@[k] < 0 { -coeffs@[k] } else { coeffs@[k] as int };
                -(a + 258) <= #[trigger] dqcoeffs@[k] <= a + 258
            },
            eob == spec_last_nonzero(qs, i as int) as u16,
            eob <= i,
        decreases n - i,
    {
        let dequant: i32 = if i == 0 { dequant_dc } else { dequant_ac };
        let c: i32 = coeffs[i];
        let sign: i32 = if c < 0 { -1 } else { 1 };
        let abs_coeff: i32 = if c < 0 { -c } else { c };
        let q: i32 = (abs_coeff + dequant / 2) / dequant;
        proof {
            let ci = c as int;
            let di = dequant as int;
            lemma_quantize_bound(ci, di);
            assert(cs[i as int] == c);
            assert(qs[i as int] == spec_quantize(ci, di));
            assert(q as int == (abs_coeff as int + di / 2) / di);
            if c < 0 {
                assert(spec_quantize(ci, di) == -((-ci + di / 2) / di));
                assert(sign * q == -(q as int));
            } else {
                assert(sign * q == q as int);
            }
        }
        let qv: i32 = sign * q;
        qcoeffs.set(i, qv);
        let dqv: i32 = qv * dequant;
        dqcoeffs.set(i, dqv);
        if q > 0 {
            let e: usize = i + 1;
            eob = e as u16;
            assert(eob as usize <= e) by (bit_vector) requires eob == e as u16;
        }
        proof {
            assert(spec_dqcoeffs(qs, qp)[i as int] == (qs[i as int] * spec_dequant(qp, i == 0)) as i32);
            assert((q > 0) == (qs[i as int] != 0));
        }
        i = i + 1;
    }
    proof {
        assert(dqcoeffs@ =~= spec_dqcoeffs(qs, qp));
    }
    (qcoeffs, dqcoeffs, eob)
}


/// Largest magnitude of a dequantized coefficient of a block of 8-bit residuals.
pub open spec fn dq_bound(width: usize, height: usize) -> int {
    coeff_bound(width, height) + 258
}

/// Step 4: the inverse-transformed residual, at most 78956 in magnitude.
fn inverse_block(dq: &Vec<i32>, width: usize, height: usize) -> (inv: Vec<i32>)
    requires
        supported_block(width, height),
        dq@.len() == width * height,
        forall|k: int| 0 <= k < dq@.len() ==> -dq_bound(width, height) <= #[trigger] dq@[k] <= dq_bound(width, height),
    ensures
        inv@.len() == width * height,
        forall|k: int| 0 <= k < width * height ==> #[trigger] inv@[k] == spec_inv_residual(dq@, width, height)[k],
        forall|k: int| 0 <= k < width * height ==> -78956 <= #[trigger] inv@[k] <= 78956,
{
    let n: usize = dq.len();
    let mut inv_residual: Vec<i32> = vec![0i32; n];
    let ghost zeros = inv_residual@;
    if width == 4 && height == 4 {
        proof {
            assert forall|r: int, c: int| 0 <= r < 4 && 0 <= c < 4 implies
                -9442 <= #[trigger] dq@[r * 4 + c] <= 9442 by {
                assert(0 <= r * 4 + c < 16);
            }
            lemma_inv4x4_in_range(dq@, 4);
        }
        inv_txfm2d_4x4_dct_dct(dq.as_slice(), inv_residual.as_mut_slice(), width);
        proof {
            assert forall|k: int| 0 <= k < 16 implies
                #[trigger] inv_residual@[k] == spec_inv_residual(dq@, width, height)[k]
                && -78956 <= inv_residual@[k] <= 78956 by {
                lemma_raster_divmod(k / 4, k % 4, 4);
                assert(raster(k / 4, k % 4, 4) == k);
                assert(inv_residual@[raster(k / 4, k % 4, 4)] == spec_inv_txfm2d(dq@, 4, InvTxfm1d::Idct4,
                    InvTxfm1d::Idct4, 4, INV_SHIFT_4X4, k / 4, k % 4));
            }
        }
    } else if width == 8 && height == 8 {
        proof {
            assert forall|r: int, c: int| 0 <= r < 8 && 0 <= c < 8 implies
                -25265 <= #[trigger] dq@[r * 8 + c] <= 25265 by {
                assert(0 <= r * 8 + c < 64);
            }
            lemma_inv8x8_in_range(dq@, 8);
        }
        inv_txfm2d_8x8_dct_dct(dq.as_slice(), inv_residual.as_mut_slice(), width);
        proof {
            assert forall|k: int| 0 <= k < 64 implies
                #[trigger] inv_residual@[k] == spec_inv_residual(dq@, width, height)[k]
                && -78956 <= inv_residual@[k] <= 78956 by {
                lemma_raster_divmod(k / 8, k % 8, 8);
                assert(raster(k / 8, k % 8, 8) == k);
                assert(inv_residual@[raster(k / 8, k % 8, 8)] == spec_inv_txfm2d(dq@, 8, InvTxfm1d::Idct8,
                    InvTxfm1d::Idct8, 8, INV_SHIFT_8X8, k / 8, k % 8));
            }
        }
    } else {
        let mut k: usize = 0;
        while k < 16
            invariant
                k <= 16, 16 <= n, n == width * height, n == dq@.len(),
                !(width == 4 && height == 4), !(width == 8 && height == 8),
                inv_residual@.len() == n,
                forall|j: int| 0 <= j < k ==> #[trigger] inv_residual@[j] == dq@[j],
                forall|j: int| k <= j < n ==> #[trigger] inv_residual@[j] == zeros[j],
            decreases 16 - k,
        {
            inv_residual.set(k, dq[k]);
            k = k + 1;
        }
        proof {
            assert forall|j: int| 0 <= j < width * height implies
                #[trigger] inv_residual@[j] == spec_inv_residual(dq@, width, height)[j]
                && -78956 <= inv_residual@[j] <= 78956 by {
                if j >= 16 {
                    assert(inv_residual@[j] == zeros[j]);
                } else {
                    assert(-9442 <= dq@[j] <= 9442);
                }
            }
        }
    }
    inv_residual
}

/// Step 5: the reconstruction and its distortion against the source.
fn reconstruct(src: &[u8], src_stride: usize, pred: &[u8], pred_stride: usize, inv: &Vec<i32>, width: usize,
    height: usize) -> (res: (Vec<u8>, u64))
    requires
        width > 0,
        width * height <= usize::MAX,
        width * height * 65025 <= u64::MAX,
        inv@.len() == width * height,
        forall|k: int| 0 <= k < inv@.len() ==> -78956 <= #[trigger] inv@[k] <= 78956,
        block_fits(src@.len(), src_stride as nat, width as nat, height as nat),
        block_fits(pred@.len(), pred_stride as nat, width as nat, height as nat),
    ensures
        res.0@ == spec_recon(pred@, pred_stride, ints(inv@), width, height),
        res.1 == spec_block_sse(src@, src_stride, res.0@, width, width * height),
{
    let n: usize = inv.len();
    let slen: usize = src.len();
    let plen: usize = pred.len();
    let ghost rspec = spec_recon(pred@, pred_stride, ints(inv@), width, height);
    let mut recon: Vec<u8> = vec![0u8; n];
    let mut distortion: u64 = 0;
    let mut row: usize = 0;
    while row < height
        invariant
            row <= height, n == width * height, width > 0, slen == src@.len(), plen == pred@.len(),
            n * 65025 <= u64::MAX,
            inv@.len() == n,
            forall|k: int| 0 <= k < inv@.len() ==> -78956 <= #[trigger] inv@[k] <= 78956,
            block_fits(src@.len(), src_stride as nat, width as nat, height as nat),
            block_fits(pred@.len(), pred_stride as nat, width as nat, height as nat),
            rspec == spec_recon(pred@, pred_stride, ints(inv@), width, height),
            recon@.len() == n,
            forall|k: int| 0 <= k < row * width ==> #[trigger] recon@[k] == rspec[k],
            distortion == spec_block_sse(src@, src_stride, rspec, width, row * width),
            distortion <= 65025 * (row * width),
        decreases height - row,
    {
        let mut col: usize = 0;
        while col < width
            invariant
                row < height, col <= width, n == width * height, width > 0, slen == src@.len(), plen == pred@.len(),
                n * 65025 <= u64::MAX,
                inv@.len() == n,
                forall|k: int| 0 <= k < inv@.len() ==> -78956 <= #[trigger] inv@[k] <= 78956,
                block_fits(src@.len(), src_stride as nat, width as nat, height as nat),
                block_fits(pred@.len(), pred_stride as nat, width as nat, height as nat),
                rspec == spec_recon(pred@, pred_stride, ints(inv@), width, height),
                recon@.len() == n,
                forall|k: int| 0 <= k < row * width + col ==> #[trigger] recon@[k] == rspec[k],
                distortion == spec_block_sse(src@, src_stride, rspec, width, row * width + col),
                distortion <= 65025 * (row * width + col),
            decreases width - col,
        {
            proof {
                assert(row * width + col < width * height) by (nonlinear_arith)
                    requires row < height, col < width;
                assert(row * src_stride + col < src@.len()) by (nonlinear_arith)
                    requires row < height, col < width, (height - 1) * src_stride + width <= src@.len();
                assert(row * pred_stride + col < pred@.len()) by (nonlinear_arith)
                    requires row < height, col < width, (height - 1) * pred_stride + width <= pred@.len();
                lemma_raster_divmod(row as int, col as int, width as int);
            }
            let idx: usize = row * width + col;
            let p: i32 = pred[row * pred_stride + col] as i32;
            let v: i32 = p + inv[idx];
            let r: u8 = if v < 0 { 0 } else if v > 255 { 255 } else { v as u8 };
            recon.set(idx, r);
            let diff: i32 = src[row * src_stride + col] as i32 - r as i32;
            proof {
                assert(r == rspec[idx as int]);
                assert(0 <= diff * diff <= 65025) by (nonlinear_arith) requires -255 <= diff <= 255;
                assert(spec_block_sse(src@, src_stride, rspec, width, idx + 1)
                    == spec_block_sse(src@, src_stride, rspec, width, idx as int) + diff * diff);
                assert(65025 * (row * width + col) + 65025 == 65025 * (row * width + col + 1));
                assert(65025 * (row * width + col + 1) <= n * 65025) by (nonlinear_arith)
                    requires row * width + col + 1 <= n;
            }
            distortion = distortion + (diff * diff) as u64;
            col = col + 1;
        }
        proof {
            assert((row + 1) * width == row * width + width) by (nonlinear_arith);
        }
        row = row + 1;
    }
    proof {
        assert(height * width == n) by (nonlinear_arith) requires n == width * height;
        assert(recon@ =~= rspec);
    }
    (recon, distortion)
}


/// The quantized coefficients that [`encode_block`] produces.
pub open spec fn spec_block_qcoeffs(src: Seq<u8>, src_stride: usize, pred: Seq<u8>, pred_stride: usize, width: usize,
    height: usize, qp: u8) -> Seq<int> {
    spec_qcoeffs(spec_block_coeffs(spec_residual(src, src_stride, pred, pred_stride, width, height), width, height), qp)
}

/// The reconstruction that [`encode_block`] produces.
pub open spec fn spec_block_recon(src: Seq<u8>, src_stride: usize, pred: Seq<u8>, pred_stride: usize, width: usize,
    height: usize, qp: u8) -> Seq<u8> {
    let qs = spec_block_qcoeffs(src, src_stride, pred, pred_stride, width, height, qp);
    spec_recon(pred, pred_stride, spec_inv_residual(spec_dqcoeffs(qs, qp), width, height), width, height)
}

/// Encode one block: residual, forward transform, dead-zone quantization with the
/// steps of `qp`, inverse transform, reconstruction, distortion and rate.
pub fn encode_block(src: &[u8], src_stride: usize, pred: &[u8], pred_stride: usize, width: usize, height: usize,
    qp: u8) -> (r: EncodeBlockResult)
    requires
        supported_block(width, height),
        width * height * 65025 <= u64::MAX,
        width * height <= usize::MAX,
        block_fits(src@.len(), src_stride as nat, width as nat, height as nat),
        block_fits(pred@.len(), pred_stride as nat, width as nat, height as nat),
    ensures
        r.qcoeffs@.len() == width * height,
        forall|k: int| 0 <= k < width * height ==> #[trigger] r.qcoeffs@[k]
            == spec_block_qcoeffs(src@, src_stride, pred@, pred_stride, width, height, qp)[k],
        r.eob == spec_last_nonzero(spec_block_qcoeffs(src@, src_stride, pred@, pred_stride, width, height, qp),
            width * height) as u16,
        r.recon@ == spec_block_recon(src@, src_stride, pred@, pred_stride, width, height, qp),
        r.distortion == spec_block_sse(src@, src_stride, r.recon@, width, width * height),
        r.rate == spec_coeff_rate(r.qcoeffs@, r.eob),
{
    let ghost res_spec = spec_residual(src@, src_stride, pred@, pred_stride, width, height);
    let residual = compute_residual(src, src_stride, pred, pred_stride, width, height);
    let coeffs = forward_block(&residual, width, height);
    let ghost cs = ints(coeffs@);
    proof {
        assert(cs =~= spec_block_coeffs(res_spec, width, height));
        assert forall|k: int| 0 <= k < coeffs@.len() implies -25007 <= #[trigger] coeffs@[k] <= 25007 by {
            assert(-coeff_bound(width, height) <= coeffs@[k] <= coeff_bound(width, height));
        }
    }
    let (qcoeffs, dqcoeffs, eob) = quantize_block(&coeffs, qp);
    proof {
        assert forall|k: int| 0 <= k < dqcoeffs@.len() implies
            -dq_bound(width, height) <= #[trigger] dqcoeffs@[k] <= dq_bound(width, height) by {
            assert(-coeff_bound(width, height) <= coeffs@[k] <= coeff_bound(width, height));
        }
    }
    let inv_residual = inverse_block(&dqcoeffs, width, height);
    proof {
        let sir = spec_inv_residual(dqcoeffs@, width, height);
        if width == 4 && height == 4 {
            assert(sir.len() == width * height);
        } else if width == 8 && height == 8 {
            assert(sir.len() == width * height);
        } else {
            assert(sir.len() == width * height);
        }
        assert forall|k: int| 0 <= k < width * height implies
            ints(inv_residual@)[k] == #[trigger] sir[k] by {
            assert(inv_residual@[k] == sir[k]);
        }
        assert(ints(inv_residual@) =~= sir);
    }
    let (recon, distortion) = reconstruct(src, src_stride, pred, pred_stride, &inv_residual, width, height);
    let rate = estimate_coeff_rate(qcoeffs.as_slice(), eob);
    EncodeBlockResult { qcoeffs, recon, eob, distortion, rate }
}

} // verus!
