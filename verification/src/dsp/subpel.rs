//! Separable 8-tap sub-pixel interpolation with the regular filter, reading the
//! reference picture with its edges replicated. Shared by scaled and warped prediction.
use vstd::prelude::*;
use crate::dsp::superres::clampi;
use crate::dsp::fwd_txfm::lemma_i64_shr;
use crate::tables::interp::SUB_PEL_FILTERS_8;

verus! {

/// Reference pixel at `(y, x)`, both clamped into the `w` x `h` picture.
pub open spec fn ref_px(pic: Seq<u8>, stride: usize, w: usize, h: usize, y: int, x: int) -> int {
    pic[clampi(y, 0, h - 1) * stride + clampi(x, 0, w - 1)] as int
}

/// Sum of the first `k` horizontal taps of phase `fx` around column `x` of row `y`.
pub open spec fn hrow_sum(pic: Seq<u8>, stride: usize, w: usize, h: usize, y: int, x: int, fx: int, k: int) -> int
    decreases k,
{
    if k <= 0 {
        0
    } else {
        hrow_sum(pic, stride, w, h, y, x, fx, k - 1) + ref_px(pic, stride, w, h, y, x - 3 + (k - 1))
            * SUB_PEL_FILTERS_8[fx][k - 1]
    }
}

/// Horizontally filtered value of row `y` at column `x`, rounded from Q7.
pub open spec fn hrow(pic: Seq<u8>, stride: usize, w: usize, h: usize, y: int, x: int, fx: int) -> int {
    (hrow_sum(pic, stride, w, h, y, x, fx, 8) + 64) / 128
}

/// Sum of the first `k` vertical taps of phase `fy` over the filtered rows around `iy`.
pub open spec fn vcol_sum(pic: Seq<u8>, stride: usize, w: usize, h: usize, ix: int, iy: int, fx: int, fy: int,
    k: int) -> int
    decreases k,
{
    if k <= 0 {
        0
    } else {
        vcol_sum(pic, stride, w, h, ix, iy, fx, fy, k - 1) + hrow(pic, stride, w, h, iy - 3 + (k - 1), ix, fx)
            * SUB_PEL_FILTERS_8[fy][k - 1]
    }
}

/// The interpolated pixel at integer position `(ix, iy)` plus phases `(fx, fy)` in 1/16 pel.
pub open spec fn subpel_px(pic: Seq<u8>, stride: usize, w: usize, h: usize, ix: int, iy: int, fx: int, fy: int)
    -> int {
    clampi((vcol_sum(pic, stride, w, h, ix, iy, fx, fy, 8) + 64) / 128, 0, 255)
}

/// The picture and the phases that [`subpel_interp`] can work on.
pub open spec fn subpel_args_ok(len: int, stride: usize, w: usize, h: usize, ix: int, iy: int, fx: int, fy: int)
    -> bool {
    &&& 1 <= w <= i32::MAX && 1 <= h <= i32::MAX
    &&& (h - 1) * stride + w <= len
    &&& 0 <= fx < 16 && 0 <= fy < 16
    &&& i32::MIN + 3 <= ix <= i32::MAX - 4 && i32::MIN + 3 <= iy <= i32::MAX - 4
}

proof fn lemma_taps_small()
    ensures forall|p: int, t: int| 0 <= p < 16 && 0 <= t < 8 ==> -16 <= #[trigger] SUB_PEL_FILTERS_8[p][t] <= 128,
{
}

proof fn lemma_hrow_sum_bounds(pic: Seq<u8>, stride: usize, w: usize, h: usize, y: int, x: int, fx: int, k: int)
    requires 0 <= k <= 8, 0 <= fx < 16,
    ensures -16 * 255 * k <= hrow_sum(pic, stride, w, h, y, x, fx, k) <= 128 * 255 * k,
    decreases k,
{
    if k > 0 {
        lemma_hrow_sum_bounds(pic, stride, w, h, y, x, fx, k - 1);
        lemma_taps_small();
        let t = SUB_PEL_FILTERS_8[fx][k - 1];
        let v = pic[clampi(y, 0, h - 1) * stride + clampi(x - 3 + (k - 1), 0, w - 1)];
        assert(-16 * 255 <= v * t <= 128 * 255) by (nonlinear_arith) requires 0 <= v <= 255, -16 <= t <= 128;
        assert(-16 * 255 * (k - 1) - 16 * 255 == -16 * 255 * k) by (nonlinear_arith);
        assert(128 * 255 * (k - 1) + 128 * 255 == 128 * 255 * k) by (nonlinear_arith);
    }
}

proof fn lemma_vcol_sum_bounds(pic: Seq<u8>, stride: usize, w: usize, h: usize, ix: int, iy: int, fx: int, fy: int,
    k: int)
    requires 0 <= k <= 8, 0 <= fx < 16, 0 <= fy < 16,
    ensures -16 * 2040 * k <= vcol_sum(pic, stride, w, h, ix, iy, fx, fy, k) <= 128 * 2040 * k,
    decreases k,
{
    if k > 0 {
        lemma_vcol_sum_bounds(pic, stride, w, h, ix, iy, fx, fy, k - 1);
        lemma_taps_small();
        lemma_hrow_sum_bounds(pic, stride, w, h, iy - 3 + (k - 1), ix, fx, 8);
        let t = SUB_PEL_FILTERS_8[fy][k - 1];
        let v = hrow(pic, stride, w, h, iy - 3 + (k - 1), ix, fx);
        assert(-255 <= v <= 2040);
        assert(-16 * 2040 <= v * t <= 128 * 2040) by (nonlinear_arith) requires -255 <= v <= 2040, -16 <= t <= 128;
        assert(-16 * 2040 * (k - 1) - 16 * 2040 == -16 * 2040 * k) by (nonlinear_arith);
        assert(128 * 2040 * (k - 1) + 128 * 2040 == 128 * 2040 * k) by (nonlinear_arith);
    }
}

/// Clamp `v` into `[0, hi]`.
fn clamp_coord(v: i64, hi: usize) -> (r: usize)
    requires 1 <= hi + 1 <= i32::MAX,
    ensures r == clampi(v as int, 0, hi as int),
{
    if v < 0 { 0 } else if v > hi as i64 { hi } else { v as usize }
}

proof fn lemma_px_index(cy: int, cx: int, stride: int, w: int, h: int, len: int)
    requires 0 <= cy <= h - 1, 0 <= cx <= w - 1, stride >= 0, (h - 1) * stride + w <= len,
    ensures 0 <= cy * stride + cx < len,
{
    assert(cy * stride <= (h - 1) * stride) by (nonlinear_arith) requires cy <= h - 1, stride >= 0;
    assert(cy * stride >= 0) by (nonlinear_arith) requires cy >= 0, stride >= 0;
}

/// Horizontal filter of one row: [`hrow`].
fn filter_row(pic: &[u8], stride: usize, w: usize, h: usize, y: i64, ix: i32, fx: usize) -> (v: i32)
    requires
        subpel_args_ok(pic@.len() as int, stride, w, h, ix as int, 0, fx as int, 0),
    ensures
        v == hrow(pic@, stride, w, h, y as int, ix as int, fx as int),
        -255 <= v <= 2040,
{
    let plen: usize = pic.len();
    let ry: usize = clamp_coord(y, h - 1);
    let mut sum: i32 = 0;
    let mut k: usize = 0;
    while k < 8
        invariant
            k <= 8, plen == pic@.len(), subpel_args_ok(pic@.len() as int, stride, w, h, ix as int, 0, fx as int, 0),
            ry == clampi(y as int, 0, h - 1),
            sum == hrow_sum(pic@, stride, w, h, y as int, ix as int, fx as int, k as int),
            -16 * 255 * k <= sum <= 128 * 255 * k,
        decreases 8 - k,
    {
        let rx: usize = clamp_coord(ix as i64 - 3 + k as i64, w - 1);
        proof {
            lemma_px_index(ry as int, rx as int, stride as int, w as int, h as int, plen as int);
            lemma_taps_small();
            lemma_hrow_sum_bounds(pic@, stride, w, h, y as int, ix as int, fx as int, k as int + 1);
        }
        let p: i32 = pic[ry * stride + rx] as i32;
        let t: i32 = SUB_PEL_FILTERS_8[fx][k] as i32;
        proof {
            assert(-16 <= t <= 128);
            assert(-16 * 255 <= p * t <= 128 * 255) by (nonlinear_arith) requires 0 <= p <= 255, -16 <= t <= 128;
            assert(p == ref_px(pic@, stride, w, h, y as int, ix - 3 + k));
            assert(-16 * 255 * 8 <= sum + p * t <= 128 * 255 * 8);
        }
        sum = sum + p * t;
        k = k + 1;
    }
    let s: i64 = sum as i64 + 64;
    proof {
        lemma_i64_shr(s, 7);
        vstd::arithmetic::power2::lemma2_to64();
        lemma_hrow_sum_bounds(pic@, stride, w, h, y as int, ix as int, fx as int, 8);
    }
    (s >> 7) as i32
}

/// Separable 8-tap interpolation at `(ix, iy)` with phases `(fx, fy)`: [`subpel_px`].
pub fn subpel_interp(pic: &[u8], stride: usize, w: usize, h: usize, ix: i32, iy: i32, fx: usize, fy: usize)
    -> (p: u8)
    requires subpel_args_ok(pic@.len() as int, stride, w, h, ix as int, iy as int, fx as int, fy as int),
    ensures p == subpel_px(pic@, stride, w, h, ix as int, iy as int, fx as int, fy as int),
{
    let mut vsum: i32 = 0;
    let mut k: usize = 0;
    while k < 8
        invariant
            k <= 8, subpel_args_ok(pic@.len() as int, stride, w, h, ix as int, iy as int, fx as int, fy as int),
            vsum == vcol_sum(pic@, stride, w, h, ix as int, iy as int, fx as int, fy as int, k as int),
            -16 * 2040 * k <= vsum <= 128 * 2040 * k,
        decreases 8 - k,
    {
        let v: i32 = filter_row(pic, stride, w, h, iy as i64 - 3 + k as i64, ix, fx);
        proof {
            lemma_taps_small();
            lemma_vcol_sum_bounds(pic@, stride, w, h, ix as int, iy as int, fx as int, fy as int, k as int + 1);
        }
        let t: i32 = SUB_PEL_FILTERS_8[fy][k] as i32;
        proof {
            assert(-16 <= t <= 128);
            assert(-16 * 2040 <= v * t <= 128 * 2040) by (nonlinear_arith) requires -255 <= v <= 2040, -16 <= t <= 128;
            assert(-16 * 2040 * 8 <= vsum + v * t <= 128 * 2040 * 8) by (nonlinear_arith)
                requires -16 * 2040 * k <= vsum <= 128 * 2040 * k, k < 8, -16 * 2040 <= v * t <= 128 * 2040;
        }
        vsum = vsum + v * t;
        k = k + 1;
    }
    let s: i64 = vsum as i64 + 64;
    proof {
        lemma_i64_shr(s, 7);
        vstd::arithmetic::power2::lemma2_to64();
    }
    let q: i64 = s >> 7;
    if q < 0 { 0 } else if q > 255 { 255 } else { q as u8 }
}

proof fn lemma_phase0()
    ensures
        SUB_PEL_FILTERS_8[0][0] == 0, SUB_PEL_FILTERS_8[0][1] == 0, SUB_PEL_FILTERS_8[0][2] == 0,
        SUB_PEL_FILTERS_8[0][3] == 128, SUB_PEL_FILTERS_8[0][4] == 0, SUB_PEL_FILTERS_8[0][5] == 0,
        SUB_PEL_FILTERS_8[0][6] == 0, SUB_PEL_FILTERS_8[0][7] == 0,
{
}

proof fn lemma_hrow_step(pic: Seq<u8>, stride: usize, w: usize, h: usize, y: int, x: int, fx: int, k: int)
    requires k >= 0,
    ensures hrow_sum(pic, stride, w, h, y, x, fx, k + 1) == hrow_sum(pic, stride, w, h, y, x, fx, k)
        + ref_px(pic, stride, w, h, y, x - 3 + k) * SUB_PEL_FILTERS_8[fx][k],
{
}

proof fn lemma_vcol_step(pic: Seq<u8>, stride: usize, w: usize, h: usize, ix: int, iy: int, fx: int, fy: int, k: int)
    requires k >= 0,
    ensures vcol_sum(pic, stride, w, h, ix, iy, fx, fy, k + 1) == vcol_sum(pic, stride, w, h, ix, iy, fx, fy, k)
        + hrow(pic, stride, w, h, iy - 3 + k, ix, fx) * SUB_PEL_FILTERS_8[fy][k],
{
}

/// At phase zero in both directions the filter is the identity: the result is the
/// (edge-clamped) reference pixel itself.
pub proof fn lemma_subpel_integer(pic: Seq<u8>, stride: usize, w: usize, h: usize, ix: int, iy: int)
    ensures subpel_px(pic, stride, w, h, ix, iy, 0, 0) == ref_px(pic, stride, w, h, iy, ix),
{
    lemma_phase0();
    assert forall|y: int| #[trigger] hrow(pic, stride, w, h, y, ix, 0) == ref_px(pic, stride, w, h, y, ix) by {
        lemma_phase0();
        let p = ref_px(pic, stride, w, h, y, ix);
        lemma_hrow_step(pic, stride, w, h, y, ix, 0, 0);
        lemma_hrow_step(pic, stride, w, h, y, ix, 0, 1);
        lemma_hrow_step(pic, stride, w, h, y, ix, 0, 2);
        lemma_hrow_step(pic, stride, w, h, y, ix, 0, 3);
        lemma_hrow_step(pic, stride, w, h, y, ix, 0, 4);
        lemma_hrow_step(pic, stride, w, h, y, ix, 0, 5);
        lemma_hrow_step(pic, stride, w, h, y, ix, 0, 6);
        lemma_hrow_step(pic, stride, w, h, y, ix, 0, 7);
        assert(hrow_sum(pic, stride, w, h, y, ix, 0, 0) == 0);
        assert(hrow_sum(pic, stride, w, h, y, ix, 0, 8) == p * 128);
        assert((p * 128 + 64) / 128 == p);
    }
    let p = ref_px(pic, stride, w, h, iy, ix);
    lemma_vcol_step(pic, stride, w, h, ix, iy, 0, 0, 0);
    lemma_vcol_step(pic, stride, w, h, ix, iy, 0, 0, 1);
    lemma_vcol_step(pic, stride, w, h, ix, iy, 0, 0, 2);
    lemma_vcol_step(pic, stride, w, h, ix, iy, 0, 0, 3);
    lemma_vcol_step(pic, stride, w, h, ix, iy, 0, 0, 4);
    lemma_vcol_step(pic, stride, w, h, ix, iy, 0, 0, 5);
    lemma_vcol_step(pic, stride, w, h, ix, iy, 0, 0, 6);
    lemma_vcol_step(pic, stride, w, h, ix, iy, 0, 0, 7);
    assert(hrow(pic, stride, w, h, iy - 3 + 3, ix, 0) == p);
    assert(vcol_sum(pic, stride, w, h, ix, iy, 0, 0, 0) == 0);
    assert(vcol_sum(pic, stride, w, h, ix, iy, 0, 0, 8) == p * 128);
    assert((p * 128 + 64) / 128 == p);
    assert(0 <= p <= 255);
}

} // verus!
