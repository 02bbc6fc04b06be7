//! Range analysis of the 4x4 and 8x8 DCT pairs: for 8-bit residuals no
//! intermediate value of the forward transform, and for its dequantized output no
//! intermediate value of the inverse transform, leaves the range the 1D transforms
//! accept.
use vstd::prelude::*;
use crate::dsp::fwd_txfm::{btf, bounded, bounded_int, spec_fdct4, spec_fdct8};
use crate::dsp::inv_txfm::{InvTxfm1d, inv2d_ok, spec_inv_txfm2d, block_row, inv_row_pass, inv_col_input,
    inv_col_pass, INV_TXFM_INPUT_MAX, INV_SHIFT_4X4, INV_SHIFT_8X8, spec_idct4, spec_idct8, idct8_stage1, idct8_stage2, idct8_stage3, idct8_stage4,
    idct8_stage5};
use crate::dsp::fwd_txfm::{ints, FwdTxfm1d, fwd2d_ok, spec_fwd_txfm2d, column, shifted, as_i32s, col_input, col_pass,
    row_input, row_pass, spec_shift, shift_ok, TXFM_INPUT_MAX, FWD_SHIFT_4X4, FWD_SHIFT_8X8};
use vstd::arithmetic::power2::pow2;

verus! {

/// A half butterfly whose weighted operand bounds, plus one step of 4096, fit in
/// `4096 * k` stays within `[-k, k]`.
pub proof fn lemma_btf_scaled(w0: int, a: int, w1: int, b: int, ba: int, bb: int, k: int)
    requires
        0 <= w0 <= 4096 || -4096 <= w0 <= 0,
        0 <= w1 <= 4096 || -4096 <= w1 <= 0,
        -ba <= a <= ba, -bb <= b <= bb,
        (if w0 >= 0 { w0 } else { -w0 }) * ba + (if w1 >= 0 { w1 } else { -w1 }) * bb + 4096 <= 4096 * k,
    ensures -k <= btf(w0, a, w1, b) <= k,
{
    reveal(btf);
    let aw0 = if w0 >= 0 { w0 } else { -w0 };
    let aw1 = if w1 >= 0 { w1 } else { -w1 };
    assert(-(aw0 * ba) <= w0 * a <= aw0 * ba) by (nonlinear_arith)
        requires -ba <= a <= ba, aw0 == (if w0 >= 0 { w0 } else { -w0 });
    assert(-(aw1 * bb) <= w1 * b <= aw1 * bb) by (nonlinear_arith)
        requires -bb <= b <= bb, aw1 == (if w1 >= 0 { w1 } else { -w1 });
    let x = w0 * a + w1 * b;
    assert(-4096 * k + 4096 <= x <= 4096 * k - 4096);
    let q = (x + 2048) / 4096;
    vstd::arithmetic::div_mod::lemma_fundamental_div_mod(x + 2048, 4096);
    assert(btf(w0, a, w1, b) == q);
    assert(-k <= q <= k);
}

/// The 4-point forward DCT grows a bound `b` to at most `3 * b + 1`.
pub proof fn lemma_fdct4_tight(x: Seq<i32>, b: int)
    requires b >= 0, bounded(x, 4, b),
    ensures bounded_int(spec_fdct4(x), 4, 3 * b + 1),
{
    assert(-b <= x[0] <= b);
    assert(-b <= x[1] <= b);
    assert(-b <= x[2] <= b);
    assert(-b <= x[3] <= b);
    let (x0, x1, x2, x3) = (x[0] as int, x[1] as int, x[2] as int, x[3] as int);
    let (b0, b1, b2, b3) = (x0 + x3, x1 + x2, -x2 + x1, -x3 + x0);
    lemma_btf_scaled(2896, b0, 2896, b1, 2 * b, 2 * b, 3 * b + 1);
    lemma_btf_scaled(1567, b2, 3784, b3, 2 * b, 2 * b, 3 * b + 1);
    lemma_btf_scaled(-2896, b1, 2896, b0, 2 * b, 2 * b, 3 * b + 1);
    lemma_btf_scaled(1567, b3, -3784, b2, 2 * b, 2 * b, 3 * b + 1);
}

/// The 8-point forward DCT grows a bound `b` to at most `7 * b + 3`.
pub proof fn lemma_fdct8_tight(x: Seq<i32>, b: int)
    requires b >= 0, bounded(x, 8, b),
    ensures bounded_int(spec_fdct8(x), 8, 7 * b + 3),
{
    assert(-b <= x[0] <= b);
    assert(-b <= x[1] <= b);
    assert(-b <= x[2] <= b);
    assert(-b <= x[3] <= b);
    assert(-b <= x[4] <= b);
    assert(-b <= x[5] <= b);
    assert(-b <= x[6] <= b);
    assert(-b <= x[7] <= b);
    let (x0, x1, x2, x3) = (x[0] as int, x[1] as int, x[2] as int, x[3] as int);
    let (x4, x5, x6, x7) = (x[4] as int, x[5] as int, x[6] as int, x[7] as int);
    let (a0, a1, a2, a3) = (x0 + x7, x1 + x6, x2 + x5, x3 + x4);
    let (a4, a5, a6, a7) = (-x4 + x3, -x5 + x2, -x6 + x1, -x7 + x0);
    let (b0, b1, b2, b3) = (a0 + a3, a1 + a2, -a2 + a1, -a3 + a0);
    lemma_btf_scaled(-2896, a5, 2896, a6, 2 * b, 2 * b, 3 * b + 1);
    lemma_btf_scaled(2896, a6, 2896, a5, 2 * b, 2 * b, 3 * b + 1);
    let b5 = btf(-2896, a5, 2896, a6);
    let b6 = btf(2896, a6, 2896, a5);
    lemma_btf_scaled(2896, b0, 2896, b1, 4 * b, 4 * b, 6 * b + 1);
    lemma_btf_scaled(-2896, b1, 2896, b0, 4 * b, 4 * b, 6 * b + 1);
    lemma_btf_scaled(1567, b2, 3784, b3, 4 * b, 4 * b, 6 * b + 1);
    lemma_btf_scaled(1567, b3, -3784, b2, 4 * b, 4 * b, 6 * b + 1);
    let (c4, c5, c6, c7) = (a4 + b5, -b5 + a4, -b6 + a7, a7 + b6);
    lemma_btf_scaled(799, c4, 4017, c7, 5 * b + 1, 5 * b + 1, 7 * b + 3);
    lemma_btf_scaled(3406, c5, 2276, c6, 5 * b + 1, 5 * b + 1, 7 * b + 3);
    lemma_btf_scaled(3406, c6, -2276, c5, 5 * b + 1, 5 * b + 1, 7 * b + 3);
    lemma_btf_scaled(799, c7, -4017, c4, 5 * b + 1, 5 * b + 1, 7 * b + 3);
}

/// The 4-point inverse DCT grows a bound `b` to at most `4 * b + 2`.
pub proof fn lemma_idct4_tight(x: Seq<i32>, b: int)
    requires b >= 0, bounded(x, 4, b),
    ensures bounded_int(spec_idct4(x), 4, 4 * b + 2),
{
    assert(-b <= x[0] <= b);
    assert(-b <= x[1] <= b);
    assert(-b <= x[2] <= b);
    assert(-b <= x[3] <= b);
    let (x0, x1, x2, x3) = (x[0] as int, x[1] as int, x[2] as int, x[3] as int);
    lemma_btf_scaled(2896, x0, 2896, x2, b, b, 2 * b + 1);
    lemma_btf_scaled(2896, x0, -2896, x2, b, b, 2 * b + 1);
    lemma_btf_scaled(1567, x1, -3784, x3, b, b, 2 * b + 1);
    lemma_btf_scaled(3784, x1, 1567, x3, b, b, 2 * b + 1);
}

/// The 8-point inverse DCT grows a bound `b` to at most `10 * b + 6`.
pub proof fn lemma_idct8_tight(x: Seq<i32>, b: int)
    requires b >= 0, bounded(x, 8, b),
    ensures bounded_int(spec_idct8(x), 8, 10 * b + 6),
{
    reveal(idct8_stage1);
    reveal(idct8_stage2);
    reveal(idct8_stage3);
    reveal(idct8_stage4);
    reveal(idct8_stage5);
    let p = ints(x);
    assert forall|i: int| 0 <= i < 8 implies -b <= #[trigger] p[i] <= b by {
        assert(-b <= x[i] <= b);
    }
    let s1 = idct8_stage1(p);
    lemma_btf_scaled(799, s1[4], -4017, s1[7], b, b, 2 * b + 1);
    lemma_btf_scaled(3406, s1[5], -2276, s1[6], b, b, 2 * b + 1);
    lemma_btf_scaled(2276, s1[5], 3406, s1[6], b, b, 2 * b + 1);
    lemma_btf_scaled(4017, s1[4], 799, s1[7], b, b, 2 * b + 1);
    let s2 = idct8_stage2(s1);
    lemma_btf_scaled(2896, s2[0], 2896, s2[1], b, b, 2 * b + 1);
    lemma_btf_scaled(2896, s2[0], -2896, s2[1], b, b, 2 * b + 1);
    lemma_btf_scaled(1567, s2[2], -3784, s2[3], b, b, 2 * b + 1);
    lemma_btf_scaled(3784, s2[2], 1567, s2[3], b, b, 2 * b + 1);
    let s3 = idct8_stage3(s2);
    lemma_btf_scaled(-2896, s3[5], 2896, s3[6], 4 * b + 2, 4 * b + 2, 6 * b + 4);
    lemma_btf_scaled(2896, s3[5], 2896, s3[6], 4 * b + 2, 4 * b + 2, 6 * b + 4);
    let s4 = idct8_stage4(s3);
    let s5 = idct8_stage5(s4);
    assert(spec_idct8(x) == s5);
}


/// A 4x4 block of values of at most 255 passes the forward 4x4 DCT in range; its
/// coefficients are at most 9184.
pub proof fn lemma_fwd4x4_in_range(input: Seq<i32>, stride: nat)
    requires
        forall|r: int, c: int| 0 <= r < 4 && 0 <= c < 4 ==> -255 <= #[trigger] input[r * stride + c] <= 255,
    ensures
        fwd2d_ok(input, stride, FwdTxfm1d::Fdct4, FwdTxfm1d::Fdct4, 4, FWD_SHIFT_4X4),
        forall|k: int| 0 <= k < 16 ==>
            -9184 <= #[trigger] spec_fwd_txfm2d(input, stride, FwdTxfm1d::Fdct4, FwdTxfm1d::Fdct4, 4, FWD_SHIFT_4X4)[k] <= 9184,
{
    reveal(FwdTxfm1d::spec_apply);
    vstd::arithmetic::power2::lemma2_to64();
    let f = FwdTxfm1d::Fdct4;
    let sh = FWD_SHIFT_4X4;
    assert(sh[0] == 2 && sh[1] == 0 && sh[2] == 0);
    assert forall|c: int| 0 <= c < 4 implies bounded(#[trigger] col_input(input, stride, 4, sh, c), 4, 1020) by {
        assert forall|r: int| 0 <= r < 4 implies -1020 <= #[trigger] col_input(input, stride, 4, sh, c)[r] <= 1020 by {
            let v = input[r * stride + c];
            assert(-255 <= v <= 255);
            assert(column(input, stride, 4, c)[r] == v);
            assert(shifted(column(input, stride, 4, c), -sh[0])[r] == spec_shift(v as int, -2));
            assert(spec_shift(v as int, -2) == v * 4);
            assert(col_input(input, stride, 4, sh, c)[r] == (v * 4) as i32);
        }
    }
    assert forall|c: int, r: int| 0 <= c < 4 && 0 <= r < 4 implies
        -3061 <= #[trigger] col_pass(input, stride, f, 4, sh, c)[r] <= 3061 by {
        lemma_fdct4_tight(col_input(input, stride, 4, sh, c), 1020);
    }
    assert forall|r: int| 0 <= r < 4 implies bounded(#[trigger] row_input(input, stride, f, 4, sh, r), 4, 3061) by {
        assert forall|c: int| 0 <= c < 4 implies -3061 <= #[trigger] row_input(input, stride, f, 4, sh, r)[c] <= 3061 by {
            assert(-3061 <= col_pass(input, stride, f, 4, sh, c)[r] <= 3061);
        }
    }
    assert forall|k: int| 0 <= k < 16 implies
        -9184 <= #[trigger] spec_fwd_txfm2d(input, stride, f, f, 4, sh)[k] <= 9184 by {
        let r = k / 4;
        let c = k % 4;
        lemma_fdct4_tight(row_input(input, stride, f, 4, sh, r), 3061);
        assert(-9184 <= spec_fdct4(row_input(input, stride, f, 4, sh, r))[c] <= 9184);
    }
    assert forall|c: int, r: int| 0 <= c < 4 && 0 <= r < 4 implies
        shift_ok(#[trigger] input[r * stride + c] as int, -sh[0]) by {
        assert(-255 <= input[r * stride + c] <= 255);
    }
    assert forall|c: int| 0 <= c < 4 implies
        bounded_int(#[trigger] shifted(column(input, stride, 4, c), -sh[0]), 4, TXFM_INPUT_MAX as int) by {
        assert forall|r: int| 0 <= r < 4 implies
            -TXFM_INPUT_MAX <= #[trigger] shifted(column(input, stride, 4, c), -sh[0])[r] <= TXFM_INPUT_MAX by {
            assert(-255 <= input[r * stride + c] <= 255);
        }
    }
}


/// An 8x8 block of values of at most 255 passes the forward 8x8 DCT in range; its
/// coefficients are at most 25007.
pub proof fn lemma_fwd8x8_in_range(input: Seq<i32>, stride: nat)
    requires
        forall|r: int, c: int| 0 <= r < 8 && 0 <= c < 8 ==> -255 <= #[trigger] input[r * stride + c] <= 255,
    ensures
        fwd2d_ok(input, stride, FwdTxfm1d::Fdct8, FwdTxfm1d::Fdct8, 8, FWD_SHIFT_8X8),
        forall|k: int| 0 <= k < 64 ==>
            -25007 <= #[trigger] spec_fwd_txfm2d(input, stride, FwdTxfm1d::Fdct8, FwdTxfm1d::Fdct8, 8, FWD_SHIFT_8X8)[k] <= 25007,
{
    reveal(FwdTxfm1d::spec_apply);
    vstd::arithmetic::power2::lemma2_to64();
    let f = FwdTxfm1d::Fdct8;
    let sh = FWD_SHIFT_8X8;
    assert(sh[0] == 2 && sh[1] == -1 && sh[2] == 0);
    assert forall|c: int| 0 <= c < 8 implies bounded(#[trigger] col_input(input, stride, 8, sh, c), 8, 1020) by {
        assert forall|r: int| 0 <= r < 8 implies -1020 <= #[trigger] col_input(input, stride, 8, sh, c)[r] <= 1020 by {
            let v = input[r * stride + c];
            assert(-255 <= v <= 255);
            assert(column(input, stride, 8, c)[r] == v);
            assert(shifted(column(input, stride, 8, c), -sh[0])[r] == spec_shift(v as int, -2));
            assert(spec_shift(v as int, -2) == v * 4);
            assert(col_input(input, stride, 8, sh, c)[r] == (v * 4) as i32);
        }
    }
    assert forall|c: int, r: int| 0 <= c < 8 && 0 <= r < 8 implies
        shift_ok(f.spec_apply(col_input(input, stride, 8, sh, c))[r], -sh[1])
        && -3572 <= #[trigger] col_pass(input, stride, f, 8, sh, c)[r] <= 3572 by {
        lemma_fdct8_tight(col_input(input, stride, 8, sh, c), 1020);
        let v = spec_fdct8(col_input(input, stride, 8, sh, c))[r];
        assert(-7143 <= v <= 7143);
        assert(col_pass(input, stride, f, 8, sh, c)[r] == (v + 1) / 2);
    }
    assert forall|c: int, r: int| 0 <= c < 8 && 0 <= r < 8 implies
        shift_ok(#[trigger] f.spec_apply(col_input(input, stride, 8, sh, c))[r], -sh[1]) by {
        assert(-3572 <= col_pass(input, stride, f, 8, sh, c)[r] <= 3572);
    }
    assert forall|r: int| 0 <= r < 8 implies bounded(#[trigger] row_input(input, stride, f, 8, sh, r), 8, 3572) by {
        assert forall|c: int| 0 <= c < 8 implies -3572 <= #[trigger] row_input(input, stride, f, 8, sh, r)[c] <= 3572 by {
            assert(-3572 <= col_pass(input, stride, f, 8, sh, c)[r] <= 3572);
        }
    }
    assert forall|r: int, c: int| 0 <= c < 8 && 0 <= r < 8 implies
        shift_ok(#[trigger] f.spec_apply(row_input(input, stride, f, 8, sh, r))[c], -sh[2]) by {
    }
    assert forall|k: int| 0 <= k < 64 implies
        -25007 <= #[trigger] spec_fwd_txfm2d(input, stride, f, f, 8, sh)[k] <= 25007 by {
        let r = k / 8;
        let c = k % 8;
        lemma_fdct8_tight(row_input(input, stride, f, 8, sh, r), 3572);
        assert(-25007 <= spec_fdct8(row_input(input, stride, f, 8, sh, r))[c] <= 25007);
    }
    assert forall|c: int, r: int| 0 <= c < 8 && 0 <= r < 8 implies
        shift_ok(#[trigger] input[r * stride + c] as int, -sh[0]) by {
        assert(-255 <= input[r * stride + c] <= 255);
    }
    assert forall|c: int| 0 <= c < 8 implies
        bounded_int(#[trigger] shifted(column(input, stride, 8, c), -sh[0]), 8, TXFM_INPUT_MAX as int) by {
        assert forall|r: int| 0 <= r < 8 implies
            -TXFM_INPUT_MAX <= #[trigger] shifted(column(input, stride, 8, c), -sh[0])[r] <= TXFM_INPUT_MAX by {
            assert(-255 <= input[r * stride + c] <= 255);
        }
    }
    assert forall|c: int, r: int| 0 <= c < 8 && 0 <= r < 8 implies
        -TXFM_INPUT_MAX <= #[trigger] col_pass(input, stride, f, 8, sh, c)[r] <= TXFM_INPUT_MAX by {
        assert(-3572 <= col_pass(input, stride, f, 8, sh, c)[r] <= 3572);
    }
}

/// A 4x4 block of dequantized coefficients of at most 9442 passes the inverse 4x4
/// DCT in range; its outputs are at most 9443.
pub proof fn lemma_inv4x4_in_range(input: Seq<i32>, stride: nat)
    requires
        forall|r: int, c: int| 0 <= r < 4 && 0 <= c < 4 ==> -9442 <= #[trigger] input[r * stride + c] <= 9442,
    ensures
        inv2d_ok(input, stride, InvTxfm1d::Idct4, InvTxfm1d::Idct4, 4, INV_SHIFT_4X4),
        forall|r: int, c: int| 0 <= r < 4 && 0 <= c < 4 ==> -9443 <= #[trigger]
            spec_inv_txfm2d(input, stride, InvTxfm1d::Idct4, InvTxfm1d::Idct4, 4, INV_SHIFT_4X4, r, c) <= 9443,
{
    reveal(InvTxfm1d::spec_apply);
    vstd::arithmetic::power2::lemma2_to64();
    let g = InvTxfm1d::Idct4;
    let sh = INV_SHIFT_4X4;
    assert(sh[0] == 0 && sh[1] == -4);
    assert forall|r: int| 0 <= r < 4 implies bounded(#[trigger] block_row(input, stride, 4, r), 4, 9442) by {
        assert forall|c: int| 0 <= c < 4 implies -9442 <= #[trigger] block_row(input, stride, 4, r)[c] <= 9442 by {
            assert(-9442 <= input[r * stride + c] <= 9442);
        }
    }
    assert forall|r: int, c: int| 0 <= r < 4 && 0 <= c < 4 implies
        -37770 <= #[trigger] inv_row_pass(input, stride, g, 4, sh, r)[c] <= 37770 by {
        lemma_idct4_tight(block_row(input, stride, 4, r), 9442);
    }
    assert forall|r: int, c: int| 0 <= r < 4 && 0 <= c < 4 implies
        shift_ok(#[trigger] g.spec_apply(block_row(input, stride, 4, r))[c], -sh[0]) by {
    }
    assert forall|c: int| 0 <= c < 4 implies bounded(#[trigger] inv_col_input(input, stride, g, 4, sh, c), 4, 37770) by {
        assert forall|r: int| 0 <= r < 4 implies -37770 <= #[trigger] inv_col_input(input, stride, g, 4, sh, c)[r] <= 37770 by {
            assert(-37770 <= inv_row_pass(input, stride, g, 4, sh, r)[c] <= 37770);
        }
    }
    assert forall|c: int, r: int| 0 <= c < 4 && 0 <= r < 4 implies
        shift_ok(g.spec_apply(inv_col_input(input, stride, g, 4, sh, c))[r], -sh[1])
        && -9443 <= #[trigger] inv_col_pass(input, stride, g, g, 4, sh, c)[r] <= 9443 by {
        lemma_idct4_tight(inv_col_input(input, stride, g, 4, sh, c), 37770);
        let v = spec_idct4(inv_col_input(input, stride, g, 4, sh, c))[r];
        assert(-151082 <= v <= 151082);
        assert(inv_col_pass(input, stride, g, g, 4, sh, c)[r] == (v + 8) / 16);
    }
    assert forall|c: int, r: int| 0 <= c < 4 && 0 <= r < 4 implies
        shift_ok(#[trigger] g.spec_apply(inv_col_input(input, stride, g, 4, sh, c))[r], -sh[1]) by {
        assert(-9443 <= inv_col_pass(input, stride, g, g, 4, sh, c)[r] <= 9443);
    }
    assert forall|r: int, c: int| 0 <= r < 4 && 0 <= c < 4 implies
        -9443 <= #[trigger] spec_inv_txfm2d(input, stride, g, g, 4, sh, r, c) <= 9443 by {
        assert(-9443 <= inv_col_pass(input, stride, g, g, 4, sh, c)[r] <= 9443);
    }
    assert forall|r: int, c: int| 0 <= r < 4 && 0 <= c < 4 implies
        -INV_TXFM_INPUT_MAX <= #[trigger] input[r * stride + c] <= INV_TXFM_INPUT_MAX by {
        assert(-9442 <= input[r * stride + c] <= 9442);
    }
    assert forall|r: int, c: int| 0 <= r < 4 && 0 <= c < 4 implies
        -INV_TXFM_INPUT_MAX <= #[trigger] inv_row_pass(input, stride, g, 4, sh, r)[c] <= INV_TXFM_INPUT_MAX by {
        assert(-37770 <= inv_row_pass(input, stride, g, 4, sh, r)[c] <= 37770);
    }
}

/// An 8x8 block of dequantized coefficients of at most 25265 passes the inverse 8x8
/// DCT in range; its outputs are at most 78956.
pub proof fn lemma_inv8x8_in_range(input: Seq<i32>, stride: nat)
    requires
        forall|r: int, c: int| 0 <= r < 8 && 0 <= c < 8 ==> -25265 <= #[trigger] input[r * stride + c] <= 25265,
    ensures
        inv2d_ok(input, stride, InvTxfm1d::Idct8, InvTxfm1d::Idct8, 8, INV_SHIFT_8X8),
        forall|r: int, c: int| 0 <= r < 8 && 0 <= c < 8 ==> -78956 <= #[trigger]
            spec_inv_txfm2d(input, stride, InvTxfm1d::Idct8, InvTxfm1d::Idct8, 8, INV_SHIFT_8X8, r, c) <= 78956,
{
    reveal(InvTxfm1d::spec_apply);
    vstd::arithmetic::power2::lemma2_to64();
    let g = InvTxfm1d::Idct8;
    let sh = INV_SHIFT_8X8;
    assert(sh[0] == -1 && sh[1] == -4);
    assert forall|r: int| 0 <= r < 8 implies bounded(#[trigger] block_row(input, stride, 8, r), 8, 25265) by {
        assert forall|c: int| 0 <= c < 8 implies -25265 <= #[trigger] block_row(input, stride, 8, r)[c] <= 25265 by {
            assert(-25265 <= input[r * stride + c] <= 25265);
        }
    }
    assert forall|r: int, c: int| 0 <= r < 8 && 0 <= c < 8 implies
        shift_ok(g.spec_apply(block_row(input, stride, 8, r))[c], -sh[0])
        && -126328 <= #[trigger] inv_row_pass(input, stride, g, 8, sh, r)[c] <= 126328 by {
        lemma_idct8_tight(block_row(input, stride, 8, r), 25265);
        let v = spec_idct8(block_row(input, stride, 8, r))[c];
        assert(-252656 <= v <= 252656);
        assert(inv_row_pass(input, stride, g, 8, sh, r)[c] == (v + 1) / 2);
    }
    assert forall|r: int, c: int| 0 <= r < 8 && 0 <= c < 8 implies
        shift_ok(#[trigger] g.spec_apply(block_row(input, stride, 8, r))[c], -sh[0]) by {
        assert(-126328 <= inv_row_pass(input, stride, g, 8, sh, r)[c] <= 126328);
    }
    assert forall|c: int| 0 <= c < 8 implies bounded(#[trigger] inv_col_input(input, stride, g, 8, sh, c), 8, 126328) by {
        assert forall|r: int| 0 <= r < 8 implies -126328 <= #[trigger] inv_col_input(input, stride, g, 8, sh, c)[r] <= 126328 by {
            assert(-126328 <= inv_row_pass(input, stride, g, 8, sh, r)[c] <= 126328);
        }
    }
    assert forall|c: int, r: int| 0 <= c < 8 && 0 <= r < 8 implies
        shift_ok(g.spec_apply(inv_col_input(input, stride, g, 8, sh, c))[r], -sh[1])
        && -78956 <= #[trigger] inv_col_pass(input, stride, g, g, 8, sh, c)[r] <= 78956 by {
        lemma_idct8_tight(inv_col_input(input, stride, g, 8, sh, c), 126328);
        let v = spec_idct8(inv_col_input(input, stride, g, 8, sh, c))[r];
        assert(-1263286 <= v <= 1263286);
        assert(inv_col_pass(input, stride, g, g, 8, sh, c)[r] == (v + 8) / 16);
    }
    assert forall|c: int, r: int| 0 <= c < 8 && 0 <= r < 8 implies
        shift_ok(#[trigger] g.spec_apply(inv_col_input(input, stride, g, 8, sh, c))[r], -sh[1]) by {
        assert(-78956 <= inv_col_pass(input, stride, g, g, 8, sh, c)[r] <= 78956);
    }
    assert forall|r: int, c: int| 0 <= r < 8 && 0 <= c < 8 implies
        -78956 <= #[trigger] spec_inv_txfm2d(input, stride, g, g, 8, sh, r, c) <= 78956 by {
        assert(-78956 <= inv_col_pass(input, stride, g, g, 8, sh, c)[r] <= 78956);
    }
    assert forall|r: int, c: int| 0 <= r < 8 && 0 <= c < 8 implies
        -INV_TXFM_INPUT_MAX <= #[trigger] input[r * stride + c] <= INV_TXFM_INPUT_MAX by {
        assert(-25265 <= input[r * stride + c] <= 25265);
    }
    assert forall|r: int, c: int| 0 <= r < 8 && 0 <= c < 8 implies
        -INV_TXFM_INPUT_MAX <= #[trigger] inv_row_pass(input, stride, g, 8, sh, r)[c] <= INV_TXFM_INPUT_MAX by {
        assert(-126328 <= inv_row_pass(input, stride, g, 8, sh, r)[c] <= 126328);
    }
}

} // verus!
