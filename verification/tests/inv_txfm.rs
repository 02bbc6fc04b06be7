use svtav1::dsp::fwd_txfm::{
    fdct4, fdct8, fidentity4, fidentity8, fwd_txfm2d_4x4_dct_dct, fwd_txfm2d_8x8_dct_dct, round_shift, SINPI,
};
use svtav1::dsp::inv_txfm::{
    get_inv_txfm_func, iadst16, iadst4, iadst8, idct16, idct32, idct4, idct8, iidentity16, iidentity32, iidentity4,
    iidentity8, inv_txfm2d, inv_txfm2d_16x16_dct_dct, inv_txfm2d_4x4_dct_dct, inv_txfm2d_8x8_dct_dct, InvTxfm1d,
};

#[test]
fn idct4_zero() {
    let mut output = [0i32; 4];
    idct4(&[0i32; 4], &mut output);
    assert!(output.iter().all(|&v| v == 0));
}

#[test]
fn fdct4_idct4_roundtrip() {
    let input = [10i32, -20, 30, -40];
    let mut fwd = [0i32; 4];
    let mut inv = [0i32; 4];
    fdct4(&input, &mut fwd);
    idct4(&fwd, &mut inv);
    for i in 0..4 {
        assert!((input[i] * 2 - inv[i]).abs() <= 1, "mismatch at [{}]: expected {}, got {}", i, input[i] * 2, inv[i]);
    }
}

#[test]
fn fdct4_idct4_dc_roundtrip() {
    let input = [100i32; 4];
    let mut fwd = [0i32; 4];
    let mut inv = [0i32; 4];
    fdct4(&input, &mut fwd);
    idct4(&fwd, &mut inv);
    for i in 0..4 {
        assert!((input[i] * 2 - inv[i]).abs() <= 1, "mismatch at [{}]: expected {}, got {}", i, input[i] * 2, inv[i]);
    }
}

#[test]
fn idct8_zero() {
    let mut output = [0i32; 8];
    idct8(&[0i32; 8], &mut output);
    assert!(output.iter().all(|&v| v == 0));
}

#[test]
fn fdct8_idct8_roundtrip() {
    let input = [10, -20, 30, -40, 50, -60, 70, -80i32];
    let mut fwd = [0i32; 8];
    let mut inv = [0i32; 8];
    fdct8(&input, &mut fwd);
    idct8(&fwd, &mut inv);
    for i in 0..8 {
        assert!((input[i] * 4 - inv[i]).abs() <= 2, "mismatch at [{}]: expected {}, got {}", i, input[i] * 4, inv[i]);
    }
}

#[test]
fn fdct8_idct8_dc_roundtrip() {
    let input = [50i32; 8];
    let mut fwd = [0i32; 8];
    let mut inv = [0i32; 8];
    fdct8(&input, &mut fwd);
    idct8(&fwd, &mut inv);
    for i in 0..8 {
        assert!((input[i] * 4 - inv[i]).abs() <= 1, "mismatch at [{}]: expected {}, got {}", i, input[i] * 4, inv[i]);
    }
}

/// Forward 4-point ADST in the form that pairs with `iadst4`.
fn c_fadst4(input: &[i32; 4], output: &mut [i32; 4]) {
    let sinpi = &SINPI;
    let bit = 12;
    let (x0, x1, x2, x3) = (input[0], input[1], input[2], input[3]);
    if (x0 | x1 | x2 | x3) == 0 {
        *output = [0; 4];
        return;
    }
    let s0 = sinpi[1] * x0;
    let s1 = sinpi[4] * x0;
    let s2 = sinpi[2] * x1;
    let s3 = sinpi[1] * x1;
    let s4 = sinpi[3] * x2;
    let s5 = sinpi[4] * x3;
    let s6 = sinpi[2] * x3;
    let s7 = x0 + x1;
    let s7 = s7 - x3;
    let x0 = s0 + s2;
    let x1 = sinpi[3] * s7;
    let x2 = s1 - s3;
    let x3 = s4;
    let x0 = x0 + s5;
    let x2 = x2 + s6;
    let s0 = x0 + x3;
    let s1 = x1;
    let s2 = x2 - x3;
    let s3 = x2 - x0 + x3;
    output[0] = round_shift(s0, bit);
    output[1] = round_shift(s1, bit);
    output[2] = round_shift(s2, bit);
    output[3] = round_shift(s3, bit);
}

#[test]
fn iadst4_zero() {
    let mut output = [0i32; 4];
    iadst4(&[0i32; 4], &mut output);
    assert!(output.iter().all(|&v| v == 0));
}

#[test]
fn c_fadst4_iadst4_roundtrip() {
    let input = [15i32, -25, 35, -45];
    let mut fwd = [0i32; 4];
    let mut inv = [0i32; 4];
    c_fadst4(&input, &mut fwd);
    iadst4(&fwd, &mut inv);
    for i in 0..4 {
        assert!((input[i] * 2 - inv[i]).abs() <= 1, "mismatch at [{}]: expected {}, got {}", i, input[i] * 2, inv[i]);
    }
}

#[test]
fn iadst4_nonzero_input() {
    let input = [100, 50, -30, 20i32];
    let mut output = [0i32; 4];
    iadst4(&input, &mut output);
    assert!(output.iter().any(|&v| v != 0), "iadst4 should produce nonzero output");
}

#[test]
fn iadst4_exact_values() {
    // s0 = 1321 + 3*2482 = 8767, s3 = 0, s1 = 2482 - 3*3803 = -8927, s2 = 3344 * 4.
    let mut output = [0i32; 4];
    iadst4(&[1, 0, 0, 3], &mut output);
    assert_eq!(output, [(8767 + 2048) >> 12, (-8927 + 2048) >> 12, (13376 + 2048) >> 12, (8767 - 8927 + 2048) >> 12]);
}

#[test]
fn iidentity4_zero() {
    let mut output = [0i32; 4];
    iidentity4(&[0i32; 4], &mut output);
    assert!(output.iter().all(|&v| v == 0));
}

#[test]
fn iidentity8_zero() {
    let mut output = [0i32; 8];
    iidentity8(&[0i32; 8], &mut output);
    assert!(output.iter().all(|&v| v == 0));
}

#[test]
fn fidentity4_iidentity4_roundtrip() {
    let input = [10i32, 20, 30, 40];
    let mut fwd = [0i32; 4];
    let mut inv = [0i32; 4];
    fidentity4(&input, &mut fwd);
    iidentity4(&fwd, &mut inv);
    for i in 0..4 {
        assert!((input[i] * 2 - inv[i]).abs() <= 1, "mismatch at [{}]: expected {}, got {}", i, input[i] * 2, inv[i]);
    }
}

#[test]
fn fidentity8_iidentity8_roundtrip() {
    let input = [10i32, 20, 30, 40, 50, 60, 70, 80];
    let mut fwd = [0i32; 8];
    let mut inv = [0i32; 8];
    fidentity8(&input, &mut fwd);
    iidentity8(&fwd, &mut inv);
    for i in 0..8 {
        assert_eq!(input[i] * 4, inv[i], "identity8 scaling mismatch at [{}]", i);
    }
}

#[test]
fn iidentity16_and_32_scaling() {
    let input: Vec<i32> = (0..32).map(|i| i * 3 - 40).collect();
    let mut out16 = [0i32; 16];
    iidentity16(&input, &mut out16);
    for i in 0..16 {
        assert_eq!(out16[i], ((input[i] as i64 * 2 * 5793 + 2048) >> 12) as i32);
    }
    let mut out32 = [0i32; 32];
    iidentity32(&input, &mut out32);
    for i in 0..32 {
        assert_eq!(out32[i], input[i] * 4);
    }
}

#[test]
fn larger_inverse_transforms_zero_and_dc() {
    let mut out = [7i32; 32];
    idct32(&[0i32; 32], &mut out);
    assert!(out.iter().all(|&v| v == 0));
    let mut out16 = [7i32; 16];
    idct16(&[0i32; 16], &mut out16);
    assert!(out16.iter().all(|&v| v == 0));
    iadst16(&[0i32; 16], &mut out16);
    assert!(out16.iter().all(|&v| v == 0));
    let mut out8 = [7i32; 8];
    iadst8(&[0i32; 8], &mut out8);
    assert!(out8.iter().all(|&v| v == 0));
    // A DC coefficient spreads evenly over all outputs.
    let mut dc = [0i32; 16];
    dc[0] = 1000;
    idct16(&dc, &mut out16);
    assert!(out16.iter().all(|&v| v == out16[0]));
    assert!(out16[0] != 0);
}

#[test]
fn inverse_func_selection() {
    assert_eq!(get_inv_txfm_func(0, 4), Some(InvTxfm1d::Idct4));
    assert_eq!(get_inv_txfm_func(0, 32), Some(InvTxfm1d::Idct32));
    assert_eq!(get_inv_txfm_func(1, 16), Some(InvTxfm1d::Iadst16));
    assert_eq!(get_inv_txfm_func(3, 32), Some(InvTxfm1d::Iidentity32));
    assert_eq!(get_inv_txfm_func(2, 4), None);
    assert_eq!(get_inv_txfm_func(1, 32), None);
    assert_eq!(get_inv_txfm_func(0, 64), None);
}

#[test]
fn fwd_inv_txfm2d_4x4_roundtrip() {
    let input = [100i32; 16];
    let mut fwd = [0i32; 16];
    let mut inv = [0i32; 16];
    fwd_txfm2d_4x4_dct_dct(&input, &mut fwd, 4);
    inv_txfm2d_4x4_dct_dct(&fwd, &mut inv, 4);
    assert!(inv[0] != 0, "output should be nonzero");
    let first = inv[0];
    for i in 1..16 {
        assert!((inv[i] - first).abs() <= 1, "[{}]={} vs [0]={}", i, inv[i], first);
    }
}

#[test]
fn fwd_inv_txfm2d_4x4_zero() {
    let mut fwd = [0i32; 16];
    let mut inv = [0i32; 16];
    fwd_txfm2d_4x4_dct_dct(&[0i32; 16], &mut fwd, 4);
    inv_txfm2d_4x4_dct_dct(&fwd, &mut inv, 4);
    assert!(inv.iter().all(|&v| v == 0));
}

#[test]
fn fwd_inv_txfm2d_8x8_zero() {
    let mut fwd = [0i32; 64];
    let mut inv = [0i32; 64];
    fwd_txfm2d_8x8_dct_dct(&[0i32; 64], &mut fwd, 8);
    inv_txfm2d_8x8_dct_dct(&fwd, &mut inv, 8);
    assert!(inv.iter().all(|&v| v == 0));
}

#[test]
fn fwd_inv_txfm2d_8x8_roundtrip() {
    let input = [50i32; 64];
    let mut fwd = [0i32; 64];
    let mut inv = [0i32; 64];
    fwd_txfm2d_8x8_dct_dct(&input, &mut fwd, 8);
    inv_txfm2d_8x8_dct_dct(&fwd, &mut inv, 8);
    assert!(inv[0] != 0, "output should be nonzero");
    let first = inv[0];
    for i in 1..64 {
        assert!((inv[i] - first).abs() <= 1, "[{}]={} vs [0]={}", i, inv[i], first);
    }
}

#[test]
fn inv_txfm2d_16x16_dc_uniform() {
    let mut coeffs = [0i32; 256];
    coeffs[0] = 4000;
    let mut out = [0i32; 256];
    inv_txfm2d_16x16_dct_dct(&coeffs, &mut out, 16);
    assert!(out[0] != 0);
    assert!(out.iter().all(|&v| v == out[0]));
}

#[test]
fn inv_txfm2d_leaves_rest_of_output() {
    // Stride 6: a 4x4 block inside rows of 6 entries; the two extra columns stay.
    let mut coeffs = [0i32; 24];
    coeffs[0] = 64;
    let mut out = [-1i32; 24];
    inv_txfm2d(&coeffs, &mut out, 6, InvTxfm1d::Idct4, InvTxfm1d::Idct4, 4, [0, -4]);
    for r in 0..4 {
        assert_eq!(out[r * 6 + 4], -1);
        assert_eq!(out[r * 6 + 5], -1);
        for c in 0..4 {
            assert_eq!(out[r * 6 + c], out[0]);
        }
    }
}

#[test]
fn inv_txfm2d_4x4_dct_dct_all_dispatch_levels() {
    let fwd_input: [i32; 16] = [10, -20, 30, -40, 50, -60, 70, -80, 15, -25, 35, -45, 55, -65, 75, -85];
    let mut coeffs = [0i32; 16];
    fwd_txfm2d_4x4_dct_dct(&fwd_input, &mut coeffs, 4);
    let mut reference = [0i32; 16];
    inv_txfm2d_4x4_dct_dct(&coeffs, &mut reference, 4);
    let mut result = [0i32; 16];
    inv_txfm2d_4x4_dct_dct(&coeffs, &mut result, 4);
    assert_eq!(result, reference, "4x4 inverse DCT is not deterministic");
}

#[test]
fn inv_txfm2d_8x8_dct_dct_all_dispatch_levels() {
    let mut fwd_input = [0i32; 64];
    for (i, v) in fwd_input.iter_mut().enumerate() {
        *v = (i as i32 * 7 - 30) % 100;
    }
    let mut coeffs = [0i32; 64];
    fwd_txfm2d_8x8_dct_dct(&fwd_input, &mut coeffs, 8);
    let mut reference = [0i32; 64];
    inv_txfm2d_8x8_dct_dct(&coeffs, &mut reference, 8);
    let mut result = [0i32; 64];
    inv_txfm2d_8x8_dct_dct(&coeffs, &mut result, 8);
    assert_eq!(result, reference, "8x8 inverse DCT is not deterministic");
}

#[test]
fn idct32_large_dc_stays_exact() {
    // An input well beyond 2^17: the DC spreads as round(x * 2896 / 4096) to every output.
    let mut input = vec![0i32; 32];
    input[0] = 4_000_000;
    let mut out = vec![0i32; 32];
    idct32(&input, &mut out);
    assert!(out.iter().all(|&v| v == 2_828_125));
    let mut neg = vec![0i32; 32];
    neg[0] = -8_388_607;
    let mut out2 = vec![0i32; 32];
    idct32(&neg, &mut out2);
    assert!(out2.iter().all(|&v| v == out2[0] && v < 0));
}
