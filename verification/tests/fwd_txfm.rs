use svtav1::dsp::fdct_wide::fdct_wide;
use svtav1::dsp::fwd_txfm::{
    fadst4, fadst8, fdct16, fdct4, fdct8, fidentity16, fidentity4, fidentity8, fwd_txfm2d, fwd_txfm2d_16x16_dct_dct,
    fwd_txfm2d_4x4_dct_dct, fwd_txfm2d_8x8_dct_dct, get_fwd_txfm_func, half_btf, round_shift, round_shift_array,
    round_shift_i64, FwdTxfm1d,
};

#[test]
fn fdct4_dc_input() {
    let input = [100i32; 4];
    let mut output = [0i32; 4];
    fdct4(&input, &mut output);
    assert!(output[0].abs() > 0, "DC should be nonzero");
    for i in 1..4 {
        assert!(output[i].abs() <= 1, "AC[{i}] = {}", output[i]);
    }
}

#[test]
fn fdct4_zero() {
    let input = [0i32; 4];
    let mut output = [0i32; 4];
    fdct4(&input, &mut output);
    assert!(output.iter().all(|&v| v == 0));
}

#[test]
fn fdct4_exact_values() {
    let mut output = [0i32; 4];
    fdct4(&[1, 2, 3, 4], &mut output);
    // (2896 * 5 + 2896 * 5 + 2048) >> 12 = 7, and so on.
    assert_eq!(output, [7, -3, 0, 0]);
}

#[test]
fn fdct8_dc_input() {
    let input = [100i32; 8];
    let mut output = [0i32; 8];
    fdct8(&input, &mut output);
    assert!(output[0].abs() > 0, "DC should be nonzero");
    for i in 1..8 {
        assert!(output[i].abs() <= 1, "AC[{i}] = {}", output[i]);
    }
}

#[test]
fn fdct8_zero() {
    let mut output = [0i32; 8];
    fdct8(&[0i32; 8], &mut output);
    assert!(output.iter().all(|&v| v == 0));
}

#[test]
fn fdct8_alternating() {
    let input = [1, -1, 1, -1, 1, -1, 1, -1i32];
    let mut output = [0i32; 8];
    fdct8(&input, &mut output);
    assert_eq!(output[0], 0);
    assert!(output.iter().any(|&v| v != 0));
}

#[test]
fn fdct16_dc_input() {
    let input = [50i32; 16];
    let mut output = [0i32; 16];
    fdct16(&input, &mut output);
    assert!(output[0].abs() > 0, "DC should be nonzero");
    for i in 1..16 {
        assert!(output[i].abs() <= 1, "AC[{i}] = {}", output[i]);
    }
}

#[test]
fn fdct16_zero() {
    let mut output = [0i32; 16];
    fdct16(&[0i32; 16], &mut output);
    assert!(output.iter().all(|&v| v == 0));
}

#[test]
fn fadst4_zero() {
    let mut output = [0i32; 4];
    fadst4(&[0i32; 4], &mut output);
    assert!(output.iter().all(|&v| v == 0));
}

#[test]
fn fadst8_zero() {
    let mut output = [0i32; 8];
    fadst8(&[0i32; 8], &mut output);
    assert!(output.iter().all(|&v| v == 0));
}

#[test]
fn fadst4_unit_impulse() {
    let mut output = [0i32; 4];
    fadst4(&[4096, 0, 0, 0], &mut output);
    // a = 1321 * 4096, b = 3803 * 4096, d = 1321 * 4096, all divided back by 4096.
    assert_eq!(output, [1321, 3803, -1161, 3803]);
}

#[test]
fn fidentity4_ratio() {
    let input = [10i32, 20, 30, 40];
    let mut output = [0i32; 4];
    fidentity4(&input, &mut output);
    for v in &output {
        assert!(*v != 0);
    }
    let ratio = output[1] as f64 / output[0] as f64;
    assert!((ratio - 2.0).abs() < 0.01, "ratio = {ratio}");
}

#[test]
fn fidentity8_scale() {
    let input = [100i32; 8];
    let mut output = [0i32; 8];
    fidentity8(&input, &mut output);
    assert!(output.iter().all(|&v| v == 200));
}

#[test]
fn fidentity16_scale() {
    let mut output = [0i32; 16];
    fidentity16(&[4096i32; 16], &mut output);
    assert!(output.iter().all(|&v| v == 2 * 5793));
}

#[test]
fn fwd_txfm2d_4x4_dc() {
    let input = [100i32; 16];
    let mut output = [0i32; 16];
    fwd_txfm2d_4x4_dct_dct(&input, &mut output, 4);
    assert!(output[0].abs() > 0, "DC should be nonzero");
    for i in 1..16 {
        assert!(output[i].abs() <= 2, "AC[{i}] = {} should be ~0 for DC input", output[i]);
    }
}

#[test]
fn fwd_txfm2d_8x8_dc() {
    let input = [50i32; 64];
    let mut output = [0i32; 64];
    fwd_txfm2d_8x8_dct_dct(&input, &mut output, 8);
    assert!(output[0].abs() > 0, "DC should be nonzero");
    for i in 1..64 {
        assert!(output[i].abs() <= 2, "8x8 AC[{i}] = {} should be ~0 for DC input", output[i]);
    }
}

#[test]
fn fwd_txfm2d_16x16_dc() {
    let input = [30i32; 256];
    let mut output = [0i32; 256];
    fwd_txfm2d_16x16_dct_dct(&input, &mut output, 16);
    assert!(output[0].abs() > 0, "DC should be nonzero");
    for i in 1..256 {
        assert!(output[i].abs() <= 2, "16x16 AC[{i}] = {} should be ~0 for DC input", output[i]);
    }
}

#[test]
fn fwd_txfm2d_4x4_zero() {
    let mut output = [0i32; 16];
    fwd_txfm2d_4x4_dct_dct(&[0i32; 16], &mut output, 4);
    assert!(output.iter().all(|&v| v == 0));
}

#[test]
fn fwd_txfm2d_general_matches_wrapper() {
    let input: Vec<i32> = (0..16).map(|i| i * 7 - 50).collect();
    let mut a = [0i32; 16];
    let mut b = [0i32; 16];
    fwd_txfm2d_4x4_dct_dct(&input, &mut a, 4);
    fwd_txfm2d(&input, &mut b, 4, FwdTxfm1d::Fdct4, FwdTxfm1d::Fdct4, 4, [2, 0, 0]);
    assert_eq!(a, b);
}

#[test]
fn fwd_txfm2d_stride_skips_padding() {
    let mut input = vec![9999i32; 4 * 6];
    for r in 0..4 {
        for c in 0..4 {
            input[r * 6 + c] = 100;
        }
    }
    let mut strided = [0i32; 16];
    fwd_txfm2d_4x4_dct_dct(&input, &mut strided, 6);
    let mut dense = [0i32; 16];
    fwd_txfm2d_4x4_dct_dct(&[100i32; 16], &mut dense, 4);
    assert_eq!(strided, dense);
}

#[test]
fn get_fwd_txfm_func_lookup() {
    assert_eq!(get_fwd_txfm_func(0, 4), Some(FwdTxfm1d::Fdct4));
    assert_eq!(get_fwd_txfm_func(2, 8), Some(FwdTxfm1d::Fadst8));
    assert_eq!(get_fwd_txfm_func(3, 16), Some(FwdTxfm1d::Fidentity16));
    assert_eq!(get_fwd_txfm_func(1, 16), None);
    assert_eq!(get_fwd_txfm_func(0, 32), Some(FwdTxfm1d::Fdct32));
    assert_eq!(get_fwd_txfm_func(0, 64), Some(FwdTxfm1d::Fdct64));
    assert_eq!(get_fwd_txfm_func(0, 128), None);
    assert_eq!(FwdTxfm1d::Fdct16.size(), 16);
}

#[test]
fn half_btf_identity() {
    let result = half_btf(4096, 1000, 0, 0, 12);
    assert_eq!(result, 1000);
}

#[test]
fn round_shift_basic() {
    assert_eq!(round_shift(100, 0), 100);
    assert_eq!(round_shift(100, 1), 50);
    assert_eq!(round_shift(7, 1), 4);
    assert_eq!(round_shift(5, 1), 3);
}

#[test]
fn round_shift_negative_and_i64() {
    assert_eq!(round_shift(-5, 1), -2);
    assert_eq!(round_shift(-6, 2), -1);
    assert_eq!(round_shift_i64(-4097, 12), -1);
    assert_eq!(round_shift_i64(6144, 12), 2);
}

#[test]
fn round_shift_array_both_directions() {
    let mut a = [5i32, -5, 7];
    round_shift_array(&mut a, 1);
    assert_eq!(a, [3, -2, 4]);
    let mut b = [3i32, -2, 0];
    round_shift_array(&mut b, -2);
    assert_eq!(b, [12, -8, 0]);
    let mut c = [1i32, 2];
    round_shift_array(&mut c, 0);
    assert_eq!(c, [1, 2]);
}

#[test]
fn fdct_wide_dc_and_symmetry() {
    // Constant input: DC = 32 * 100 * cos(pi/4), every other output zero.
    let input = vec![100i32; 32];
    let mut out = vec![7i32; 40];
    fdct_wide(&input, &mut out, 32);
    assert_eq!(out[0], 2263);
    assert!(out[1..32].iter().all(|&v| v == 0));
    assert!(out[32..].iter().all(|&v| v == 7));
    // A single impulse: output k is cos((2*0+1) k pi / 128) in Q12 rounded.
    let mut imp = vec![0i32; 64];
    imp[0] = 4096;
    let mut out64 = vec![0i32; 64];
    fdct_wide(&imp, &mut out64, 64);
    assert_eq!(out64[0], 2896);
    assert_eq!(out64[1], 4095);
    assert_eq!(out64[32], 2896);
    assert_eq!(out64[63], 101);
}

#[test]
fn fdct16_input_at_bound() {
    // Constant input 2^24: DC = round(16 * 2^24 * 2896 / 4096), every AC output zero.
    let input = vec![16_777_216i32; 16];
    let mut out = vec![0i32; 16];
    fdct16(&input, &mut out);
    assert_eq!(out[0], 189_792_256);
    assert!(out[1..].iter().all(|&v| v == 0));
}
