use svtav1::dsp::txfm_dispatch::{fwd_txfm2d_dispatch, inv_txfm2d_dispatch};
use svtav1::types::transform::{TxSize, TxType};

#[test]
fn dispatch_fwd_inv_4x4_preserves_relative_values() {
    let input: Vec<i32> = (0..16).map(|i| i * 7 - 50).collect();
    let mut fwd = vec![0i32; 16];
    let mut inv = vec![0i32; 16];
    assert!(fwd_txfm2d_dispatch(&input, &mut fwd, 4, TxSize::Tx4x4, TxType::DctDct));
    assert!(inv_txfm2d_dispatch(&fwd, &mut inv, 4, TxSize::Tx4x4, TxType::DctDct));
    let first_nonzero = input.iter().position(|&x| x != 0).unwrap();
    let scale = inv[first_nonzero] as f64 / input[first_nonzero] as f64;
    assert!(scale.abs() > 1.0, "scale should be > 1: {scale}");
    for i in 0..16 {
        if input[i] != 0 {
            let actual_scale = inv[i] as f64 / input[i] as f64;
            let diff = (actual_scale - scale).abs();
            assert!(diff < 0.5, "inconsistent scale at {i}: {actual_scale} vs {scale}");
        }
    }
}

#[test]
fn dispatch_adst_dct_4x4() {
    let input = vec![50i32; 16];
    let mut output = vec![0i32; 16];
    let ok = fwd_txfm2d_dispatch(&input, &mut output, 4, TxSize::Tx4x4, TxType::AdstDct);
    assert!(ok, "ADST-DCT 4x4 should be supported");
}

#[test]
fn dispatch_identity_4x4() {
    let input: Vec<i32> = (0..16).map(|i| i * 10).collect();
    let mut output = vec![0i32; 16];
    let ok = fwd_txfm2d_dispatch(&input, &mut output, 4, TxSize::Tx4x4, TxType::Idtx);
    assert!(ok, "IDTX 4x4 should be supported");
}

#[test]
fn dispatch_all_16_tx_types_4x4() {
    let input = vec![50i32; 16];
    for tx_type in [
        TxType::DctDct,
        TxType::AdstDct,
        TxType::DctAdst,
        TxType::AdstAdst,
        TxType::FlipAdstDct,
        TxType::DctFlipAdst,
        TxType::FlipAdstFlipAdst,
        TxType::AdstFlipAdst,
        TxType::FlipAdstAdst,
        TxType::Idtx,
        TxType::VDct,
        TxType::HDct,
        TxType::VAdst,
        TxType::HAdst,
        TxType::VFlipAdst,
        TxType::HFlipAdst,
    ] {
        let mut output = vec![0i32; 16];
        let ok = fwd_txfm2d_dispatch(&input, &mut output, 4, TxSize::Tx4x4, tx_type);
        assert!(ok, "{tx_type:?} 4x4 should be supported");
    }
}

#[test]
fn dispatch_dct_dct_all_square_sizes() {
    for (tx_size, n) in [
        (TxSize::Tx4x4, 4usize),
        (TxSize::Tx8x8, 8),
        (TxSize::Tx16x16, 16),
        (TxSize::Tx32x32, 32),
        (TxSize::Tx64x64, 64),
    ] {
        let input = vec![100i32; n * n];
        let mut fwd_output = vec![0i32; n * n];
        let ok = fwd_txfm2d_dispatch(&input, &mut fwd_output, n, tx_size, TxType::DctDct);
        assert!(ok, "fwd dispatch failed for {tx_size:?}");
        assert!(fwd_output[0].abs() > 0, "{tx_size:?} DC should be nonzero");
        for i in 1..n * n {
            assert!(fwd_output[i].abs() <= 2, "{tx_size:?} AC[{i}]={} should be ~0", fwd_output[i]);
        }
    }
}

#[test]
fn dispatch_fwd_32x32_dc_value() {
    // 100 << 2 over 32 rows at cos(pi/4), >> 4, then over 32 columns at cos(pi/4).
    let input = vec![100i32; 32 * 32];
    let mut out = vec![0i32; 32 * 32];
    assert!(fwd_txfm2d_dispatch(&input, &mut out, 32, TxSize::Tx32x32, TxType::DctDct));
    assert_eq!(out[0], 12806);
}

#[test]
fn dispatch_unsupported_leaves_output() {
    // No 16-point forward ADST, and no inverse flipped ADST.
    let input = vec![1i32; 16 * 16];
    let mut output = vec![9i32; 16 * 16];
    assert!(!fwd_txfm2d_dispatch(&input, &mut output, 16, TxSize::Tx16x16, TxType::AdstDct));
    assert!(output.iter().all(|&v| v == 9));
    let mut out4 = vec![9i32; 16];
    assert!(!inv_txfm2d_dispatch(&input[..16], &mut out4, 4, TxSize::Tx4x4, TxType::FlipAdstDct));
    assert!(out4.iter().all(|&v| v == 9));
}

#[test]
fn dispatch_inverse_32x32_dc() {
    let mut coeffs = vec![0i32; 32 * 32];
    coeffs[0] = 1024;
    let mut out = vec![0i32; 32 * 32];
    assert!(inv_txfm2d_dispatch(&coeffs, &mut out, 32, TxSize::Tx32x32, TxType::DctDct));
    assert!(out[0] != 0);
    assert!(out.iter().all(|&v| v == out[0]));
}

#[test]
fn dispatch_rect_4x8() {
    let input = vec![100i32; 32];
    let mut output = vec![0i32; 32];
    let ok = fwd_txfm2d_dispatch(&input, &mut output, 4, TxSize::Tx4x8, TxType::DctDct);
    assert!(ok, "DCT-DCT 4x8 should be supported");
}

#[test]
fn dispatch_rect_flat_blocks_have_only_dc() {
    for (tx_size, w, h) in [
        (TxSize::Tx4x8, 4usize, 8usize),
        (TxSize::Tx8x4, 8, 4),
        (TxSize::Tx16x8, 16, 8),
        (TxSize::Tx4x16, 4, 16),
        (TxSize::Tx32x64, 32, 64),
    ] {
        let input = vec![100i32; w * h];
        let mut output = vec![5i32; w * h + 3];
        assert!(fwd_txfm2d_dispatch(&input, &mut output, w, tx_size, TxType::DctDct));
        assert!(output[0] > 0, "{tx_size:?} DC should be positive");
        for i in 1..w * h {
            assert!(output[i].abs() <= 2, "{tx_size:?} AC[{i}]={}", output[i]);
        }
        assert_eq!(&output[w * h..], &[5, 5, 5]);
    }
}

#[test]
fn dispatch_inverse_rect_dc_is_flat() {
    for (tx_size, w, h) in [(TxSize::Tx4x8, 4usize, 8usize), (TxSize::Tx16x8, 16, 8), (TxSize::Tx8x32, 8, 32)] {
        let stride = w + 2;
        let mut coeffs = vec![0i32; stride * h];
        coeffs[0] = 1024;
        let mut out = vec![-7i32; stride * h];
        assert!(inv_txfm2d_dispatch(&coeffs, &mut out, stride, tx_size, TxType::DctDct));
        let dc = out[0];
        assert!(dc != 0, "{tx_size:?}");
        for r in 0..h {
            assert!(out[r * stride..r * stride + w].iter().all(|&v| v == dc), "{tx_size:?}");
            assert_eq!(&out[r * stride + w..r * stride + stride], &[-7, -7]);
        }
    }
}
