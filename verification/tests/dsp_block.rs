use svtav1::dsp::copy::{block_average, block_blend, block_copy};
use svtav1::dsp::intra_pred::{
    predict_dc, predict_h, predict_paeth, predict_smooth, predict_smooth_h, predict_smooth_v, predict_v,
};

#[test]
fn copy_basic() {
    let src = [1u8, 2, 3, 4, 5, 6, 7, 8, 9];
    let mut dst = [0u8; 9];
    block_copy(&mut dst, 3, &src, 3, 3, 3);
    assert_eq!(dst, src);
}

#[test]
fn copy_with_stride() {
    let src = [1u8, 2, 0, 0, 3, 4, 0, 0, 5, 6, 0, 0];
    let mut dst = [0u8; 12];
    block_copy(&mut dst, 4, &src, 4, 2, 3);
    assert_eq!(&dst[..2], &[1, 2]);
    assert_eq!(&dst[4..6], &[3, 4]);
    assert_eq!(&dst[8..10], &[5, 6]);
}

#[test]
fn average_basic() {
    let a = [100u8; 16];
    let b = [200u8; 16];
    let mut dst = [0u8; 16];
    block_average(&mut dst, 4, &a, 4, &b, 4, 4, 4);
    assert!(dst.iter().all(|&v| v == 150));
}

#[test]
fn blend_uniform_mask() {
    let a = [100u8; 4];
    let b = [200u8; 4];
    let mask = [32u8; 4];
    let mut dst = [0u8; 4];
    block_blend(&mut dst, 2, &a, 2, &b, 2, &mask, 2, 2, 2);
    assert!(dst.iter().all(|&v| v == 150));
}

#[test]
fn blend_full_mask() {
    let a = [100u8; 4];
    let b = [200u8; 4];
    let mask_a = [64u8; 4];
    let mask_b = [0u8; 4];
    let mut dst_a = [0u8; 4];
    let mut dst_b = [0u8; 4];
    block_blend(&mut dst_a, 2, &a, 2, &b, 2, &mask_a, 2, 2, 2);
    block_blend(&mut dst_b, 2, &a, 2, &b, 2, &mask_b, 2, 2, 2);
    assert!(dst_a.iter().all(|&v| v == 100));
    assert!(dst_b.iter().all(|&v| v == 200));
}

#[test]
fn dc_uniform_neighbors() {
    let above = [100u8; 4];
    let left = [100u8; 4];
    let mut dst = [0u8; 16];
    predict_dc(&mut dst, 4, &above, &left, 4, 4, true, true);
    assert!(dst.iter().all(|&v| v == 100));
}

#[test]
fn dc_above_only() {
    let above = [200u8; 8];
    let left = [0u8; 8];
    let mut dst = [0u8; 64];
    predict_dc(&mut dst, 8, &above, &left, 8, 8, true, false);
    assert!(dst.iter().all(|&v| v == 200));
}

#[test]
fn dc_no_neighbors() {
    let mut dst = [0u8; 16];
    predict_dc(&mut dst, 4, &[], &[], 4, 4, false, false);
    assert!(dst.iter().all(|&v| v == 128));
}

#[test]
fn v_pred_copies_above() {
    let above = [10u8, 20, 30, 40];
    let mut dst = [0u8; 16];
    predict_v(&mut dst, 4, &above, 4, 4);
    for row in 0..4 {
        assert_eq!(&dst[row * 4..row * 4 + 4], &above);
    }
}

#[test]
fn h_pred_copies_left() {
    let left = [10u8, 20, 30, 40];
    let mut dst = [0u8; 16];
    predict_h(&mut dst, 4, &left, 4, 4);
    for row in 0..4 {
        assert!(dst[row * 4..row * 4 + 4].iter().all(|&v| v == left[row]));
    }
}

#[test]
fn paeth_uniform() {
    let above = [128u8; 4];
    let left = [128u8; 4];
    let mut dst = [0u8; 16];
    predict_paeth(&mut dst, 4, &above, &left, 128, 4, 4);
    assert!(dst.iter().all(|&v| v == 128));
}

#[test]
fn paeth_horizontal_gradient() {
    let above = [10u8, 20, 30, 40];
    let left = [0u8; 4];
    let mut dst = [0u8; 16];
    predict_paeth(&mut dst, 4, &above, &left, 0, 4, 4);
    for row in 0..4 {
        for col in 0..4 {
            assert_eq!(dst[row * 4 + col], above[col]);
        }
    }
}

#[test]
fn smooth_corners() {
    let above = [200u8; 4];
    let left = [200u8; 4];
    let mut dst = [0u8; 16];
    predict_smooth(&mut dst, 4, &above, &left, 4, 4);
    for &v in &dst {
        assert!((v as i32 - 200).abs() <= 1, "expected ~200, got {v}");
    }
}

#[test]
fn smooth_v_interpolates() {
    let above = [255u8; 4];
    let left = [255, 255, 255, 0];
    let mut dst = [0u8; 16];
    predict_smooth_v(&mut dst, 4, &above, &left, 0, 4, 4);
    assert!(dst[0] > 200);
    assert!(dst[12] < dst[0]);
}

#[test]
fn smooth_h_interpolates() {
    let above = [255, 255, 255, 0];
    let left = [255u8; 4];
    let mut dst = [0u8; 16];
    predict_smooth_h(&mut dst, 4, &above, &left, 4, 4);
    assert!(dst[0] > 200);
    assert!(dst[3] < dst[0]);
}

#[test]
fn dc_overlapping_rows_fill_with_dc() {
    // Rows of 4 written with stride 2 overlap; every written cell still holds the DC.
    let above = [60u8; 4];
    let left = [20u8; 4];
    let mut dst = [7u8; 12];
    predict_dc(&mut dst, 2, &above, &left, 4, 4, true, true);
    assert!(dst[..10].iter().all(|&v| v == 40));
    assert_eq!(&dst[10..], &[7, 7]);
}

#[test]
fn copy_overlapping_rows_later_row_wins() {
    let src = [1u8, 2, 3, 4, 5, 6, 7, 8];
    let mut dst = [0u8; 7];
    block_copy(&mut dst, 2, &src, 4, 4, 2);
    assert_eq!(dst, [1, 2, 5, 6, 7, 8, 0]);
}

#[test]
fn paeth_overlapping_rows_later_row_wins() {
    let above = [10u8, 20, 30, 40];
    let left = [0u8; 2];
    let mut dst = [99u8; 8];
    predict_paeth(&mut dst, 2, &above, &left, 0, 4, 2);
    // Row 1 (starting at 2) overwrites the second half of row 0.
    assert_eq!(dst, [10, 20, 10, 20, 30, 40, 99, 99]);
}
