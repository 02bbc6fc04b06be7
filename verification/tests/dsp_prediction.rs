use svtav1::dsp::bench::{generate_test_image, generate_test_image_pair};
use svtav1::dsp::intrabc::{hash_search_intrabc, is_valid_intrabc_mv, predict_intrabc};
use svtav1::dsp::obmc::{obmc_blend_above, obmc_blend_left, obmc_mask};
use svtav1::dsp::scale::{scaled_prediction, ScaleFactors};
use svtav1::dsp::superres::{superres_upscale, superres_upscale_row};
use svtav1::dsp::warp::{count_warp_samples, warp_prediction};
use svtav1::types::motion::{Mv, WarpedMotionParams};

#[test]
fn obmc_blend_above_basic() {
    let mut dst = [100u8; 16];
    let above = [200u8; 16];
    obmc_blend_above(&mut dst, 4, &above, 4, 4, 4, 2);
    assert!(dst[0] > 150, "row 0 should be blended toward above: {}", dst[0]);
    assert_eq!(dst[8], 100, "row 2 should be unchanged");
}

#[test]
fn obmc_blend_left_basic() {
    let mut dst = [100u8; 16];
    let left = [200u8; 16];
    obmc_blend_left(&mut dst, 4, &left, 4, 4, 4, 2);
    assert!(dst[0] > 150);
    assert_eq!(dst[2], 100);
}

#[test]
fn obmc_mask_sizes() {
    assert_eq!(obmc_mask(2).len(), 2);
    assert_eq!(obmc_mask(4).len(), 4);
    assert_eq!(obmc_mask(8).len(), 8);
    assert_eq!(obmc_mask(16).len(), 16);
    assert_eq!(obmc_mask(32).len(), 32);
}

#[test]
fn obmc_blend_exact_weights() {
    // (100 * 19 + 200 * 45 + 32) >> 6 = 170 on the edge row, (100 * 45 + 200 * 19 + 32) >> 6 = 130 next.
    let mut dst = [100u8; 16];
    let above = [200u8; 16];
    obmc_blend_above(&mut dst, 4, &above, 4, 4, 4, 2);
    assert_eq!(&dst[0..4], &[170, 170, 170, 170]);
    assert_eq!(&dst[4..8], &[130, 130, 130, 130]);
    assert_eq!(&dst[12..16], &[100, 100, 100, 100]);
}

#[test]
fn upscale_identity() {
    let src = [100u8, 150, 200, 128];
    let mut dst = [0u8; 4];
    superres_upscale_row(&src, 4, &mut dst, 4);
    for i in 0..4 {
        assert!(
            (dst[i] as i32 - src[i] as i32).abs() <= 2,
            "identity upscale at {i}: src={} dst={}",
            src[i],
            dst[i]
        );
    }
}

#[test]
fn upscale_identity_is_exact() {
    let src = [100u8, 150, 200, 128];
    let mut dst = [0u8; 4];
    superres_upscale_row(&src, 4, &mut dst, 4);
    assert_eq!(dst, src);
}

#[test]
fn upscale_2x() {
    let src = [0u8, 255, 0, 255];
    let mut dst = [0u8; 8];
    superres_upscale_row(&src, 4, &mut dst, 8);
    assert!(dst[0] < 50);
    assert!(dst[7] > 200);
}

#[test]
fn upscale_exact_values() {
    let src = [0u8, 255, 0, 255];
    let mut dst = [0u8; 8];
    superres_upscale_row(&src, 4, &mut dst, 8);
    assert_eq!(dst, [0, 62, 255, 225, 0, 28, 255, 255]);
    let src = [10u8, 20, 30, 40, 50, 60];
    let mut dst = [0u8; 9];
    superres_upscale_row(&src, 6, &mut dst, 9);
    assert_eq!(dst, [10, 12, 21, 25, 33, 41, 45, 53, 61]);
}

#[test]
fn upscale_zero_width_writes_nothing() {
    let src = [10u8, 20];
    let mut dst = [7u8; 4];
    superres_upscale_row(&src, 0, &mut dst, 4);
    assert_eq!(dst, [7, 7, 7, 7]);
    superres_upscale_row(&src, 2, &mut dst, 0);
    assert_eq!(dst, [7, 7, 7, 7]);
}

#[test]
fn upscale_full_frame() {
    let src = vec![128u8; 4 * 4];
    let mut dst = vec![0u8; 8 * 4];
    superres_upscale(&src, 4, 4, &mut dst, 8, 8, 4);
    for &v in &dst {
        assert!((v as i32 - 128).abs() <= 1, "uniform upscale should produce ~128: {v}");
    }
}

#[test]
fn upscale_frame_rows_and_padding() {
    let src = [0u8, 255, 0, 255, 10, 20, 30, 40];
    let mut dst = [9u8; 20];
    superres_upscale(&src, 4, 4, &mut dst, 10, 8, 2);
    assert_eq!(&dst[0..8], &[0, 62, 255, 225, 0, 28, 255, 255]);
    assert_eq!(&dst[8..10], &[9, 9]);
    assert_eq!(&dst[18..20], &[9, 9]);
}

#[test]
fn generate_test_image_deterministic() {
    let a = generate_test_image(16, 16, 42);
    let b = generate_test_image(16, 16, 42);
    assert_eq!(a, b);
}

#[test]
fn generate_test_image_different_seeds() {
    let a = generate_test_image(16, 16, 42);
    let b = generate_test_image(16, 16, 99);
    assert_ne!(a, b);
}

#[test]
fn generate_test_image_pair_offset() {
    let (src, ref_img) = generate_test_image_pair(64, 64, 4, 4);
    assert_eq!(src.len(), 64 * 64);
    assert_eq!(ref_img.len(), 64 * 64);
    assert_ne!(src, ref_img);
}

#[test]
fn valid_intrabc_mv() {
    let mv = Mv { x: 0, y: -64 };
    assert!(is_valid_intrabc_mv(mv, 32, 64, 8, 8, 128, 128, 1));
}

#[test]
fn invalid_intrabc_overlap() {
    let mv = Mv::zero();
    assert!(!is_valid_intrabc_mv(mv, 32, 32, 8, 8, 128, 128, 0));
}

#[test]
fn invalid_intrabc_out_of_bounds() {
    let mv = Mv { x: -400, y: -400 };
    assert!(!is_valid_intrabc_mv(mv, 32, 32, 8, 8, 128, 128, 0));
}

#[test]
fn invalid_intrabc_below_superblock_row() {
    // Source rows 64..72 reach below superblock row 0 (which ends at 64).
    let mv = Mv { x: -128, y: 256 };
    assert!(!is_valid_intrabc_mv(mv, 32, 32, 8, 8, 128, 128, 0));
    assert!(is_valid_intrabc_mv(mv, 32, 32, 8, 8, 128, 128, 1));
}

#[test]
fn predict_intrabc_copies() {
    let mut recon = vec![0u8; 16 * 16];
    for r in 0..4 {
        for c in 0..4 {
            recon[r * 16 + c] = ((r * 4 + c) * 10) as u8;
        }
    }
    let mut dst = [0u8; 16];
    let mv = Mv { x: -64, y: -64 };
    predict_intrabc(&recon, 16, &mut dst, 4, 8, 8, mv, 4, 4);
    assert_eq!(dst[0], recon[0]);
    assert_eq!(dst[5], recon[16 + 1]);
}

#[test]
fn hash_search_finds_first_match() {
    let src = vec![10u8; 8 * 8];
    let mut recon = vec![0u8; 32 * 32];
    for r in 0..8 {
        for c in 8..16 {
            recon[r * 32 + c] = 10;
        }
    }
    let mv = hash_search_intrabc(&src, 8, &recon, 32, 16, 16, 8, 8, 32, 32);
    assert_eq!(mv, Some(Mv { x: -64, y: -128 }));
}

#[test]
fn hash_search_without_match_is_none() {
    let src = vec![10u8; 8 * 8];
    let recon = vec![0u8; 32 * 32];
    assert_eq!(hash_search_intrabc(&src, 8, &recon, 32, 16, 16, 8, 8, 32, 32), None);
    // Nothing above the block: no candidate rows.
    let recon = vec![10u8; 32 * 32];
    assert_eq!(hash_search_intrabc(&src, 8, &recon, 32, 16, 0, 8, 8, 32, 32), None);
}

#[test]
fn scale_factors_1to1() {
    let sf = ScaleFactors::new(1920, 1080, 1920, 1080);
    assert!(!sf.is_scaled());
    assert_eq!(sf.x_scale, 1 << 14);
}

#[test]
fn scale_factors_2x() {
    let sf = ScaleFactors::new(3840, 2160, 1920, 1080);
    assert!(sf.is_scaled());
    assert_eq!(sf.x_scale, 2 << 14);
}

#[test]
fn scale_coordinates_floor() {
    let sf = ScaleFactors::new(3840, 2160, 1920, 1080);
    assert_eq!(sf.scale_x(10), 20);
    assert_eq!(sf.scale_y(-3), -6);
    let sf = ScaleFactors::new(3, 3, 2, 2);
    assert_eq!(sf.x_scale, 24576);
    assert_eq!(sf.scale_x(3), 4);
    assert_eq!(sf.scale_x(-3), -5);
}

#[test]
fn scaled_prediction_identity() {
    let ref_pic: Vec<u8> = (0..64).map(|i| (i * 4) as u8).collect();
    let mut dst = [0u8; 16];
    let sf = ScaleFactors::new(8, 8, 8, 8);
    scaled_prediction(&ref_pic, 8, &mut dst, 4, 2, 2, 4, 4, &sf, 8, 8);
    assert_eq!(dst[0], ref_pic[2 * 8 + 2]);
}

#[test]
fn scaled_prediction_unscaled_is_copy() {
    let ref_pic: Vec<u8> = (0..64).map(|i| (i * 4) as u8).collect();
    let mut dst = [0u8; 16];
    let sf = ScaleFactors::new(8, 8, 8, 8);
    scaled_prediction(&ref_pic, 8, &mut dst, 4, 2, 2, 4, 4, &sf, 8, 8);
    for r in 0..4 {
        for c in 0..4 {
            assert_eq!(dst[r * 4 + c], ref_pic[(r + 2) * 8 + c + 2]);
        }
    }
}

#[test]
fn scaled_prediction_2x_downscale() {
    let ref_pic = vec![128u8; 16 * 16];
    let mut dst = [0u8; 64];
    let sf = ScaleFactors::new(16, 16, 8, 8);
    scaled_prediction(&ref_pic, 16, &mut dst, 8, 0, 0, 8, 8, &sf, 16, 16);
    assert!(dst.iter().all(|&v| v == 128));
}

#[test]
fn scaled_prediction_half_pel_values() {
    let ref_pic: Vec<u8> = (0..64).map(|i| (i * 4) as u8).collect();
    let mut dst = [0u8; 6];
    let sf = ScaleFactors { x_scale: 24576, y_scale: 16384 };
    scaled_prediction(&ref_pic, 8, &mut dst, 3, 1, 1, 3, 2, &sf, 8, 8);
    assert_eq!(dst, [38, 44, 50, 70, 76, 82]);
}

#[test]
fn warp_identity_is_copy() {
    let ref_pic: Vec<u8> = (0..64).map(|i| (i * 4) as u8).collect();
    let mut dst = [0u8; 16];
    let params = WarpedMotionParams::default();
    warp_prediction(&ref_pic, 8, &mut dst, 4, &params, 2, 2, 4, 4, 8, 8);
    for r in 0..4 {
        for c in 0..4 {
            let expected = ref_pic[(r + 2) * 8 + (c + 2)];
            assert_eq!(dst[r * 4 + c], expected, "identity warp mismatch at ({r},{c})");
        }
    }
}

#[test]
fn warp_translation_and_zoom() {
    let ref_pic: Vec<u8> = (0..64).map(|i| (i * 4) as u8).collect();
    let mut params = WarpedMotionParams::default();
    params.wmmat[0] = 1;
    let mut dst = [0u8; 4];
    warp_prediction(&ref_pic, 8, &mut dst, 2, &params, 2, 2, 2, 2, 8, 8);
    assert_eq!(dst, [76, 80, 108, 112]);
    let mut params = WarpedMotionParams::default();
    params.wmmat[2] = 65536 + 32768;
    let mut dst = [0u8; 3];
    warp_prediction(&ref_pic, 8, &mut dst, 3, &params, 1, 1, 3, 1, 8, 8);
    assert_eq!(dst, [38, 44, 50]);
}

#[test]
fn count_warp_samples_basic() {
    assert_eq!(count_warp_samples(None, None, None, None), 0);
    assert_eq!(count_warp_samples(Some((1, 2)), Some((3, 4)), None, None), 2);
    assert_eq!(count_warp_samples(Some((1, 2)), Some((3, 4)), Some((5, 6)), Some((7, 8))), 4);
}
