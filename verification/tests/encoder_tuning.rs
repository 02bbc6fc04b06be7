use svtav1::encoder::film_grain::{grain_params_for_scaling, noise_moments, synthesize_grain, FilmGrainParams};
use svtav1::encoder::perceptual::{adjust_loop_filter_for_still, QuantMatrix, StillImageConfig};
use svtav1::encoder::rate_control::{picture_qp, tpl_qp_adjustment, tpl_sb_qp_offsets, RcMode};
use svtav1::encoder::speed_config::SpeedConfig;

#[test]
fn qm_flat_is_identity() {
    let qm = QuantMatrix::flat();
    let mut coeffs = [100i32, -200, 300, -400, 0, 0, 0, 0];
    let original = coeffs;
    qm.apply(&mut coeffs, 2);
    assert_eq!(coeffs, original);
}

#[test]
fn qm_reduces_high_frequency() {
    let qm = QuantMatrix::av1_default_8x8();
    let mut coeffs = [1000i32; 64];
    let original = coeffs;
    qm.apply(&mut coeffs, 8);
    assert_eq!(coeffs[0], original[0]);
    assert!(coeffs[63] < original[63], "high freq should be reduced");
}

#[test]
fn qm_apply_unapply_roundtrip() {
    let qm = QuantMatrix::av1_default_8x8();
    let original = [1000i32, -500, 250, -125, 60, -30, 15, -8, 0, 0, 0, 0, 0, 0, 0, 0];
    let mut coeffs = original;
    qm.apply(&mut coeffs, 4);
    qm.unapply(&mut coeffs, 4);
    for i in 0..8 {
        let diff = (coeffs[i] - original[i]).abs();
        assert!(diff <= 2, "roundtrip error at {i}: diff={diff}");
    }
}

#[test]
fn qm_exact_values_round_toward_zero() {
    let qm = QuantMatrix::still_image_8x8();
    // Weight 340 at position 7: 1000 * 256 / 340 = 752.9 -> 752, and -752 for -1000.
    let mut coeffs = [0i32; 8];
    coeffs[7] = 1000;
    coeffs[6] = -1000;
    qm.apply(&mut coeffs, 8);
    assert_eq!(coeffs[7], 752);
    // Weight 305 at position 6: -1000 * 256 / 305 = -839.3 -> -839.
    assert_eq!(coeffs[6], -839);
    // size 2 limits the change to the first four coefficients.
    let mut short = [1000i32; 8];
    QuantMatrix::av1_default_8x8().apply(&mut short, 2);
    assert_eq!(&short[4..], &[1000, 1000, 1000, 1000]);
    assert_eq!(short[3], 1000 * 256 / 270);
}

#[test]
fn still_image_reduces_filters() {
    let config = StillImageConfig::default();
    let (deblock, cdef) = adjust_loop_filter_for_still(30, &config);
    let (deblock_normal, cdef_normal) = adjust_loop_filter_for_still(
        30,
        &StillImageConfig { reduce_cdef: false, reduce_deblock: false, ..Default::default() },
    );
    assert!(deblock < deblock_normal);
    assert!(cdef < cdef_normal);
}

#[test]
fn still_image_exact_strengths() {
    let config = StillImageConfig::default();
    assert_eq!(adjust_loop_filter_for_still(30, &config), (40, 5));
    assert_eq!(adjust_loop_filter_for_still(200, &config), (42, 11));
    let plain = StillImageConfig { reduce_cdef: false, reduce_deblock: false, ..Default::default() };
    assert_eq!(adjust_loop_filter_for_still(200, &plain), (63, 15));
}

#[test]
fn noise_moments_of_known_noise() {
    let source = [10u8, 20, 30, 40];
    let denoised = [12u8, 20, 27, 40];
    assert_eq!(noise_moments(&source, &denoised, 2, 2, 2), (1, 13));
    assert_eq!(noise_moments(&source, &source, 2, 2, 2), (0, 0));
}

#[test]
fn grain_params_for_scaling_values() {
    let p = grain_params_for_scaling(9);
    assert!(p.apply_grain && p.overlap_flag);
    assert_eq!(p.grain_seed, 42);
    assert_eq!(p.num_y_points, 2);
    assert_eq!((p.point_y_value[0], p.point_y_value[1]), (0, 255));
    assert_eq!((p.point_y_scaling[0], p.point_y_scaling[1]), (9, 9));
}

#[test]
fn synthesize_modifies_frame() {
    let mut frame = vec![128u8; 16 * 16];
    let original = frame.clone();
    let params = FilmGrainParams {
        apply_grain: true,
        grain_seed: 42,
        num_y_points: 1,
        point_y_scaling: {
            let mut arr = [0u8; 14];
            arr[0] = 20;
            arr
        },
        ..Default::default()
    };
    synthesize_grain(&mut frame, 16, 16, 16, &params);
    assert_ne!(frame, original, "grain should modify the frame");
}

#[test]
fn synthesize_no_op_when_disabled() {
    let mut frame = vec![128u8; 16 * 16];
    let original = frame.clone();
    let params = FilmGrainParams::default();
    synthesize_grain(&mut frame, 16, 16, 16, &params);
    assert_eq!(frame, original);
}

#[test]
fn synthesize_first_pixel_exact() {
    // Seed 42: state 42 * 1103515245 + 12345 (mod 2^32), then (state >> 16) % 41 - 20.
    let state = 42u32.wrapping_mul(1103515245).wrapping_add(12345);
    let noise = ((state >> 16) as i32 % 41) - 20;
    let mut frame = vec![100u8; 4 * 2];
    let mut params = grain_params_for_scaling(20);
    params.grain_seed = 42;
    // Only the left 2x2 block (stride 4) changes.
    synthesize_grain(&mut frame, 2, 2, 4, &params);
    assert_eq!(frame[0] as i32, 100 + noise);
    assert_eq!(&frame[2..4], &[100, 100]);
    assert_eq!(&frame[6..8], &[100, 100]);
}

#[test]
fn tpl_adjustment_levels() {
    let src = vec![100u8; 64];
    assert_eq!(tpl_qp_adjustment(&src, &src, 8, 8, 8), -4);
    let moved = vec![110u8; 64];
    assert_eq!(tpl_qp_adjustment(&src, &moved, 8, 8, 8), 2);
    let far = vec![200u8; 64];
    assert_eq!(tpl_qp_adjustment(&src, &far, 8, 8, 8), 4);
    // Buffers too short: no adjustment.
    assert_eq!(tpl_qp_adjustment(&src[..10], &src, 8, 8, 8), 0);
    assert_eq!(RcMode::Crf, RcMode::Crf);
}

#[test]
fn tpl_sb_offsets_per_superblock() {
    // A 12x8 frame in superblocks of 8: two columns (8 and 4 wide), one row.
    let src = vec![50u8; 12 * 8];
    let mut reference = src.clone();
    for r in 0..8 {
        for c in 8..12 {
            reference[r * 12 + c] = 80;
        }
    }
    let offsets = tpl_sb_qp_offsets(&src, &reference, 12, 8, 12, 8);
    assert_eq!(offsets, vec![-2, 4]);
}

#[test]
fn tpl_moderate_sad_no_adjustment() {
    // Average SAD 3 lies in the moderate band: no adjustment.
    let src = [3u8; 16];
    let reference = [0u8; 16];
    assert_eq!(tpl_qp_adjustment(&src, &reference, 4, 4, 4), 0);
    let ref8 = [11u8; 16];
    assert_eq!(tpl_qp_adjustment(&src, &ref8, 4, 4, 4), 0);
}

#[test]
fn lambda_scale_tenths_by_preset() {
    assert_eq!(SpeedConfig::from_preset(0).lambda_scale_tenths(), 10);
    assert_eq!(SpeedConfig::from_preset(5).lambda_scale_tenths(), 11);
    assert_eq!(SpeedConfig::from_preset(8).lambda_scale_tenths(), 12);
    assert_eq!(SpeedConfig::from_preset(13).lambda_scale_tenths(), 14);
}

#[test]
fn picture_qp_modes() {
    // CQP/CRF: configured QP plus the layer offset, clamped.
    assert_eq!(picture_qp(RcMode::Cqp, 30, 0, 0, 0, 0, 0), 30);
    assert_eq!(picture_qp(RcMode::Crf, 30, 0, 0, 0, 0, 2), 38);
    assert_eq!(picture_qp(RcMode::Cqp, 60, 0, 0, 0, 0, 9), 63);
    // VBR: over budget raises, under three quarters lowers.
    assert_eq!(picture_qp(RcMode::Vbr, 0, 30, 2000, 1, 1000, 0), 31);
    assert_eq!(picture_qp(RcMode::Cbr, 0, 30, 700, 1, 1000, 0), 29);
    assert_eq!(picture_qp(RcMode::Vbr, 0, 30, 800, 1, 1000, 1), 34);
    assert_eq!(picture_qp(RcMode::Vbr, 0, 30, 0, 0, 1000, 0), 30);
}
