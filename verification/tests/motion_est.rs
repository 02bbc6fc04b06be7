use svtav1::encoder::motion_est::{
    full_pel_search, half_pel_refine, hierarchical_me, hierarchical_me_centered, quarter_pel_refine, MeSearchParams,
};
use svtav1::types::motion::Mv;

fn make_test_frames(width: usize, height: usize) -> (Vec<u8>, Vec<u8>) {
    (vec![128u8; width * height], vec![128u8; width * height])
}

#[test]
fn zero_motion_identical_frames() {
    let mut src = vec![0u8; 8 * 8];
    let mut ref_ = vec![0u8; 64 * 64];
    for r in 0..8 {
        for c in 0..8 {
            let val = ((r * 8 + c) * 7 + 42) as u8;
            src[r * 8 + c] = val;
            ref_[(16 + r) * 64 + (16 + c)] = val;
        }
    }
    let result = full_pel_search(&src, 8, &ref_, 64, 16, 16, 8, 8, Mv::zero(), 8, 8, 64, 64);
    assert_eq!(result.distortion, 0);
    assert_eq!(result.mv, Mv::zero());
}

#[test]
fn finds_shifted_block() {
    let width = 64;
    let height = 64;
    let mut ref_ = vec![0u8; width * height];
    let mut src = vec![0u8; 8 * 8];
    for r in 0..8 {
        for c in 0..8 {
            let val = ((r * 8 + c) * 3) as u8;
            ref_[(20 + r) * width + (20 + c)] = val;
            src[r * 8 + c] = val;
        }
    }
    let result = full_pel_search(&src, 8, &ref_, width, 16, 16, 8, 8, Mv::zero(), 8, 8, width, height);
    assert_eq!(result.distortion, 0);
    assert_eq!(result.mv.x, 4 * 8);
    assert_eq!(result.mv.y, 4 * 8);
}

#[test]
fn search_params_default() {
    let params = MeSearchParams::default();
    assert_eq!(params.search_area_width, 64);
    assert!(params.use_hme);
}

#[test]
fn half_pel_refine_doesnt_worsen() {
    let (src, ref_) = make_test_frames(64, 64);
    let full_result = full_pel_search(&src, 64, &ref_, 64, 16, 16, 8, 8, Mv::zero(), 4, 4, 64, 64);
    let half_result = half_pel_refine(&src, 64, &ref_, 64, 16, 16, 8, 8, full_result.mv, 64, 64);
    assert!(half_result.distortion <= full_result.distortion);
}

#[test]
fn hierarchical_me_basic() {
    let (src, ref_) = make_test_frames(64, 64);
    let params = MeSearchParams { search_area_width: 8, search_area_height: 8, use_hme: false, subpel_level: 0 };
    let result = hierarchical_me(&src, 64, &ref_, 64, 16, 16, 8, 8, &params, 64, 64);
    assert_eq!(result.distortion, 0);
}

#[test]
fn full_pel_first_minimum_and_bounds() {
    // A flat reference: every position ties at SAD 0, so the first one scanned wins:
    // offset (-2, -2) from the center.
    let (src, ref_) = make_test_frames(32, 32);
    let r = full_pel_search(&src, 32, &ref_, 32, 8, 8, 4, 4, Mv::zero(), 2, 2, 32, 32);
    assert_eq!(r.distortion, 0);
    assert_eq!(r.mv, Mv { x: -16, y: -16 });
    // No position inside the picture: the center comes back with the largest SAD.
    let none = full_pel_search(&src, 32, &ref_, 32, 40, 40, 4, 4, Mv::zero(), 1, 1, 32, 32);
    assert_eq!(none.distortion, u32::MAX);
    assert_eq!(none.mv, Mv::zero());
}

#[test]
fn quarter_pel_interpolates() {
    // Reference columns alternate 0 and 80; a source of 40 matches the half position.
    let mut ref_ = vec![0u8; 16 * 16];
    for r in 0..16 {
        for c in 0..16 {
            ref_[r * 16 + c] = if c % 2 == 0 { 0 } else { 80 };
        }
    }
    let src = vec![40u8; 4 * 4];
    let half = half_pel_refine(&src, 4, &ref_, 16, 4, 4, 4, 4, Mv::zero(), 16, 16);
    assert_eq!(half.distortion, 0);
    assert_eq!(half.mv, Mv { x: -4, y: 0 });
    let quarter = quarter_pel_refine(&src, 4, &ref_, 16, 4, 4, 4, 4, Mv { x: 4, y: 0 }, 16, 16);
    assert_eq!(quarter.mv, Mv { x: 4, y: 0 });
    assert_eq!(quarter.distortion, 0);
    let params = MeSearchParams { search_area_width: 1, search_area_height: 1, use_hme: true, subpel_level: 2 };
    let hme = hierarchical_me_centered(&src, 4, &ref_, 16, 4, 4, 4, 4, &params, 16, 16, Mv::zero());
    assert_eq!(hme.distortion, 0);
}
