use svtav1::dsp::loop_filter::{
    cdef_filter_block, cdef_find_dir, constrain, deblock_horz, deblock_horz_wide, deblock_vert, deblock_vert_14tap,
    deblock_vert_wide, derive_deblock_strength, floor_log2, optimize_wiener_coefficients, select_deblock_filter_size,
    sgrproj_filter, wiener_filter, SgrprojParams,
};

#[test]
fn deblock_flat_unchanged() {
    let val = 128u8;
    let stride = 8;
    let height = 4;
    let mut pixels = vec![val; stride * (height + 2)];
    let original = pixels.clone();
    deblock_vert(&mut pixels, stride, 10, 10, 4, height);
    assert_eq!(pixels, original, "flat block should not change");
    let mut pixels2 = vec![val; stride * (height + 4)];
    let original2 = pixels2.clone();
    deblock_horz(&mut pixels2, stride, 10, 10, 3, 6);
    assert_eq!(pixels2, original2, "flat block should not change");
}

#[test]
fn deblock_reduces_step_edge() {
    let stride = 8;
    let height = 1;
    let mut pixels = vec![0u8; stride];
    for col in 4..8 {
        pixels[col] = 100;
    }
    let p0_before = pixels[3];
    let q0_before = pixels[4];
    deblock_vert(&mut pixels, stride, 100, 100, 4, height);
    assert!(pixels[3] > p0_before, "p0 should increase");
    assert!(pixels[4] < q0_before, "q0 should decrease");
    assert_eq!(pixels, vec![0, 0, 0, 38, 62, 100, 100, 100]);
}

#[test]
fn deblock_zero_strength_is_noop() {
    let mut pixels = vec![0u8, 0, 0, 0, 100, 100, 100, 100];
    deblock_vert(&mut pixels, 8, 0, 100, 4, 1);
    deblock_vert_wide(&mut pixels, 8, 0, 100, 4, 1);
    deblock_vert_14tap(&mut pixels, 8, 0, 100, 4, 1);
    assert_eq!(pixels, vec![0, 0, 0, 0, 100, 100, 100, 100]);
}

#[test]
fn deblock_vert_all_dispatch_levels() {
    let stride = 8;
    let height = 4;
    let mut pixels = vec![0u8; stride * height];
    for row in 0..height {
        for col in 4..8 {
            pixels[row * stride + col] = 100;
        }
    }
    deblock_vert(&mut pixels, stride, 10, 10, 4, height);
    for row in 0..height {
        assert_eq!(&pixels[row * stride..row * stride + stride], &[0, 0, 0, 10, 90, 100, 100, 100]);
    }
}

#[test]
fn deblock_horz_all_dispatch_levels() {
    let stride = 8;
    let width = 6;
    let mut pixels = vec![0u8; stride * 8];
    for row in 4..8 {
        for col in 0..stride {
            pixels[row * stride + col] = 100;
        }
    }
    deblock_horz(&mut pixels, stride, 10, 10, 4, width);
    assert_eq!(&pixels[24..32], &[10, 10, 10, 10, 10, 10, 0, 0]);
    assert_eq!(&pixels[32..40], &[90, 90, 90, 90, 90, 90, 100, 100]);
}

#[test]
fn deblock_wide_smooths_gentle_step() {
    let mut row = vec![10u8, 10, 10, 10, 30, 30, 30, 30];
    deblock_vert_wide(&mut row, 8, 1, 100, 4, 1);
    assert_eq!(row, vec![10, 13, 15, 18, 23, 25, 28, 30]);
    // A sharp edge (above the threshold) is left alone.
    let mut sharp = vec![0u8, 0, 0, 0, 200, 200, 200, 200];
    deblock_vert_wide(&mut sharp, 8, 1, 100, 4, 1);
    assert_eq!(sharp, vec![0, 0, 0, 0, 200, 200, 200, 200]);
}

#[test]
fn deblock_horz_wide_matches_vertical() {
    // A column of the same samples as `deblock_wide_smooths_gentle_step`.
    let col = [10u8, 10, 10, 10, 30, 30, 30, 30];
    let mut pixels = vec![0u8; 8 * 2];
    for r in 0..8 {
        pixels[r * 2] = col[r];
    }
    deblock_horz_wide(&mut pixels, 2, 1, 100, 4, 1);
    let out: Vec<u8> = (0..8).map(|r| pixels[r * 2]).collect();
    assert_eq!(out, vec![10, 13, 15, 18, 23, 25, 28, 30]);
}

#[test]
fn deblock_14tap_ramp() {
    let mut row = vec![0u8; 16];
    for c in 7..14 {
        row[c] = 26;
    }
    deblock_vert_14tap(&mut row, 16, 1, 100, 7, 1);
    assert_eq!(row, vec![0, 2, 4, 6, 8, 10, 12, 14, 16, 18, 20, 22, 24, 26, 0, 0]);
}

#[test]
fn deblock_strength_and_size() {
    assert_eq!(derive_deblock_strength(0), (0, 4));
    assert_eq!(derive_deblock_strength(15), (15, 34));
    assert_eq!(derive_deblock_strength(20), (25, 54));
    assert_eq!(derive_deblock_strength(40), (56, 116));
    assert_eq!(derive_deblock_strength(63), (79, 127));
    assert_eq!(derive_deblock_strength(200), (63, 127));
    assert_eq!(select_deblock_filter_size(true, 20), 14);
    assert_eq!(select_deblock_filter_size(true, 19), 8);
    assert_eq!(select_deblock_filter_size(false, 10), 8);
    assert_eq!(select_deblock_filter_size(false, 9), 4);
}

#[test]
fn cdef_direction_horizontal_gradient() {
    let stride = 8;
    let mut block = vec![0u8; stride * 8];
    for row in 0..8 {
        for col in 0..8 {
            block[row * stride + col] = (row * 30) as u8;
        }
    }
    let (dir, var) = cdef_find_dir(&block, stride);
    assert_eq!(dir, 0, "vertical gradient should produce direction 0 (horizontal lines)");
    assert!(var > 0, "variance should be nonzero");
    assert_eq!(var, 2419200);
}

#[test]
fn cdef_direction_vertical_gradient() {
    let stride = 8;
    let mut block = vec![0u8; stride * 8];
    for row in 0..8 {
        for col in 0..8 {
            block[row * stride + col] = (col * 30) as u8;
        }
    }
    let (dir, _var) = cdef_find_dir(&block, stride);
    assert_eq!(dir, 2, "horizontal gradient should produce direction 2 (vertical lines)");
}

#[test]
fn cdef_direction_flat_block() {
    let block = vec![77u8; 64];
    assert_eq!(cdef_find_dir(&block, 8), (0, 0));
}

#[test]
fn cdef_filter_flat_block() {
    let val = 128u8;
    let size = 8;
    let stride = size;
    let src = vec![val; stride * size];
    let mut dst = vec![0u8; stride * size];
    cdef_filter_block(&src, stride, &mut dst, stride, 0, 4, 2, 4, size, size);
    for (i, &v) in dst.iter().enumerate() {
        assert_eq!(v, val, "flat block should remain flat at index {i}");
    }
}

#[test]
fn cdef_filter_zero_strength_copies() {
    let size = 8;
    let stride = size;
    let src: Vec<u8> = (0..(size * size) as u16).map(|i| (i % 256) as u8).collect();
    let mut dst = vec![0u8; stride * size];
    cdef_filter_block(&src, stride, &mut dst, stride, 3, 0, 0, 4, size, size);
    assert_eq!(dst, src, "zero strength should just copy");
}

#[test]
fn cdef_filter_block_all_dispatch_levels() {
    let size = 8;
    let stride = size;
    let src: Vec<u8> = (0..(size * size) as u16).map(|i| ((i * 13 + 7) % 256) as u8).collect();
    let mut result = vec![0u8; stride * size];
    cdef_filter_block(&src, stride, &mut result, stride, 3, 4, 2, 4, size, size);
    let expected: Vec<u8> = vec![
        9, 22, 34, 47, 60, 73, 87, 99, 111, 124, 137, 148, 161, 173, 186, 201, 213, 225, 237, 250, 15, 27, 41, 52, 64,
        79, 92, 104, 117, 128, 140, 154, 165, 177, 190, 203, 216, 229, 242, 4, 17, 31, 44, 57, 70, 83, 96, 108, 120,
        132, 144, 157, 169, 182, 195, 209, 223, 235, 247, 8, 21, 34, 47, 60,
    ];
    assert_eq!(result, expected);
}

#[test]
fn floor_log2_values() {
    assert_eq!(floor_log2(1), 0);
    assert_eq!(floor_log2(2), 1);
    assert_eq!(floor_log2(3), 1);
    assert_eq!(floor_log2(4), 2);
    assert_eq!(floor_log2(7), 2);
    assert_eq!(floor_log2(8), 3);
    assert_eq!(floor_log2(128), 7);
    assert_eq!(floor_log2(0), 0);
    assert_eq!(floor_log2(u32::MAX), 31);
}

#[test]
fn constrain_basic() {
    assert_eq!(constrain(0, 4, 4), 0);
    assert_eq!(constrain(100, 4, 0), 4);
    assert_eq!(constrain(-100, 4, 0), -4);
    assert_eq!(constrain(50, 0, 4), 0);
    // Damping threshold 1 << (4 - 2) = 4: a difference of 3 is dropped, 5 is clamped to 4.
    assert_eq!(constrain(3, 4, 4), 0);
    assert_eq!(constrain(5, 4, 4), 4);
}

#[test]
fn wiener_identity_kernel_copies() {
    // All-zero coefficients give the kernel [0, 0, 0, 128, 0, 0, 0]: a copy.
    let src: Vec<u8> = (0..24).map(|i| (i * 9) as u8).collect();
    let mut dst = vec![0u8; 24];
    wiener_filter(&src, 6, &mut dst, 6, 6, 4, [0, 0, 0], [0, 0, 0]);
    assert_eq!(dst, src);
}

#[test]
fn wiener_smooths_and_keeps_flat() {
    let flat = vec![90u8; 16];
    let mut dst = vec![0u8; 16];
    wiener_filter(&flat, 4, &mut dst, 4, 4, 4, [3, 2, 1], [3, 2, 1]);
    assert_eq!(dst, flat);
    // A single bright sample is spread by the kernel [1, 2, 3, 116, 3, 2, 1].
    let mut spike = vec![0u8; 49];
    spike[24] = 128;
    let mut out = vec![0u8; 49];
    wiener_filter(&spike, 7, &mut out, 7, 7, 7, [3, 2, 1], [3, 2, 1]);
    assert_eq!(out[24], 105);
    assert_eq!(out[23], 3);
}

#[test]
fn wiener_search_prefers_identity_on_clean_input() {
    let src: Vec<u8> = (0..64).map(|i| ((i * 37) % 256) as u8).collect();
    let (h, v) = optimize_wiener_coefficients(&src, 8, &src, 8, 8, 8);
    assert_eq!(h, [0, 0, 0]);
    assert_eq!(v, [0, 0, 0]);
}

#[test]
fn sgrproj_flat_block_unchanged() {
    let src = vec![100u8; 64];
    let mut dst = vec![0u8; 64];
    let params = SgrprojParams { r0: 1, r1: 0, s0: 100, s1: 0, xqd: [64, 0] };
    sgrproj_filter(&src, 8, &mut dst, 8, 8, 8, &params);
    assert!(dst.iter().all(|&v| v == 100));
}

#[test]
fn sgrproj_no_pass_is_identity() {
    let src: Vec<u8> = (0..16).map(|i| (i * 13 + 5) as u8).collect();
    let mut dst = vec![0u8; 16];
    let params = SgrprojParams { r0: 0, r1: 0, s0: 0, s1: 0, xqd: [-32, 31] };
    sgrproj_filter(&src, 4, &mut dst, 4, 4, 4, &params);
    assert_eq!(dst, src);
}

#[test]
fn sgrproj_two_passes_exact() {
    let src: Vec<u8> = (0..16).map(|i| ((i * 37 + 11) % 256) as u8).collect();
    let mut dst = vec![0u8; 16];
    let params = SgrprojParams { r0: 1, r1: 2, s0: 140, s1: 3236, xqd: [-32, 31] };
    sgrproj_filter(&src, 4, &mut dst, 4, 4, 4, &params);
    assert_eq!(dst, vec![17, 52, 86, 120, 155, 188, 221, 23, 56, 90, 124, 157, 195, 228, 24, 57]);
}

#[test]
fn sgrproj_leaves_outside_block() {
    let src = vec![50u8; 32];
    let mut dst = vec![9u8; 32];
    let params = SgrprojParams { r0: 1, r1: 0, s0: 10, s1: 0, xqd: [64, 0] };
    sgrproj_filter(&src, 8, &mut dst, 8, 4, 4, &params);
    for r in 0..4 {
        assert!(dst[r * 8..r * 8 + 4].iter().all(|&v| v == 50));
        assert!(dst[r * 8 + 4..r * 8 + 8].iter().all(|&v| v == 9));
    }
}
