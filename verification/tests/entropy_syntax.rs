use svtav1::entropy::coeff::{
    eob_to_bin, generate_diagonal_scan, get_dc_sign_context, get_scan_table, get_txb_skip_context,
    log2_of_tx_dim, write_coefficients, write_coefficients_ctx, write_golomb, CoeffContext,
};
use svtav1::entropy::context::{
    block_size_group, get_intra_inter_context, get_partition_context, get_skip_context, intra_mode_context,
    is_directional_mode, write_angle_delta, write_intra_mode, write_intra_mode_kf, write_mv_component,
    write_partition, write_skip, FrameContext,
};
use svtav1::entropy::mv_coding::{mv_class_and_offset, write_mv, MvContext};
use svtav1::entropy::writer::AomWriter;
use svtav1::tables::scan::{DEFAULT_SCAN_4X4, DEFAULT_SCAN_8X8};

#[test]
fn frame_context_default() {
    let fc = FrameContext::new_default();
    assert!(fc.skip_cdf[0][0] > 0);
    assert_eq!(fc.skip_cdf[0][0], 1097);
    assert_eq!(fc.partition_cdf[0][0], 13636);
    assert!(fc.partition_cdf[0][0] > fc.partition_cdf[0][1]);
    assert_eq!(fc.kf_y_mode_cdf[0][0][0], 17180);
}

#[test]
fn frame_context_clone() {
    let fc1 = FrameContext::new_default();
    let fc2 = fc1.clone();
    assert_eq!(fc1.skip_cdf[0][0], fc2.skip_cdf[0][0]);
}

#[test]
fn write_skip_flag() {
    let mut w = AomWriter::new(256);
    let mut fc = FrameContext::new_default();
    write_skip(&mut w, &mut fc, 0, true);
    write_skip(&mut w, &mut fc, 1, false);
    let output = w.done();
    assert!(!output.is_empty());
}

#[test]
fn context_write_mv_both_signs() {
    let mut w = AomWriter::new(256);
    write_mv_component(&mut w, 42);
    write_mv_component(&mut w, -42);
    let output = w.done();
    assert!(!output.is_empty());
}

#[test]
fn write_intra_mode_range() {
    let mut w = AomWriter::new(256);
    for mode in 0..13 {
        write_intra_mode(&mut w, mode);
    }
    let output = w.done();
    assert!(!output.is_empty());
}

#[test]
fn context_derivations() {
    assert_eq!(get_skip_context(false, false), 0);
    assert_eq!(get_skip_context(true, true), 2);
    assert_eq!(get_intra_inter_context(true, true), 0);
    assert_eq!(get_intra_inter_context(true, false), 1);
    assert_eq!(get_intra_inter_context(false, true), 2);
    assert_eq!(get_intra_inter_context(false, false), 3);
    assert_eq!(intra_mode_context(0), 0);
    assert_eq!(intra_mode_context(2), 1);
    assert_eq!(intra_mode_context(5), 2);
    assert_eq!(intra_mode_context(7), 3);
    assert_eq!(intra_mode_context(11), 4);
    assert_eq!(block_size_group(4, 64), 0);
    assert_eq!(block_size_group(8, 8), 1);
    assert_eq!(block_size_group(16, 32), 2);
    assert_eq!(block_size_group(64, 64), 3);
    assert!(is_directional_mode(1));
    assert!(is_directional_mode(8));
    assert!(!is_directional_mode(0));
    assert!(!is_directional_mode(9));
}

#[test]
fn partition_context_values() {
    assert_eq!(get_partition_context(8, true, true), (0, 4));
    assert_eq!(get_partition_context(16, false, false), (7, 10));
    assert_eq!(get_partition_context(64, true, false), (17, 8));
    assert_eq!(get_partition_context(64, true, true), (16, 8));
    assert_eq!(get_partition_context(128, false, false), (19, 8));
}

#[test]
fn write_partition_adapts_its_row_only() {
    let mut w = AomWriter::new(256);
    let mut fc = FrameContext::new_default();
    let before = fc.clone();
    write_partition(&mut w, &mut fc, 0, 3, 4);
    assert_ne!(fc.partition_cdf[0], before.partition_cdf[0]);
    assert_eq!(fc.partition_cdf[1], before.partition_cdf[1]);
    assert_eq!(fc.skip_cdf, before.skip_cdf);
}

#[test]
fn write_kf_mode_and_angle_delta() {
    let mut w = AomWriter::new(256);
    let mut fc = FrameContext::new_default();
    write_intra_mode_kf(&mut w, &mut fc, 0, 0, 1);
    write_angle_delta(&mut w, &mut fc, 1, 0);
    assert_eq!(fc.angle_delta_cdf[1], before_angle());
    let output = w.done();
    assert!(!output.is_empty());
}

fn before_angle() -> [u16; 8] {
    FrameContext::new_default().angle_delta_cdf[1]
}

#[test]
fn write_zero_mv() {
    let mut w = AomWriter::new(256);
    write_mv(&mut w, 0, 0, true);
    let output = w.done();
    assert!(!output.is_empty());
}

#[test]
fn write_nonzero_mv() {
    let mut w = AomWriter::new(256);
    write_mv(&mut w, 32, -16, true);
    let output = w.done();
    assert!(output.len() > 1, "nonzero MV should produce multiple bytes");
}

#[test]
fn mv_class_small() {
    let (class, _offset) = mv_class_and_offset(8);
    assert_eq!(class, 0);
}

#[test]
fn mv_class_large() {
    let (class, _offset) = mv_class_and_offset(256);
    assert!(class >= 4, "32 full-pel should be class >= 4: got {class}");
}

#[test]
fn mv_class_exact_values() {
    assert_eq!(mv_class_and_offset(0), (0, 0));
    assert_eq!(mv_class_and_offset(7), (0, 0));
    assert_eq!(mv_class_and_offset(256), (5, 0));
    assert_eq!(mv_class_and_offset(8 * 45), (5, 13));
    assert_eq!(mv_class_and_offset(8 * 5000), (10, 5000 - 1024));
}

#[test]
fn mv_coding_write_mv_both_signs() {
    let mut w = AomWriter::new(256);
    write_mv(&mut w, 100, -200, false);
    let output = w.done();
    assert!(!output.is_empty());
}

#[test]
fn mv_context_default_values() {
    let ctx = MvContext::default();
    assert_eq!(ctx.joint_cdf, [12288, 8192, 4096, 0, 0]);
    assert_eq!(ctx.sign_cdf[0], [16384, 0, 0]);
}

#[test]
fn write_zero_block() {
    let mut w = AomWriter::new(256);
    write_coefficients(&mut w, &[], 0, 0, 0);
    let output = w.done();
    assert!(!output.is_empty());
}

#[test]
fn write_single_dc_coeff() {
    let mut w = AomWriter::new(256);
    write_coefficients(&mut w, &[100, 0, 0, 0], 1, 0, 0);
    let output = w.done();
    assert!(!output.is_empty());
}

#[test]
fn write_multiple_coeffs() {
    let mut w = AomWriter::new(1024);
    let coeffs = [500, -300, 200, -100, 50, -25, 10, -5, 0, 0, 0, 0, 0, 0, 0, 0];
    write_coefficients(&mut w, &coeffs, 8, 0, 0);
    let output = w.done();
    assert!(output.len() > 5, "multiple coeffs should produce substantial output");
}

#[test]
fn write_coefficients_ctx_adapts_skip_row() {
    let mut w = AomWriter::new(256);
    let mut ctx = CoeffContext::default();
    write_coefficients_ctx(&mut w, &[], 0, &mut ctx);
    assert!(ctx.txb_skip_cdf[0][0] > 16384);
    assert_eq!(ctx.txb_skip_cdf[1], [16384, 0, 0]);
}

#[test]
fn txb_skip_context() {
    assert_eq!(get_txb_skip_context(false, false), 0);
    assert_eq!(get_txb_skip_context(true, false), 1);
    assert_eq!(get_txb_skip_context(true, true), 2);
}

#[test]
fn dc_sign_context() {
    assert_eq!(get_dc_sign_context(-1, 0), 0);
    assert_eq!(get_dc_sign_context(0, 0), 1);
    assert_eq!(get_dc_sign_context(1, 0), 2);
}

#[test]
fn eob_bin_conversion() {
    assert_eq!(eob_to_bin(0), 0);
    assert_eq!(eob_to_bin(1), 1);
    assert_eq!(eob_to_bin(2), 2);
    assert_eq!(eob_to_bin(3), 2);
    assert_eq!(eob_to_bin(4), 3);
    assert_eq!(eob_to_bin(7), 3);
    assert_eq!(eob_to_bin(8), 4);
    assert_eq!(eob_to_bin(15), 4);
    assert_eq!(eob_to_bin(16), 5);
    assert_eq!(eob_to_bin(31), 5);
    assert_eq!(eob_to_bin(32), 6);
    assert_eq!(eob_to_bin(63), 6);
    assert_eq!(eob_to_bin(64), 7);
    assert_eq!(eob_to_bin(127), 7);
    assert_eq!(eob_to_bin(128), 8);
    assert_eq!(eob_to_bin(255), 8);
    assert_eq!(eob_to_bin(256), 9);
    assert_eq!(eob_to_bin(511), 9);
    assert_eq!(eob_to_bin(512), 10);
    assert_eq!(eob_to_bin(1023), 10);
}

#[test]
fn diagonal_scan_4x4_matches_hardcoded() {
    let generated = generate_diagonal_scan(4, 4);
    let hardcoded: Vec<u16> = DEFAULT_SCAN_4X4.iter().map(|&x| x as u16).collect();
    assert_eq!(generated, hardcoded, "4x4 diagonal scan mismatch");
}

#[test]
fn diagonal_scan_8x8_matches_hardcoded() {
    let generated = generate_diagonal_scan(8, 8);
    let hardcoded: Vec<u16> = DEFAULT_SCAN_8X8.iter().map(|&x| x as u16).collect();
    assert_eq!(generated, hardcoded, "8x8 diagonal scan mismatch");
}

#[test]
fn diagonal_scan_16x16_covers_all() {
    let scan = generate_diagonal_scan(16, 16);
    assert_eq!(scan.len(), 256);
    let mut visited = [false; 256];
    for &idx in &scan {
        assert!(!visited[idx as usize], "duplicate index {idx} in 16x16 scan");
        visited[idx as usize] = true;
    }
    assert!(visited.iter().all(|&v| v), "16x16 scan must cover all positions");
}

#[test]
fn diagonal_scan_32x32_covers_all() {
    let scan = generate_diagonal_scan(32, 32);
    assert_eq!(scan.len(), 1024);
    let mut visited = [false; 1024];
    for &idx in &scan {
        assert!(!visited[idx as usize], "duplicate index {idx} in 32x32 scan");
        visited[idx as usize] = true;
    }
    assert!(visited.iter().all(|&v| v), "32x32 scan must cover all positions");
}

#[test]
fn diagonal_scan_rectangular() {
    assert_eq!(generate_diagonal_scan(4, 2), vec![0, 1, 4, 5, 2, 3, 6, 7]);
    assert_eq!(get_scan_table(2, 2), vec![0, 1, 2, 3]);
}

#[test]
fn log2_tx_dim_values() {
    assert_eq!(log2_of_tx_dim(4), 0);
    assert_eq!(log2_of_tx_dim(8), 1);
    assert_eq!(log2_of_tx_dim(16), 2);
    assert_eq!(log2_of_tx_dim(32), 3);
    assert_eq!(log2_of_tx_dim(64), 4);
    assert_eq!(log2_of_tx_dim(2), 0);
    assert_eq!(log2_of_tx_dim(128), 5);
}

#[test]
fn golomb_roundtrip_values() {
    for val in [0, 1, 2, 3, 7, 15, 31, 63, 100, 255, 1000] {
        let mut w = AomWriter::new(256);
        write_golomb(&mut w, val);
        let output = w.done();
        assert!(!output.is_empty(), "golomb({val}) should produce output");
    }
}
