use svtav1::encoder::encode_loop::{encode_block, estimate_coeff_rate};
use svtav1::encoder::mode_decision::{
    compute_rd_cost, evaluate_candidate, generate_intra_candidates, select_best_candidate, MdCandidate,
};
use svtav1::encoder::picture::{DecodedPictureBuffer, GopStructure, PictureControlSet, ReferenceFrame};
use svtav1::encoder::speed_config::SpeedConfig;
use svtav1::types::block::BlockSize;
use svtav1::types::frame::FrameType;
use svtav1::types::prediction::PredictionMode;

#[test]
fn encode_uniform_block() {
    let src = [128u8; 16];
    let pred = [128u8; 16];
    let result = encode_block(&src, 4, &pred, 4, 4, 4, 30);
    assert_eq!(result.eob, 0);
    assert_eq!(result.distortion, 0);
}

#[test]
fn encode_small_residual() {
    let src = [130u8; 16];
    let pred = [128u8; 16];
    let result = encode_block(&src, 4, &pred, 4, 4, 4, 30);
    assert!(result.distortion < 100 * 16);
}

#[test]
fn encode_large_residual() {
    let src = [255u8; 16];
    let pred = [0u8; 16];
    let result = encode_block(&src, 4, &pred, 4, 4, 4, 20);
    assert!(result.eob > 0);
    for &r in &result.recon {
        assert!(r > 200, "recon pixel {r} too far from 255");
    }
}

#[test]
fn encode_preserves_sign() {
    let src = [0u8; 16];
    let pred = [128u8; 16];
    let result = encode_block(&src, 4, &pred, 4, 4, 4, 20);
    for &r in &result.recon {
        assert!(r < 100, "recon pixel {r} should be close to 0");
    }
}

#[test]
fn rate_zero_block() {
    let rate = estimate_coeff_rate(&[0i32; 16], 0);
    assert!(rate < 256);
}

#[test]
fn rate_exact_values() {
    // eob 3 over [0, 1, -5]: 128 + 64 + 256 + (384 + 128 * 2).
    assert_eq!(estimate_coeff_rate(&[0, 1, -5, 7], 3), 128 + 64 + 256 + 384 + 256);
    assert_eq!(estimate_coeff_rate(&[9, 9], 0), 64);
}

#[test]
fn encode_8x8_and_narrow_blocks() {
    let mut src = [0u8; 64];
    for (i, v) in src.iter_mut().enumerate() {
        *v = (i * 3) as u8;
    }
    let pred = [100u8; 64];
    let r8 = encode_block(&src, 8, &pred, 8, 8, 8, 10);
    assert_eq!(r8.qcoeffs.len(), 64);
    assert_eq!(r8.recon.len(), 64);
    assert!(r8.eob > 0);
    // A 4x8 block goes through the 4x4 transform of its first 16 residuals.
    let narrow = encode_block(&src, 8, &pred, 8, 4, 8, 10);
    assert_eq!(narrow.qcoeffs.len(), 32);
    assert!(narrow.qcoeffs[16..].iter().all(|&q| q == 0));
    // A DC-only residual: qp 0 gives steps of 4 and 6.
    let flat = encode_block(&[120u8; 16], 4, &[100u8; 16], 4, 4, 4, 0);
    assert_eq!(flat.eob, 1);
    assert!(flat.qcoeffs[1..].iter().all(|&q| q == 0));
}

#[test]
fn rd_cost_computation() {
    let cost = compute_rd_cost(1000, 256, 256);
    assert_eq!(cost, 1256);
}

#[test]
fn rd_cost_zero_lambda() {
    let cost = compute_rd_cost(1000, 500, 0);
    assert_eq!(cost, 1000);
}

#[test]
fn generate_candidates_4x4() {
    let candidates = generate_intra_candidates(BlockSize::Block4x4);
    assert!(candidates.len() >= 7);
}

#[test]
fn generate_candidates_8x8() {
    let candidates = generate_intra_candidates(BlockSize::Block8x8);
    assert!(candidates.len() >= 13);
}

#[test]
fn generate_candidates_exact_order() {
    let small = generate_intra_candidates(BlockSize::Block8x4);
    assert_eq!(small.len(), 7);
    assert_eq!(small[0].mode, PredictionMode::DcPred);
    assert_eq!(small[6].mode, PredictionMode::PaethPred);
    let big = generate_intra_candidates(BlockSize::Block16x16);
    assert_eq!(big.len(), 13);
    assert_eq!(big[7].mode, PredictionMode::D45Pred);
    assert_eq!(big[12].mode, PredictionMode::D67Pred);
    assert!(big.iter().all(|c| c.rd_cost == u64::MAX && c.rate == 0));
}

#[test]
fn evaluate_identical_blocks() {
    let src = [128u8; 16];
    let pred = [128u8; 16];
    let mut candidate = MdCandidate::default();
    evaluate_candidate(&mut candidate, &src, &pred, 4, 4, 256);
    assert_eq!(candidate.distortion, 0);
}

#[test]
fn evaluate_exact_cost() {
    let src = [10u8; 4];
    let pred = [7u8; 4];
    let mut candidate = MdCandidate::default();
    candidate.mode = PredictionMode::VPred;
    evaluate_candidate(&mut candidate, &src, &pred, 2, 2, 512);
    assert_eq!(candidate.distortion, 36);
    assert_eq!(candidate.rate, 384);
    assert_eq!(candidate.rd_cost, 36 + 768);
}

#[test]
fn select_best() {
    let candidates = vec![
        MdCandidate { rd_cost: 100, ..Default::default() },
        MdCandidate { rd_cost: 50, ..Default::default() },
        MdCandidate { rd_cost: 200, ..Default::default() },
    ];
    let best = select_best_candidate(&candidates).unwrap();
    assert_eq!(best.rd_cost, 50);
}

#[test]
fn select_best_first_of_ties_and_empty() {
    let mut a = MdCandidate::default();
    a.rd_cost = 5;
    let mut b = MdCandidate::default();
    b.rd_cost = 5;
    b.mode = PredictionMode::HPred;
    let v = vec![a, b];
    assert_eq!(select_best_candidate(&v).unwrap().mode, PredictionMode::DcPred);
    assert!(select_best_candidate(&[]).is_none());
}

#[test]
fn pcs_key_frame() {
    let pcs = PictureControlSet::new_key_frame(1920, 1080, 0);
    assert_eq!(pcs.frame_type, FrameType::Key);
    assert!(pcs.show_frame);
    assert_eq!(pcs.refresh_frame_flags, 0xFF);
}

#[test]
fn pcs_inter_frame() {
    let pcs = PictureControlSet::new_inter_frame(1920, 1080, 5, 3, 2);
    assert_eq!(pcs.frame_type, FrameType::Inter);
    assert_eq!(pcs.temporal_layer, 2);
    assert_eq!(pcs.ref_frame_idx, [-1i8; 8]);
}

#[test]
fn dpb_store_and_get() {
    let mut dpb = DecodedPictureBuffer::new();
    assert_eq!(dpb.occupied_slots(), 0);
    let frame = ReferenceFrame { y_plane: vec![128u8; 64 * 64], width: 64, height: 64, display_order: 0, order_hint: 0 };
    dpb.store(0, frame);
    assert_eq!(dpb.occupied_slots(), 1);
    assert!(dpb.get(0).is_some());
    assert!(dpb.get(1).is_none());
}

#[test]
fn dpb_refresh() {
    let mut dpb = DecodedPictureBuffer::new();
    let frame = ReferenceFrame { y_plane: vec![128u8; 16], width: 4, height: 4, display_order: 0, order_hint: 0 };
    dpb.refresh(0x15, &frame);
    assert_eq!(dpb.occupied_slots(), 3);
    assert!(dpb.get(0).is_some());
    assert!(dpb.get(1).is_none());
    assert!(dpb.get(2).is_some());
}

#[test]
fn dpb_store_out_of_range_and_clear() {
    let mut dpb = DecodedPictureBuffer::default();
    let frame = ReferenceFrame { y_plane: vec![1u8; 4], width: 2, height: 2, display_order: 7, order_hint: 3 };
    dpb.store(8, frame.clone());
    assert_eq!(dpb.occupied_slots(), 0);
    dpb.refresh(0xFF, &frame);
    assert_eq!(dpb.occupied_slots(), 8);
    assert_eq!(dpb.get(7).unwrap().display_order, 7);
    assert!(dpb.get(8).is_none());
    dpb.clear();
    assert_eq!(dpb.occupied_slots(), 0);
}

#[test]
fn gop_key_frame_detection() {
    let gop = GopStructure::new(4, 64);
    assert!(gop.is_key_frame(0));
    assert!(!gop.is_key_frame(1));
    assert!(gop.is_key_frame(64));
    assert!(!gop.is_key_frame(63));
}

#[test]
fn gop_temporal_layers() {
    let gop = GopStructure::new(3, 64);
    assert_eq!(gop.get_temporal_layer(0), 0);
    assert_eq!(gop.mini_gop_size, 8);
}

#[test]
fn gop_temporal_layer_values() {
    let gop = GopStructure::new(3, 64);
    // Position 8 is a multiple of the full span: layer 3 - 1.
    assert_eq!(gop.get_temporal_layer(8), 2);
    assert_eq!(gop.get_temporal_layer(4), 1);
    assert_eq!(gop.get_temporal_layer(2), 0);
    // An odd position matches no span below the mini-GOP size: the top layer.
    assert_eq!(gop.get_temporal_layer(1), 3);
}

#[test]
fn gop_single_key() {
    let gop = GopStructure::new(4, 0);
    assert!(gop.is_key_frame(0));
    assert!(!gop.is_key_frame(1));
    assert!(!gop.is_key_frame(1000));
}

#[test]
fn preset_0_enables_everything() {
    let cfg = SpeedConfig::from_preset(0);
    assert!(cfg.enable_adst);
    assert!(cfg.enable_identity_tx);
    assert!(cfg.enable_filter_intra);
    assert!(cfg.enable_palette);
    assert!(cfg.enable_obmc);
    assert!(cfg.enable_warped_motion);
    assert!(cfg.enable_compound);
    assert!(cfg.rdo_tx_decision);
    assert_eq!(cfg.max_intra_candidates, 13);
    assert_eq!(cfg.subpel_precision, 3);
}

#[test]
fn preset_13_minimal() {
    let cfg = SpeedConfig::from_preset(13);
    assert!(!cfg.enable_adst);
    assert!(!cfg.enable_filter_intra);
    assert!(!cfg.enable_palette);
    assert!(!cfg.enable_obmc);
    assert!(!cfg.enable_warped_motion);
    assert!(!cfg.rdo_tx_decision);
    assert_eq!(cfg.max_intra_candidates, 2);
    assert_eq!(cfg.subpel_precision, 0);
}

#[test]
fn preset_monotonic() {
    let p4 = SpeedConfig::from_preset(4);
    let p8 = SpeedConfig::from_preset(8);
    let p12 = SpeedConfig::from_preset(12);
    assert!(p4.max_intra_candidates >= p8.max_intra_candidates);
    assert!(p8.max_intra_candidates >= p12.max_intra_candidates);
    assert!(p4.me_search_width >= p8.me_search_width);
}

#[test]
fn preset_clamping() {
    let cfg = SpeedConfig::from_preset(99);
    assert_eq!(cfg.preset, 13);
}

#[test]
fn preset_middle_values() {
    let cfg = SpeedConfig::from_preset(7);
    assert_eq!(cfg.max_partition_depth, 2);
    assert_eq!(cfg.max_intra_candidates, 4);
    assert_eq!(cfg.subpel_precision, 2);
    assert_eq!(cfg.hme_levels, 2);
    assert_eq!(cfg.me_search_width, 32);
    assert!(cfg.enable_identity_tx && !cfg.enable_obmc);
}
