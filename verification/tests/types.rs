use svtav1::types::bitstream::{GlobalMotionParams, ObuType, TileInfo};
use svtav1::types::block::BlockSize;
use svtav1::types::block_mode::{BlockModeInfo, MbModeInfo};
use svtav1::types::frame::FrameType;
use svtav1::types::interp::InterpFilter;
use svtav1::types::motion::{Mv, TransformationType, WarpedMotionParams, MAX_PARAMDIM, WARPEDMODEL_PREC_BITS};
use svtav1::types::prediction::{PredictionMode, UvPredictionMode};
use svtav1::types::reference::{ReferenceFrame, INTER_REFS_PER_FRAME, MODE_CTX_REF_FRAMES, TOTAL_COMP_REFS, TOTAL_REFS_PER_FRAME};
use svtav1::types::transform::{TxSize, TxType};

#[test]
fn obu_type_discriminants() {
    assert_eq!(ObuType::SequenceHeader.as_u8(), 1);
    assert_eq!(ObuType::Padding.as_u8(), 15);
}

#[test]
fn tile_info_default() {
    let ti = TileInfo::default();
    assert_eq!(ti.mi_row_start, 0);
    assert_eq!(ti.tile_rs_index, 0);
}

#[test]
fn global_motion_default() {
    let gm = GlobalMotionParams::default();
    assert_eq!(gm.gm_type, TransformationType::Identity);
    assert_eq!(gm.gm_params, [0; MAX_PARAMDIM]);
}

#[test]
fn block_size_discriminants_match_c() {
    assert_eq!(BlockSize::Block4x4 as u8, 0);
    assert_eq!(BlockSize::Block128x128 as u8, 15);
    assert_eq!(BlockSize::Block4x16 as u8, 16);
    assert_eq!(BlockSize::Block64x16 as u8, 21);
}

#[test]
fn block_size_roundtrip() {
    for bs in BlockSize::ALL {
        assert_eq!(BlockSize::from_u8(bs as u8), Some(bs));
    }
    assert_eq!(BlockSize::from_u8(22), None);
    assert_eq!(BlockSize::from_u8(255), None);
}

#[test]
fn block_size_square() {
    let squares: Vec<_> = BlockSize::ALL.iter().filter(|b| b.is_square()).collect();
    assert_eq!(squares.len(), 6);
}

#[test]
fn block_mode_info_default() {
    let bmi = BlockModeInfo::default();
    assert!(bmi.mode.is_intra());
    assert!(!bmi.is_inter_block());
    assert!(!bmi.has_second_ref());
    assert!(!bmi.skip);
}

#[test]
fn mb_mode_info_default() {
    let mmi = MbModeInfo::default();
    assert_eq!(mmi.bsize, BlockSize::Block4x4);
    assert_eq!(mmi.cdef_strength, 0);
}

#[test]
fn frame_type_discriminants() {
    assert_eq!(FrameType::Key as u8, 0);
    assert_eq!(FrameType::Switch as u8, 3);
}

#[test]
fn frame_type_is_intra() {
    assert!(FrameType::Key.is_intra());
    assert!(FrameType::IntraOnly.is_intra());
    assert!(!FrameType::Inter.is_intra());
    assert!(!FrameType::Switch.is_intra());
}

#[test]
fn interp_filter_discriminants() {
    assert_eq!(InterpFilter::EightTapRegular as u8, 0);
    assert_eq!(InterpFilter::Bilinear as u8, 3);
}

#[test]
fn mv_as_int_roundtrip() {
    let mv = Mv { x: -42, y: 100 };
    let packed = mv.as_int();
    let unpacked = Mv::from_int(packed);
    assert_eq!(mv, unpacked);
}

#[test]
fn mv_fullpel_subpel_roundtrip() {
    let full = Mv { x: 10, y: -5 };
    let sub = full.to_subpel();
    assert_eq!(sub.x, 80);
    assert_eq!(sub.y, -40);
    let back = sub.to_fullpel();
    assert_eq!(back, full);
}

#[test]
fn mv_invalid() {
    assert_eq!(Mv::invalid().x, i16::MIN);
    assert_eq!(Mv::invalid().y, i16::MIN);
}

#[test]
fn default_warp_params() {
    let params = WarpedMotionParams::default();
    assert_eq!(params.wm_type, TransformationType::Identity);
    assert_eq!(params.wmmat[2], 1 << WARPEDMODEL_PREC_BITS);
    assert_eq!(params.wmmat[5], 1 << WARPEDMODEL_PREC_BITS);
    assert!(!params.invalid);
}

#[test]
fn prediction_mode_discriminants() {
    assert_eq!(PredictionMode::DcPred as u8, 0);
    assert_eq!(PredictionMode::PaethPred as u8, 12);
    assert_eq!(PredictionMode::NearestMv as u8, 13);
    assert_eq!(PredictionMode::NewNewMv as u8, 24);
}

#[test]
fn prediction_mode_classification() {
    assert!(PredictionMode::DcPred.is_intra());
    assert!(!PredictionMode::DcPred.is_inter());
    assert!(PredictionMode::NearestMv.is_inter());
    assert!(PredictionMode::NearestMv.is_single_ref());
    assert!(!PredictionMode::NearestMv.is_compound());
    assert!(PredictionMode::NearestNearestMv.is_compound());
}

#[test]
fn uv_mode_discriminants() {
    assert_eq!(UvPredictionMode::UvCflPred as u8, 13);
}

#[test]
fn reference_frame_discriminants() {
    assert_eq!(ReferenceFrame::NoneFrame.as_i8(), -1);
    assert_eq!(ReferenceFrame::Intra.as_i8(), 0);
    assert_eq!(ReferenceFrame::Last.as_i8(), 1);
    assert_eq!(ReferenceFrame::AltRef.as_i8(), 7);
}

#[test]
fn ref_frame_counts() {
    assert_eq!(INTER_REFS_PER_FRAME, 7);
    assert_eq!(TOTAL_REFS_PER_FRAME, 8);
    assert_eq!(TOTAL_COMP_REFS, 4 * 3 + 9);
    assert_eq!(MODE_CTX_REF_FRAMES, 8 + 21);
}

#[test]
fn tx_size_discriminants_match_c() {
    assert_eq!(TxSize::Tx4x4 as u8, 0);
    assert_eq!(TxSize::Tx64x64 as u8, 4);
    assert_eq!(TxSize::Tx4x8 as u8, 5);
    assert_eq!(TxSize::Tx64x16 as u8, 18);
}

#[test]
fn tx_type_discriminants_match_c() {
    assert_eq!(TxType::DctDct as u8, 0);
    assert_eq!(TxType::Idtx as u8, 9);
    assert_eq!(TxType::HFlipAdst as u8, 15);
}

#[test]
fn tx_type_is_2d() {
    assert!(TxType::DctDct.is_2d());
    assert!(TxType::AdstAdst.is_2d());
    assert!(!TxType::Idtx.is_2d());
    assert!(!TxType::VDct.is_2d());
}

#[test]
fn tx_size_roundtrip() {
    for i in 0..TxSize::SIZES_ALL as u8 {
        assert!(TxSize::from_u8(i).is_some());
    }
    assert_eq!(TxSize::from_u8(19), None);
}
