use svtav1::encoder::partition::{
    extract_neighbors, generate_inter_pred, FrameReconCtx, PartitionSearchConfig, PartitionType, RefFrameCtx,
};
use svtav1::encoder::speed_config::SpeedConfig;
use svtav1::types::motion::Mv;

#[test]
fn extract_neighbors_frame_edge() {
    let frame = vec![100u8; 64 * 64];
    let ctx = FrameReconCtx { buf: &frame, stride: 64, sb_x: 0, sb_y: 0 };
    let (above, left, tl, has_above, has_left) = extract_neighbors(Some(&ctx), 0, 0, 8, 8);
    assert!(!has_above);
    assert!(!has_left);
    assert!(above.iter().all(|&v| v == 128));
    assert!(left.iter().all(|&v| v == 128));
    assert_eq!(tl, 128);
}

#[test]
fn extract_neighbors_cross_sb() {
    let w = 128;
    let h = 128;
    let mut frame = vec![0u8; w * h];
    for r in 0..64 {
        for c in 0..w {
            frame[r * w + c] = ((r + c) % 256) as u8;
        }
    }
    let ctx = FrameReconCtx { buf: &frame, stride: w, sb_x: 0, sb_y: 64 };
    let (above, _left, _tl, has_above, has_left) = extract_neighbors(Some(&ctx), 0, 64, 8, 8);
    assert!(has_above);
    assert!(!has_left);
    for i in 0..8 {
        assert_eq!(above[i], ((63 + i) % 256) as u8);
    }
}

#[test]
fn extract_neighbors_left_sb() {
    let w = 128;
    let h = 64;
    let mut frame = vec![0u8; w * h];
    for r in 0..h {
        for c in 0..64 {
            frame[r * w + c] = ((r * 2 + c) % 256) as u8;
        }
    }
    let ctx = FrameReconCtx { buf: &frame, stride: w, sb_x: 64, sb_y: 0 };
    let (_above, left, _tl, _has_above, has_left) = extract_neighbors(Some(&ctx), 64, 0, 8, 8);
    assert!(has_left);
    for i in 0..8 {
        assert_eq!(left[i], ((i * 2 + 63) % 256) as u8);
    }
}

#[test]
fn extract_neighbors_none_ctx() {
    let (above, left, tl, has_above, has_left) = extract_neighbors(None, 32, 32, 8, 8);
    assert!(has_above);
    assert!(has_left);
    assert!(above.iter().all(|&v| v == 128));
    assert!(left.iter().all(|&v| v == 128));
    assert_eq!(tl, 128);
}

#[test]
fn extract_neighbors_inside_current_sb_is_gray() {
    // Block inside the current superblock: neither neighbour is final yet.
    let frame = vec![7u8; 64 * 64];
    let ctx = FrameReconCtx { buf: &frame, stride: 64, sb_x: 0, sb_y: 0 };
    let (above, left, tl, has_above, has_left) = extract_neighbors(Some(&ctx), 8, 8, 4, 4);
    assert!(has_above && has_left);
    assert_eq!(above, vec![128; 4]);
    assert_eq!(left, vec![128; 4]);
    assert_eq!(tl, 128);
    // The corner comes from the frame once the above row is final.
    let ctx = FrameReconCtx { buf: &frame, stride: 64, sb_x: 0, sb_y: 8 };
    let (above, _left, tl, _, _) = extract_neighbors(Some(&ctx), 8, 8, 4, 4);
    assert_eq!(above, vec![7; 4]);
    assert_eq!(tl, 7);
}

#[test]
fn partition_config_from_speed() {
    let full = PartitionSearchConfig::full();
    assert_eq!(full.max_intra_candidates, 13);
    assert!(full.enable_ext_partitions && full.enable_4to1_partitions && full.enable_filter_intra);
    let sc = SpeedConfig::from_preset(7);
    let cfg = PartitionSearchConfig::from_speed_config(&sc);
    assert!(cfg.enable_ext_partitions);
    assert!(!cfg.enable_4to1_partitions);
    assert_eq!(cfg.max_intra_candidates, sc.max_intra_candidates as usize);
    let sc = SpeedConfig::from_preset(10);
    let cfg = PartitionSearchConfig::from_speed_config(&sc);
    assert!(!cfg.enable_ext_partitions);
    assert_eq!(PartitionType::default(), PartitionType::NoSplit);
}

fn ctx_with_map<'a>(plane: &'a [u8], map: &'a [Mv]) -> RefFrameCtx<'a> {
    RefFrameCtx { y_plane: plane, stride: 8, pic_width: 8, pic_height: 8, mv_map: Some(map), mv_map_stride: 2 }
}

#[test]
fn mv_predictor_cases() {
    let plane = vec![0u8; 64];
    let none = RefFrameCtx { y_plane: &plane, stride: 8, pic_width: 8, pic_height: 8, mv_map: None, mv_map_stride: 2 };
    assert_eq!(none.get_mv_predictor(8, 8), Mv::zero());
    let zero = Mv::zero();
    let map = [zero, Mv { x: 4, y: 6 }, zero, zero];
    assert_eq!(ctx_with_map(&plane, &map).get_mv_predictor(8, 8), Mv { x: 4, y: 6 });
    let map = [zero, Mv { x: -3, y: 5 }, Mv { x: -2, y: 0 }, zero];
    assert_eq!(ctx_with_map(&plane, &map).get_mv_predictor(8, 8), Mv { x: -2, y: 2 });
    let map = [Mv { x: 5, y: -3 }, Mv { x: 10, y: 1 }, Mv { x: 2, y: 7 }, zero];
    assert_eq!(ctx_with_map(&plane, &map).get_mv_predictor(8, 8), Mv { x: 5, y: 1 });
    // Top-left block: no neighbours.
    assert_eq!(ctx_with_map(&plane, &map).get_mv_predictor(0, 0), Mv::zero());
    let zero_stride = RefFrameCtx { mv_map_stride: 0, ..ctx_with_map(&plane, &map) };
    assert_eq!(zero_stride.get_mv_predictor(8, 8), Mv::zero());
}

#[test]
fn inter_pred_full_and_half_pel() {
    let plane: Vec<u8> = (0..64).map(|i| (i * 4) as u8).collect();
    let rfc = RefFrameCtx { y_plane: &plane, stride: 8, pic_width: 8, pic_height: 8, mv_map: None, mv_map_stride: 0 };
    assert_eq!(generate_inter_pred(&rfc, Mv::zero(), 1, 1, 2, 2), vec![36, 40, 68, 72]);
    assert_eq!(generate_inter_pred(&rfc, Mv { x: 4, y: 0 }, 1, 1, 1, 1), vec![38]);
    assert_eq!(generate_inter_pred(&rfc, Mv { x: -4, y: 0 }, 2, 1, 1, 1), vec![38]);
    // (36 * 4 + 68 * 4 + 4) >> 3 = 52 vertically; both: ((4*36+4*40)*4 + (4*68+4*72)*4 + 32) >> 6 = 54.
    assert_eq!(generate_inter_pred(&rfc, Mv { x: 0, y: 4 }, 1, 1, 1, 1), vec![52]);
    assert_eq!(generate_inter_pred(&rfc, Mv { x: 4, y: 4 }, 1, 1, 1, 1), vec![54]);
    // Samples whose right or lower neighbour leaves the picture stay mid-gray.
    assert_eq!(generate_inter_pred(&rfc, Mv::zero(), 7, 0, 1, 1), vec![128]);
}
