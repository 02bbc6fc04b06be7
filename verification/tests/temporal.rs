use svtav1::encoder::temporal_filter::{laplacian_stats, temporal_filter_weighted, tf_weights_fit};

#[test]
fn temporal_identical_frames_unchanged() {
    let center = vec![128u8; 16];
    let r1 = vec![128u8; 16];
    let r2 = vec![128u8; 16];
    let refs: Vec<&[u8]> = vec![&r1, &r2];
    let res = temporal_filter_weighted(&center, &refs, 4, 4, 4, 4);
    assert_eq!(res.width, 4);
    assert_eq!(res.height, 4);
    assert!(res.filtered.iter().all(|&v| v == 128));
}

#[test]
fn temporal_outlier_pulled_toward_refs() {
    let mut center = vec![128u8; 16];
    center[0] = 150;
    let r = vec![128u8; 16];
    let refs: Vec<&[u8]> = vec![&r, &r, &r];
    let res = temporal_filter_weighted(&center, &refs, 4, 4, 4, 4);
    // Diff 22: half weight 2 per reference; (16*150 + 3*2*128 + 11) / 22.
    assert_eq!(res.filtered[0], 144);
    assert!(res.filtered[1..].iter().all(|&v| v == 128));
}

#[test]
fn temporal_zero_weight_keeps_center() {
    let center: Vec<u8> = (0..16).map(|i| (i * 9) as u8).collect();
    let r = vec![0u8; 16];
    let refs: Vec<&[u8]> = vec![&r];
    let res = temporal_filter_weighted(&center, &refs, 4, 4, 4, 0);
    assert_eq!(res.filtered, center);
}

#[test]
fn laplacian_flat_frame() {
    let frame = vec![77u8; 64 * 64];
    assert_eq!(laplacian_stats(&frame, 64, 64, 64), (0, 3844));
}

#[test]
fn laplacian_single_spike() {
    let mut frame = vec![0u8; 25];
    frame[12] = 10;
    // Center response 40, four neighbours 10 each, over 9 interior samples.
    assert_eq!(laplacian_stats(&frame, 5, 5, 5), (80, 9));
}

#[test]
fn temporal_weights_fit_detects_overflow() {
    let center = vec![255u8; 16];
    let r = vec![255u8; 16];
    let few: Vec<&[u8]> = vec![&r, &r, &r];
    assert!(tf_weights_fit(&center, &few, 4, 4, 4, 8));
    // 16 * 255 + 31 * 8 * 255 plus half the weight exceeds 16 bits.
    let many: Vec<&[u8]> = (0..31).map(|_| r.as_slice()).collect();
    assert!(!tf_weights_fit(&center, &many, 4, 4, 4, 8));
    // Weight zero: only the center counts.
    assert!(tf_weights_fit(&center, &many, 4, 4, 4, 0));
}
