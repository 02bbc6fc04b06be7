use svtav1::dsp::loop_filter::{
    cdef_filter_block, cdef_find_dir, optimize_wiener_coefficients, sgrproj_filter, wiener_filter, SgrprojParams,
    deblock_horz, deblock_horz_wide, deblock_vert, deblock_vert_14tap,
    deblock_vert_wide,
};
use svtav1::encoder::pipeline::{
    cdef_frame_pass, deblock_frame, loop_filter_frame, sgr_frame_pass, wiener_frame_pass, write_frame_obus,
};
use svtav1::encoder::speed_config::SpeedConfig;
use svtav1::entropy::obu::{
    build_tile_group_single, write_inter_frame, write_key_frame_header_full, write_obu, write_sequence_header,
    write_sequence_header_full, write_temporal_delimiter, ObuType,
};

fn step_frame(w: usize, h: usize) -> Vec<u8> {
    let mut v = vec![0u8; w * h];
    for r in 0..h {
        for c in 0..w {
            let a = if c < 8 { 60 } else { 90 };
            let b = if r < 8 { 0 } else { 20 };
            v[r * w + c] = a + b + ((r * 3 + c) % 5) as u8;
        }
    }
    v
}

#[test]
fn deblock_frame_runs_wide_filters_on_interior_edges() {
    // qp 30: level 45, threshold 94; the edges at 8 are not superblock edges, so the
    // 8-tap filters run on them.
    let mut frame = step_frame(16, 16);
    let mut expected = frame.clone();
    deblock_frame(&mut frame, 16, 16, 30, 64);
    deblock_vert_wide(&mut expected, 16, 45, 94, 8, 16);
    deblock_horz_wide(&mut expected, 16, 45, 94, 8, 16);
    assert_eq!(frame, expected);
    assert_ne!(frame, step_frame(16, 16));
}

#[test]
fn deblock_frame_superblock_edges_use_14_taps() {
    // sb_size 8 makes the edges at 8 superblock edges; qp 40 asks for 14 taps there.
    let mut frame = step_frame(16, 16);
    let mut expected = frame.clone();
    deblock_frame(&mut frame, 16, 16, 40, 8);
    // level at qp 40: 47 + 9 = 56; threshold min(116, 127) = 116.
    deblock_vert_14tap(&mut expected, 16, 56, 116, 8, 16);
    // Horizontal edges have no 14-tap filter: a 14-tap size falls back to 4 taps.
    deblock_horz(&mut expected, 16, 56, 116, 8, 16);
    assert_eq!(frame, expected);
}

#[test]
fn deblock_frame_low_qp_uses_four_taps() {
    // qp 5: level 5, threshold 14, size 4 off superblock edges.
    let mut frame = step_frame(24, 16);
    let mut expected = frame.clone();
    deblock_frame(&mut frame, 24, 16, 5, 64);
    deblock_vert(&mut expected, 24, 5, 14, 8, 16);
    deblock_vert(&mut expected, 24, 5, 14, 16, 16);
    deblock_horz(&mut expected, 24, 5, 14, 8, 24);
    assert_eq!(frame, expected);
}

#[test]
fn deblock_frame_qp0_and_flat_frames_are_unchanged() {
    let before = step_frame(16, 16);
    let mut frame = before.clone();
    deblock_frame(&mut frame, 16, 16, 0, 64);
    assert_eq!(frame, before);

    let mut flat = vec![77u8; 32 * 24];
    deblock_frame(&mut flat, 32, 24, 50, 16);
    assert!(flat.iter().all(|&p| p == 77));
}

#[test]
fn frame_obus_key_frame_layout() {
    let tile = [9u8, 8, 7];
    let got = write_frame_obus(true, false, 64, 48, 100, 0xff, 0, &tile);
    let mut expected = write_temporal_delimiter();
    expected.extend_from_slice(&write_sequence_header_full(64, 48));
    let mut payload = write_key_frame_header_full(64, 48, 100, false);
    payload.extend_from_slice(&build_tile_group_single(&tile));
    expected.extend_from_slice(&write_obu(ObuType::Frame, &payload));
    assert_eq!(got, expected);

    let still = write_frame_obus(true, true, 64, 48, 100, 0xff, 0, &tile);
    let mut expected_still = write_temporal_delimiter();
    expected_still.extend_from_slice(&write_sequence_header(64, 48));
    let mut payload_still = write_key_frame_header_full(64, 48, 100, true);
    payload_still.extend_from_slice(&build_tile_group_single(&tile));
    expected_still.extend_from_slice(&write_obu(ObuType::Frame, &payload_still));
    assert_eq!(still, expected_still);
}

#[test]
fn frame_obus_inter_frame_is_one_frame_obu() {
    let tile = [1u8, 2, 3, 4];
    assert_eq!(write_frame_obus(false, false, 64, 48, 90, 0x01, 5, &tile), write_inter_frame(90, 0x01, 5, &tile));
    // A temporal delimiter (type 2) starts only key frames.
    assert_eq!(write_frame_obus(true, false, 64, 48, 90, 0x01, 5, &tile)[0], 0x12);
    assert_ne!(write_frame_obus(false, false, 64, 48, 90, 0x01, 5, &tile)[0], 0x12);
}

fn textured(w: usize, h: usize) -> Vec<u8> {
    (0..w * h).map(|i| ((i * 37 + (i / w) * 11) % 200) as u8 + 20).collect()
}

#[test]
fn cdef_frame_pass_filters_each_complete_block() {
    let (w, h) = (20usize, 12usize);
    let recon = textured(w, h);
    let got = cdef_frame_pass(&recon, w, h, 40);
    // qp 40: primary 5, secondary 2, damping 5; blocks at (0, 0) and (8, 0) are complete.
    let mut expected = recon.clone();
    for &(x0, y0) in &[(0usize, 0usize), (8, 0)] {
        let off = y0 * w + x0;
        let (dir, _) = cdef_find_dir(&recon[off..], w);
        cdef_filter_block(&recon[off..], w, &mut expected[off..], w, dir, 5, 2, 5, 8, 8);
    }
    assert_eq!(got, expected);
    // The incomplete blocks (right four columns, bottom four rows) are untouched.
    for r in 0..h {
        for c in 0..w {
            if c >= 16 || r >= 8 {
                assert_eq!(got[r * w + c], recon[r * w + c]);
            }
        }
    }
}

#[test]
fn cdef_frame_pass_flat_and_qp0() {
    let flat = vec![140u8; 24 * 16];
    assert_eq!(cdef_frame_pass(&flat, 24, 16, 63), flat);
    // qp 0: both strengths 0, the filter copies its input.
    let recon = textured(16, 16);
    assert_eq!(cdef_frame_pass(&recon, 16, 16, 0), recon);
}

#[test]
fn wiener_frame_pass_uses_the_optimized_kernel() {
    let (w, h) = (16usize, 12usize);
    let source = textured(w, h);
    let recon: Vec<u8> = source.iter().map(|&p| p.saturating_add(9)).collect();
    let got = wiener_frame_pass(&source, &recon, w, h);
    let (hc, vc) = optimize_wiener_coefficients(&source, w, &recon, w, w, h);
    let mut expected = recon.clone();
    wiener_filter(&recon, w, &mut expected, w, w, h, hc, vc);
    assert_eq!(got, expected);
}

#[test]
fn sgr_frame_pass_uses_quantizer_strengths() {
    let (w, h) = (16usize, 16usize);
    let recon = textured(w, h);
    let got = sgr_frame_pass(&recon, w, h, 120);
    // qp 120: strengths min(70, 100) = 70 and min(35, 50) = 35.
    let params = SgrprojParams { r0: 2, r1: 1, s0: 70, s1: 35, xqd: [32, 32] };
    let mut expected = recon.clone();
    sgrproj_filter(&recon, w, &mut expected, w, w, h, &params);
    assert_eq!(got, expected);
    let got_hi = sgr_frame_pass(&recon, w, h, 250);
    let params_hi = SgrprojParams { r0: 2, r1: 1, s0: 100, s1: 50, xqd: [32, 32] };
    let mut expected_hi = recon.clone();
    sgrproj_filter(&recon, w, &mut expected_hi, w, w, h, &params_hi);
    assert_eq!(got_hi, expected_hi);
}

#[test]
fn loop_filter_frame_chains_the_enabled_filters() {
    let (w, h) = (24usize, 16usize);
    let source = textured(w, h);
    let recon = step_frame(w, h);
    let mut sc = SpeedConfig::from_preset(4);
    sc.enable_cdef = true;
    sc.enable_restoration = true;
    let got = loop_filter_frame(&source, recon.clone(), w, h, 30, 64, &sc);
    let mut expected = recon.clone();
    deblock_frame(&mut expected, w, h, 30, 64);
    let expected = cdef_frame_pass(&expected, w, h, 30);
    let expected = wiener_frame_pass(&source, &expected, w, h);
    let expected = sgr_frame_pass(&expected, w, h, 30);
    assert_eq!(got, expected);

    sc.enable_cdef = false;
    sc.enable_restoration = false;
    let only_deblock = loop_filter_frame(&source, recon.clone(), w, h, 30, 64, &sc);
    let mut expected2 = recon.clone();
    deblock_frame(&mut expected2, w, h, 30, 64);
    assert_eq!(only_deblock, expected2);

    // Restoration without self-guided filtering above preset 6.
    let mut fast = SpeedConfig::from_preset(10);
    fast.enable_cdef = false;
    fast.enable_restoration = true;
    let got_fast = loop_filter_frame(&source, recon.clone(), w, h, 30, 64, &fast);
    let mut expected3 = recon.clone();
    deblock_frame(&mut expected3, w, h, 30, 64);
    assert_eq!(got_fast, wiener_frame_pass(&source, &expected3, w, h));
}
