use svtav1::entropy::cdf::{init_uniform_cdf, update_cdf, CDF_PROB_TOP};
use svtav1::entropy::range_coder::{ilog_nz, OdEcEnc};
use svtav1::entropy::tile::{compute_tile_boundaries, write_tile_group, TileConfig, TileData};
use svtav1::entropy::writer::AomWriter;

#[test]
fn update_cdf_binary() {
    let mut cdf = [CDF_PROB_TOP / 2, 0u16, 0u16];
    let initial = cdf[0];
    update_cdf(&mut cdf, 0, 2);
    assert!(cdf[0] < initial, "cdf[0] should decrease for val=0");
}

#[test]
fn update_cdf_converges() {
    let top = CDF_PROB_TOP as u32;
    let mut cdf = [(top * 3 / 4) as u16, (top * 2 / 4) as u16, (top / 4) as u16, 0u16, 0u16];
    for _ in 0..100 {
        update_cdf(&mut cdf, 0, 4);
    }
    assert!(cdf[0] < (top / 4) as u16, "cdf[0] should be small after many val=0 updates");
}

#[test]
fn init_uniform() {
    let mut cdf = [0u16; 5];
    init_uniform_cdf(&mut cdf, 4);
    assert_eq!(cdf[0], 32768);
    assert!(cdf[1] > 21000 && cdf[1] < 22000);
    assert!(cdf[2] > 10000 && cdf[2] < 11000);
    assert_eq!(cdf[4], 0);
}

#[test]
fn update_cdf_exact_first_step() {
    // rate = 4 + 0 + 1 for four symbols; entries at or above the symbol move toward 0.
    let mut cdf = [24576u16, 16384, 8192, 0, 0];
    update_cdf(&mut cdf, 1, 4);
    assert_eq!(cdf[0], 24576 + ((32768 - 24576) >> 5));
    assert_eq!(cdf[1], 16384 - (16384 >> 5));
    assert_eq!(cdf[2], 8192 - (8192 >> 5));
    assert_eq!(cdf[3], 1);
}

#[test]
fn new_encoder_state() {
    let enc = OdEcEnc::new(256);
    assert!(!enc.has_error());
    assert_eq!(enc.rng_val(), 0x8000);
    assert_eq!(enc.cnt_val(), -9);
}

#[test]
fn encode_bool_does_not_error() {
    let mut enc = OdEcEnc::new(1024);
    enc.encode_bool_q15(true, 16384);
    enc.encode_bool_q15(false, 16384);
    enc.encode_bool_q15(true, 8192);
    assert!(!enc.has_error());
}

#[test]
fn encode_produces_output() {
    let mut enc = OdEcEnc::new(1024);
    for _ in 0..100 {
        enc.encode_bool_q15(true, 16384);
    }
    let output = enc.done();
    assert!(!output.is_empty(), "encoder should produce output");
}

#[test]
fn ilog_nz_values() {
    assert_eq!(ilog_nz(1), 1);
    assert_eq!(ilog_nz(2), 2);
    assert_eq!(ilog_nz(3), 2);
    assert_eq!(ilog_nz(4), 3);
    assert_eq!(ilog_nz(255), 8);
    assert_eq!(ilog_nz(256), 9);
    assert_eq!(ilog_nz(32768), 16);
    assert_eq!(ilog_nz(65535), 16);
}

#[test]
fn reset_clears_state() {
    let mut enc = OdEcEnc::new(256);
    enc.encode_bool_q15(true, 16384);
    enc.reset();
    assert_eq!(enc.rng_val(), 0x8000);
    assert_eq!(enc.bytes_written(), 0);
}

#[test]
fn writer_literal() {
    let mut w = AomWriter::new(256);
    w.write_literal(0b1010, 4);
    let output = w.done();
    assert!(!output.is_empty());
}

#[test]
fn writer_symbol() {
    let mut w = AomWriter::new(256);
    let mut cdf = [24576u16, 16384, 8192, 0, 0];
    w.write_symbol(0, &mut cdf, 4);
    w.write_symbol(1, &mut cdf, 4);
    w.write_symbol(2, &mut cdf, 4);
    w.write_symbol(3, &mut cdf, 4);
    let output = w.done();
    assert!(!output.is_empty());
}

#[test]
fn writer_cdf_update() {
    let mut w = AomWriter::new(256);
    let mut cdf = [16384u16, 0, 0];
    let initial = cdf[0];
    w.write_symbol(0, &mut cdf, 2);
    assert!(cdf[0] < initial, "cdf[0] should decrease after val=0");
}

#[test]
fn writer_no_update_keeps_cdf() {
    let mut w = AomWriter::new(256);
    w.allow_update_cdf = false;
    let mut cdf = [16384u16, 0, 0];
    w.write_symbol(1, &mut cdf, 2);
    assert_eq!(cdf, [16384u16, 0, 0]);
}

#[test]
fn single_tile() {
    let config = TileConfig::single();
    assert_eq!(config.num_tiles(), 1);
}

#[test]
fn multi_tile() {
    let config = TileConfig::uniform(1, 1);
    assert_eq!(config.num_tiles(), 4);
}

#[test]
fn tile_boundaries_single() {
    let config = TileConfig::single();
    let bounds = compute_tile_boundaries(1920, 1080, 64, &config);
    assert_eq!(bounds.len(), 1);
    assert_eq!(bounds[0].col_start, 0);
    assert_eq!(bounds[0].col_end, 1920);
    assert_eq!(bounds[0].row_start, 0);
    assert_eq!(bounds[0].row_end, 1080);
}

#[test]
fn tile_boundaries_2x2() {
    let config = TileConfig::uniform(1, 1);
    let bounds = compute_tile_boundaries(128, 128, 64, &config);
    assert_eq!(bounds.len(), 4);
    assert_eq!(bounds[0].col_start, 0);
    assert_eq!(bounds[0].col_end, 64);
    assert_eq!(bounds[0].row_start, 0);
    assert_eq!(bounds[0].row_end, 64);
    assert_eq!(bounds[3].col_start, 64);
    assert_eq!(bounds[3].col_end, 128);
}

#[test]
fn write_single_tile_group() {
    let tiles = vec![TileData { tile_row: 0, tile_col: 0, data: vec![1, 2, 3, 4] }];
    let output = write_tile_group(&tiles);
    assert_eq!(output, vec![1, 2, 3, 4]);
}

#[test]
fn write_multi_tile_group() {
    let tiles = vec![
        TileData { tile_row: 0, tile_col: 0, data: vec![10, 20] },
        TileData { tile_row: 0, tile_col: 1, data: vec![30, 40, 50] },
    ];
    let output = write_tile_group(&tiles);
    assert_eq!(output.len(), 4 + 2 + 3);
    assert_eq!(&output[0..4], &2u32.to_le_bytes());
}

#[test]
fn tile_bounds_size() {
    let config = TileConfig::uniform(1, 0);
    let bounds = compute_tile_boundaries(200, 100, 64, &config);
    assert_eq!(bounds.len(), 2);
    assert_eq!(bounds[0].width(), 128);
    assert_eq!(bounds[1].width(), 72);
    assert_eq!(bounds[1].height(), 100);
}
