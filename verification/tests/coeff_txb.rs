use svtav1::entropy::coeff::{write_coefficients_v2, write_golomb, CdfCoefCtx};
use svtav1::entropy::writer::AomWriter;

fn uniform_row<const N: usize>(nsyms: usize) -> [u16; N] {
    let mut row = [0u16; N];
    for i in 0..nsyms - 1 {
        row[i] = (32768 * (nsyms - 1 - i) / nsyms) as u16;
    }
    row
}

fn uniform_ctx() -> CdfCoefCtx {
    let mut eob_bin = [[0u16; 12]; 7];
    for (k, row) in eob_bin.iter_mut().enumerate() {
        *row = uniform_row::<12>(5 + k);
    }
    CdfCoefCtx {
        skip: [uniform_row::<3>(2); 65],
        dc_sign: [uniform_row::<3>(2); 3],
        eob_bin,
        eob_hi_bit: [uniform_row::<3>(2); 55],
        eob_base_tok: [uniform_row::<4>(3); 20],
        base_tok: [uniform_row::<5>(4); 205],
        br_tok: [uniform_row::<5>(4); 84],
        txtp_intra2: [[[26214, 19661, 13107, 6554, 0, 0]; 13]; 3],
        txtp_intra1: [[[28087, 23406, 18725, 14043, 9362, 4681, 0, 0]; 13]; 2],
    }
}

#[test]
fn v2_write_zero_block_4x4() {
    let mut w = AomWriter::new(256);
    let mut cdf = uniform_ctx();
    let coeffs = [0i32; 16];
    write_coefficients_v2(&mut w, &coeffs, 0, 4, 4, 0, 1, 0, &mut cdf);
    let output = w.done();
    assert!(!output.is_empty(), "zero block should produce output");
}

#[test]
fn v2_write_dc_only_4x4() {
    let mut w = AomWriter::new(256);
    let mut cdf = uniform_ctx();
    let mut coeffs = [0i32; 16];
    coeffs[0] = 42;
    write_coefficients_v2(&mut w, &coeffs, 1, 4, 4, 0, 1, 0, &mut cdf);
    let output = w.done();
    assert!(!output.is_empty(), "dc-only block should produce output");
}

#[test]
fn v2_write_multiple_coeffs_4x4() {
    let mut w = AomWriter::new(1024);
    let mut cdf = uniform_ctx();
    let coeffs = [500, -300, 200, -100, 50, -25, 10, -5, 3, -1, 0, 0, 0, 0, 0, 0];
    write_coefficients_v2(&mut w, &coeffs, 10, 4, 4, 0, 1, 0, &mut cdf);
    let output = w.done();
    assert!(output.len() > 5, "multiple coeffs should produce substantial output, got {} bytes", output.len());
}

#[test]
fn v2_write_8x8_block() {
    let mut w = AomWriter::new(2048);
    let mut cdf = uniform_ctx();
    let mut coeffs = [0i32; 64];
    coeffs[0] = 1000;
    coeffs[1] = -500;
    coeffs[8] = 200;
    coeffs[9] = -100;
    write_coefficients_v2(&mut w, &coeffs, 4, 8, 8, 0, 1, 0, &mut cdf);
    let output = w.done();
    assert!(!output.is_empty(), "8x8 block should produce output");
}

#[test]
fn v2_write_16x16_block() {
    let mut w = AomWriter::new(4096);
    let mut cdf = uniform_ctx();
    let mut coeffs = [0i32; 256];
    coeffs[0] = 2000;
    coeffs[1] = -1000;
    coeffs[16] = 500;
    coeffs[17] = -200;
    coeffs[32] = 100;
    write_coefficients_v2(&mut w, &coeffs, 5, 16, 16, 0, 1, 0, &mut cdf);
    let output = w.done();
    assert!(!output.is_empty(), "16x16 block should produce output");
}

#[test]
fn v2_write_32x32_block() {
    let mut w = AomWriter::new(8192);
    let mut cdf = uniform_ctx();
    let mut coeffs = [0i32; 1024];
    coeffs[0] = 5000;
    coeffs[1] = -2000;
    coeffs[32] = 1000;
    write_coefficients_v2(&mut w, &coeffs, 3, 32, 32, 0, 1, 0, &mut cdf);
    let output = w.done();
    assert!(!output.is_empty(), "32x32 block should produce output");
}

#[test]
fn v2_negative_dc_sign() {
    let mut w = AomWriter::new(256);
    let mut cdf = uniform_ctx();
    let mut coeffs = [0i32; 16];
    coeffs[0] = -42;
    write_coefficients_v2(&mut w, &coeffs, 1, 4, 4, 0, 1, 0, &mut cdf);
    let output = w.done();
    assert!(!output.is_empty());
}

#[test]
fn v2_large_coefficient_golomb() {
    let mut w = AomWriter::new(1024);
    let mut cdf = uniform_ctx();
    let mut coeffs = [0i32; 16];
    coeffs[0] = 100;
    write_coefficients_v2(&mut w, &coeffs, 1, 4, 4, 0, 1, 0, &mut cdf);
    let output = w.done();
    assert!(!output.is_empty(), "large coefficient should be encodable");
}

#[test]
fn v2_zero_block_is_one_skip_symbol() {
    let mut w = AomWriter::new(256);
    let mut cdf = uniform_ctx();
    write_coefficients_v2(&mut w, &[0i32; 16], 0, 4, 4, 3, 1, 0, &mut cdf);
    let got = w.done().to_vec();

    let mut m = AomWriter::new(256);
    let mut row = uniform_row::<3>(2);
    m.write_symbol(1, &mut row, 2);
    assert_eq!(got, m.done().to_vec());
    assert_eq!(cdf.skip[3], row);
}

#[test]
fn v2_dc_only_symbol_order() {
    // A 4x4 block with only DC = 42: skip, transform type, end-of-block class 0,
    // end-of-block token 3+ with four range tokens, DC sign, Golomb residual 27.
    let mut w = AomWriter::new(256);
    let mut cdf = uniform_ctx();
    let mut coeffs = [0i32; 16];
    coeffs[0] = 42;
    write_coefficients_v2(&mut w, &coeffs, 1, 4, 4, 0, 2, 0, &mut cdf);
    let got = w.done().to_vec();

    let base = uniform_ctx();
    let mut m = AomWriter::new(256);
    let mut skip = base.skip[0];
    m.write_symbol(0, &mut skip, 2);
    let mut txtp = base.txtp_intra1[0][0];
    m.write_symbol(1, &mut txtp, 7);
    let mut bin = base.eob_bin[0];
    m.write_symbol(0, &mut bin, 5);
    let mut ebase = base.eob_base_tok[1];
    m.write_symbol(2, &mut ebase, 3);
    let mut br = base.br_tok[7];
    for _ in 0..4 {
        m.write_symbol(3, &mut br, 4);
    }
    let mut dc = base.dc_sign[2];
    m.write_symbol(0, &mut dc, 2);
    write_golomb(&mut m, 27);
    assert_eq!(got, m.done().to_vec());
    assert_eq!(cdf.br_tok[7], br);
    assert_eq!(cdf.eob_base_tok[1], ebase);
    assert_eq!(cdf.txtp_intra1[0][0], txtp);
}

#[test]
fn v2_large_blocks_skip_transform_type() {
    // A 32x32 block codes no transform type: DC = -1 gives skip, class 0, token 1,
    // DC sign 1.
    let mut w = AomWriter::new(256);
    let mut cdf = uniform_ctx();
    let mut coeffs = vec![0i32; 1024];
    coeffs[0] = -1;
    write_coefficients_v2(&mut w, &coeffs, 1, 32, 32, 0, 0, 0, &mut cdf);
    let got = w.done().to_vec();

    let base = uniform_ctx();
    let mut m = AomWriter::new(256);
    // 32x32: size logarithms 3 and 3, so the size context is min((3 + 3 + 1) / 2, 4) = 3.
    let mut skip = base.skip[3 * 13];
    m.write_symbol(0, &mut skip, 2);
    let mut bin = base.eob_bin[6];
    m.write_symbol(0, &mut bin, 11);
    let mut ebase = base.eob_base_tok[3 * 4 + 1];
    m.write_symbol(0, &mut ebase, 3);
    let mut dc = base.dc_sign[0];
    m.write_symbol(1, &mut dc, 2);
    assert_eq!(got, m.done().to_vec());
}

#[test]
fn v2_all_zero_scan_area_codes_only_header() {
    // eob > 0 but every coefficient zero: skip flag 0 and the transform type only.
    let mut w = AomWriter::new(256);
    let mut cdf = uniform_ctx();
    write_coefficients_v2(&mut w, &[0i32; 16], 5, 4, 4, 0, 0, 20, &mut cdf);
    let got = w.done().to_vec();

    let base = uniform_ctx();
    let mut m = AomWriter::new(256);
    let mut skip = base.skip[0];
    m.write_symbol(0, &mut skip, 2);
    let mut txtp = base.txtp_intra1[0][12];
    m.write_symbol(1, &mut txtp, 7);
    assert_eq!(got, m.done().to_vec());
}

#[test]
fn cdf_coef_ctx_accessors_reach_their_rows() {
    let mut cdf = uniform_ctx();
    cdf.skip_cdf(1, 2)[0] = 1000;
    assert_eq!(cdf.skip[15][0], 1000);
    cdf.dc_sign_cdf(2)[0] = 2000;
    assert_eq!(cdf.dc_sign[2][0], 2000);
    assert_eq!(cdf.eob_bin_cdf(6).len(), 12);
    cdf.eob_hi_bit_cdf(2, 5)[0] = 3000;
    assert_eq!(cdf.eob_hi_bit[27][0], 3000);
    cdf.eob_base_tok_cdf(3, 2)[1] = 4000;
    assert_eq!(cdf.eob_base_tok[14][1], 4000);
    cdf.base_tok_cdf(4, 40)[2] = 5000;
    assert_eq!(cdf.base_tok[204][2], 5000);
    cdf.br_tok_cdf(3, 20)[0] = 6000;
    assert_eq!(cdf.br_tok[83][0], 6000);
}

#[test]
fn cdf_coef_ctx_accessor_adapts_in_place() {
    let mut cdf = uniform_ctx();
    let mut w = AomWriter::new(64);
    w.write_symbol(1, cdf.skip_cdf(0, 0), 2);
    assert!(cdf.skip[0][0] > 16384);
    assert_eq!(cdf.skip[0][1], 1);
    assert_eq!(cdf.skip[1], uniform_row::<3>(2));
}
