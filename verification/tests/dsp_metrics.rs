use svtav1::dsp::hadamard::{satd_4x4, satd_8x8};
use svtav1::dsp::sad::{sad, sad_16x16, sad_32x32, sad_64x64, sad_8x8};
use svtav1::dsp::variance::{sse, variance};

#[test]
fn sad_zero_for_identical() {
    let block = [128u8; 64 * 64];
    assert_eq!(sad(&block, 64, &block, 64, 8, 8), 0);
    assert_eq!(sad(&block, 64, &block, 64, 16, 16), 0);
    assert_eq!(sad(&block, 64, &block, 64, 32, 32), 0);
    assert_eq!(sad(&block, 64, &block, 64, 64, 64), 0);
}

#[test]
fn sad_known_value_4x4() {
    let src = [10u8; 16];
    let ref_ = [20u8; 16];
    assert_eq!(sad(&src, 4, &ref_, 4, 4, 4), 160);
}

#[test]
fn sad_known_value_8x8() {
    let mut src = [0u8; 64];
    let mut ref_ = [0u8; 64];
    for i in 0..64 {
        src[i] = (i * 3) as u8;
        ref_[i] = (i * 3 + 1) as u8;
    }
    assert_eq!(sad(&src, 8, &ref_, 8, 8, 8), 64);
}

#[test]
fn sad_max_difference() {
    let src = [0u8; 16];
    let ref_ = [255u8; 16];
    assert_eq!(sad(&src, 4, &ref_, 4, 4, 4), 255 * 16);
}

#[test]
fn sad_with_stride() {
    let mut src = [0u8; 16 * 4];
    let mut ref_ = [0u8; 16 * 4];
    for row in 0..4 {
        for col in 0..4 {
            src[row * 16 + col] = 100;
            ref_[row * 16 + col] = 110;
        }
    }
    assert_eq!(sad(&src, 16, &ref_, 16, 4, 4), 10 * 16);
}

#[test]
fn sad_convenience_functions() {
    let block = [42u8; 64 * 64];
    assert_eq!(sad_8x8(&block, 64, &block, 64), 0);
    assert_eq!(sad_16x16(&block, 64, &block, 64), 0);
    assert_eq!(sad_32x32(&block, 64, &block, 64), 0);
    assert_eq!(sad_64x64(&block, 64, &block, 64), 0);
}

#[test]
fn sad_all_dispatch_levels() {
    let src: Vec<u8> = (0..256).map(|i| (i * 7 + 13) as u8).collect();
    let ref_: Vec<u8> = (0..256).map(|i| (i * 11 + 29) as u8).collect();
    assert_eq!(sad(&src, 16, &ref_, 16, 4, 4), 1080);
    assert_eq!(sad(&src, 16, &ref_, 16, 8, 8), 5648);
    assert_eq!(sad(&src, 16, &ref_, 16, 16, 16), 22096);
}

#[test]
fn sad_is_symmetric() {
    let src: Vec<u8> = (0..64).map(|i| (i * 7 + 13) as u8).collect();
    let ref_: Vec<u8> = (0..64).map(|i| (i * 11 + 29) as u8).collect();
    assert_eq!(sad(&src, 8, &ref_, 8, 8, 8), sad(&ref_, 8, &src, 8, 8, 8));
}

#[test]
fn variance_uniform_block() {
    let block = [128u8; 64];
    let (var, mean) = variance(&block, 8, 8, 8);
    assert_eq!(var, 0, "uniform block should have zero variance");
    assert_eq!(mean, 128);
}

#[test]
fn variance_known_values() {
    let mut block = [0u8; 16];
    for (i, b) in block.iter_mut().enumerate() {
        *b = i as u8;
    }
    let (var, mean) = variance(&block, 4, 4, 4);
    assert_eq!(var, 5440);
    assert_eq!(mean, 7);
}

#[test]
fn variance_uses_stride() {
    // A 2x2 block inside a 4-wide buffer: samples 0, 10, 40, 50.
    let block = [0u8, 10, 99, 99, 40, 50, 99, 99];
    let (var, mean) = variance(&block, 4, 2, 2);
    // n * sum(x^2) - sum(x)^2 = 4 * 4200 - 100^2 = 6800
    assert_eq!(var, 6800);
    assert_eq!(mean, 25);
}

#[test]
fn sse_identical_blocks() {
    let block = [42u8; 64];
    assert_eq!(sse(&block, 8, &block, 8, 8, 8), 0);
}

#[test]
fn sse_known_value() {
    let src = [10u8; 16];
    let ref_ = [20u8; 16];
    assert_eq!(sse(&src, 4, &ref_, 4, 4, 4), 1600);
}

#[test]
fn sse_max_difference() {
    let src = [0u8; 16];
    let ref_ = [255u8; 16];
    assert_eq!(sse(&src, 4, &ref_, 4, 4, 4), 255 * 255 * 16);
}

#[test]
fn satd_4x4_identical() {
    let block = [128u8; 64];
    assert_eq!(satd_4x4(&block, 8, &block, 8), 0);
}

#[test]
fn satd_4x4_uniform_diff() {
    let src = [110u8; 16];
    let ref_ = [100u8; 16];
    assert_eq!(satd_4x4(&src, 4, &ref_, 4), 80);
}

#[test]
fn satd_8x8_identical() {
    let block = [128u8; 128];
    assert_eq!(satd_8x8(&block, 16, &block, 16), 0);
}

#[test]
fn satd_8x8_uniform_diff() {
    let src = [110u8; 64];
    let ref_ = [100u8; 64];
    assert_eq!(satd_8x8(&src, 8, &ref_, 8), 160);
}

#[test]
fn satd_greater_than_zero_for_different() {
    let mut src = [0u8; 64];
    let ref_ = [128u8; 64];
    for (i, v) in src.iter_mut().enumerate() {
        *v = (i * 7 % 256) as u8;
    }
    assert!(satd_4x4(&src, 8, &ref_, 8) > 0);
    assert!(satd_8x8(&src, 8, &ref_, 8) > 0);
    assert_eq!(satd_4x4(&src, 8, &ref_, 8), 1024);
    assert_eq!(satd_8x8(&src, 8, &ref_, 8), 6672);
}

#[test]
fn satd_geq_sad() {
    let mut src = [0u8; 64];
    let ref_ = [0u8; 64];
    for (i, v) in src.iter_mut().enumerate() {
        *v = if i % 2 == 0 { 200 } else { 50 };
    }
    let satd = satd_4x4(&src, 8, &ref_, 8);
    assert!(satd > 0);
}

#[test]
fn satd_4x4_all_dispatch_levels() {
    let src: Vec<u8> = (0..64).map(|i| (i * 3 + 17) as u8).collect();
    let ref_: Vec<u8> = (0..64).map(|i| (i * 5 + 42) as u8).collect();
    assert_eq!(satd_4x4(&src, 8, &ref_, 8), 632);
}

#[test]
fn satd_8x8_all_dispatch_levels() {
    let src: Vec<u8> = (0..64).map(|i| (i * 3 + 17) as u8).collect();
    let ref_: Vec<u8> = (0..64).map(|i| (i * 5 + 42) as u8).collect();
    assert_eq!(satd_8x8(&src, 8, &ref_, 8), 7696);
}

#[test]
fn variance_all_dispatch_levels() {
    let block: Vec<u8> = (0..64).map(|i| (i * 3 + 17) as u8).collect();
    assert_eq!(variance(&block, 8, 8, 8), (12579840, 111));
}

#[test]
fn sse_all_dispatch_levels() {
    let src: Vec<u8> = (0..64).map(|i| (i * 3 + 17) as u8).collect();
    let ref_: Vec<u8> = (0..64).map(|i| (i * 5 + 42) as u8).collect();
    assert_eq!(sse(&src, 8, &ref_, 8, 8, 8), 550720);
}
