use svtav1::tables::interp::{BILINEAR_FILTERS, SUB_PEL_FILTERS_8, SUB_PEL_FILTERS_8SHARP, SUB_PEL_FILTERS_8SMOOTH};
use svtav1::tables::scan::{DEFAULT_SCAN_4X4, DEFAULT_SCAN_8X8, MCOL_SCAN_4X4, MROW_SCAN_4X4};

#[test]
fn filter_taps_sum_to_128() {
    for (name, filters) in [
        ("regular", &SUB_PEL_FILTERS_8),
        ("sharp", &SUB_PEL_FILTERS_8SHARP),
        ("smooth", &SUB_PEL_FILTERS_8SMOOTH),
        ("bilinear", &BILINEAR_FILTERS),
    ] {
        for (phase, kernel) in filters.iter().enumerate() {
            let sum: i16 = kernel.iter().sum();
            assert_eq!(sum, 128, "{name} filter phase {phase}: taps sum to {sum}, expected 128");
        }
    }
}

#[test]
fn phase_zero_is_identity() {
    for filters in [&SUB_PEL_FILTERS_8, &SUB_PEL_FILTERS_8SHARP, &SUB_PEL_FILTERS_8SMOOTH, &BILINEAR_FILTERS] {
        assert_eq!(filters[0], [0, 0, 0, 128, 0, 0, 0, 0]);
    }
}

#[test]
fn regular_half_pixel_symmetric() {
    let hp = SUB_PEL_FILTERS_8[8];
    assert_eq!(hp[3], hp[4]);
    assert_eq!(hp[2], hp[5]);
    assert_eq!(hp[1], hp[6]);
    assert_eq!(hp[0], hp[7]);
}

#[test]
fn scan_4x4_covers_all() {
    let mut visited = [false; 16];
    for &idx in &DEFAULT_SCAN_4X4 {
        assert!(!visited[idx as usize], "duplicate index {idx}");
        visited[idx as usize] = true;
    }
    assert!(visited.iter().all(|&v| v));
}

#[test]
fn scan_8x8_covers_all() {
    let mut visited = [false; 64];
    for &idx in &DEFAULT_SCAN_8X8 {
        assert!(!visited[idx as usize], "duplicate index {idx}");
        visited[idx as usize] = true;
    }
    assert!(visited.iter().all(|&v| v));
}

#[test]
fn col_scan_4x4_order() {
    assert_eq!(&MCOL_SCAN_4X4[..4], &[0, 4, 8, 12]);
}

#[test]
fn row_scan_4x4_order() {
    assert_eq!(&MROW_SCAN_4X4[..4], &[0, 1, 2, 3]);
}
