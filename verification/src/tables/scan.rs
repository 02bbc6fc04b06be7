//! Coefficient scan order tables.
use vstd::prelude::*;

verus! {

/// 4x4 column scan order.
pub const MCOL_SCAN_4X4: [i16; 16] = [0, 4, 8, 12, 1, 5, 9, 13, 2, 6, 10, 14, 3, 7, 11, 15];

/// 4x4 row scan order.
pub const MROW_SCAN_4X4: [i16; 16] = [0, 1, 2, 3, 4, 5, 6, 7, 8, 9, 10, 11, 12, 13, 14, 15];

/// 4x4 default (diagonal zigzag) scan order.
pub const DEFAULT_SCAN_4X4: [i16; 16] = [0, 1, 4, 8, 5, 2, 3, 6, 9, 12, 13, 10, 7, 11, 14, 15];

/// 8x8 default scan order.
pub const DEFAULT_SCAN_8X8: [i16; 64] = [
    0, 1, 8, 16, 9, 2, 3, 10, 17, 24, 32, 25, 18, 11, 4, 5, 12, 19, 26, 33, 40, 48, 41, 34, 27, 20,
    13, 6, 7, 14, 21, 28, 35, 42, 49, 56, 57, 50, 43, 36, 29, 22, 15, 23, 30, 37, 44, 51, 58, 59,
    52, 45, 38, 31, 39, 46, 53, 60, 61, 54, 47, 55, 62, 63,
];

/// 8x8 column scan order.
pub const MCOL_SCAN_8X8: [i16; 64] = [
    0, 8, 16, 24, 32, 40, 48, 56, 1, 9, 17, 25, 33, 41, 49, 57, 2, 10, 18, 26, 34, 42, 50, 58, 3,
    11, 19, 27, 35, 43, 51, 59, 4, 12, 20, 28, 36, 44, 52, 60, 5, 13, 21, 29, 37, 45, 53, 61, 6,
    14, 22, 30, 38, 46, 54, 62, 7, 15, 23, 31, 39, 47, 55, 63,
];

/// 8x8 row scan order.
pub const MROW_SCAN_8X8: [i16; 64] = [
    0, 1, 2, 3, 4, 5, 6, 7, 8, 9, 10, 11, 12, 13, 14, 15, 16, 17, 18, 19, 20, 21, 22, 23, 24, 25,
    26, 27, 28, 29, 30, 31, 32, 33, 34, 35, 36, 37, 38, 39, 40, 41, 42, 43, 44, 45, 46, 47, 48, 49,
    50, 51, 52, 53, 54, 55, 56, 57, 58, 59, 60, 61, 62, 63,
];

/// Scan type index.
#[derive(Debug, Clone, Copy, PartialEq, Eq, Structural, Hash)]
pub enum ScanType {
    /// Diagonal zigzag (default for 2D transforms).
    Default,
    /// Row-major (for horizontal transforms).
    Row,
    /// Column-major (for vertical transforms).
    Col,
}

impl ScanType {
    pub const COUNT: usize = 3;
}

/// A scan order of `n` positions visits each of `0..n` exactly once.
pub open spec fn is_permutation(s: Seq<i16>, n: int) -> bool {
    &&& s.len() == n
    &&& forall|i: int| 0 <= i < n ==> 0 <= #[trigger] s[i] < n
    &&& forall|i: int, j: int| 0 <= i < j < n ==> #[trigger] s[i] != #[trigger] s[j]
}

/// Table law: the 4x4 scans are permutations of the sixteen positions, and the
/// row and column scans visit row-major and column-major order.
pub proof fn lemma_scan_4x4_permutations()
    ensures
        is_permutation(DEFAULT_SCAN_4X4@, 16),
        is_permutation(MCOL_SCAN_4X4@, 16),
        is_permutation(MROW_SCAN_4X4@, 16),
        forall|i: int| 0 <= i < 16 ==> #[trigger] MROW_SCAN_4X4[i] == i,
        forall|i: int| 0 <= i < 16 ==> #[trigger] MCOL_SCAN_4X4[i] == (i % 4) * 4 + i / 4,
{
}

} // verus!
