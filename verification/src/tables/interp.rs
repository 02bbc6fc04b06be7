//! Interpolation filter coefficient tables: 16 sub-pel phases of 8 taps.
use vstd::prelude::*;

verus! {

/// Number of sub-pixel phases.
pub const SUBPEL_SHIFTS: usize = 16;

/// 8-tap regular interpolation filter.
pub const SUB_PEL_FILTERS_8: [[i16; 8]; 16] = [
    [0, 0, 0, 128, 0, 0, 0, 0],
    [0, 2, -6, 126, 8, -2, 0, 0],
    [0, 2, -10, 122, 18, -4, 0, 0],
    [0, 2, -12, 116, 28, -8, 2, 0],
    [0, 2, -14, 110, 38, -10, 2, 0],
    [0, 2, -14, 102, 48, -12, 2, 0],
    [0, 2, -16, 94, 58, -12, 2, 0],
    [0, 2, -14, 84, 66, -12, 2, 0],
    [0, 2, -14, 76, 76, -14, 2, 0],
    [0, 2, -12, 66, 84, -14, 2, 0],
    [0, 2, -12, 58, 94, -16, 2, 0],
    [0, 2, -12, 48, 102, -14, 2, 0],
    [0, 2, -10, 38, 110, -14, 2, 0],
    [0, 2, -8, 28, 116, -12, 2, 0],
    [0, 0, -4, 18, 122, -10, 2, 0],
    [0, 0, -2, 8, 126, -6, 2, 0],
];

/// 8-tap sharp interpolation filter.
pub const SUB_PEL_FILTERS_8SHARP: [[i16; 8]; 16] = [
    [0, 0, 0, 128, 0, 0, 0, 0],
    [-2, 2, -6, 126, 8, -2, 2, 0],
    [-2, 6, -12, 124, 16, -6, 4, -2],
    [-2, 8, -18, 120, 26, -10, 6, -2],
    [-4, 10, -22, 116, 38, -14, 6, -2],
    [-4, 10, -22, 108, 48, -18, 8, -2],
    [-4, 10, -24, 100, 60, -20, 8, -2],
    [-4, 10, -24, 90, 70, -22, 10, -2],
    [-4, 12, -24, 80, 80, -24, 12, -4],
    [-2, 10, -22, 70, 90, -24, 10, -4],
    [-2, 8, -20, 60, 100, -24, 10, -4],
    [-2, 8, -18, 48, 108, -22, 10, -4],
    [-2, 6, -14, 38, 116, -22, 10, -4],
    [-2, 6, -10, 26, 120, -18, 8, -2],
    [-2, 4, -6, 16, 124, -12, 6, -2],
    [0, 2, -2, 8, 126, -6, 2, -2],
];

/// 8-tap smooth interpolation filter.
pub const SUB_PEL_FILTERS_8SMOOTH: [[i16; 8]; 16] = [
    [0, 0, 0, 128, 0, 0, 0, 0],
    [0, 2, 28, 62, 34, 2, 0, 0],
    [0, 0, 26, 62, 36, 4, 0, 0],
    [0, 0, 22, 62, 40, 4, 0, 0],
    [0, 0, 20, 60, 42, 6, 0, 0],
    [0, 0, 18, 58, 44, 8, 0, 0],
    [0, 0, 16, 56, 46, 10, 0, 0],
    [0, -2, 16, 54, 48, 12, 0, 0],
    [0, -2, 14, 52, 52, 14, -2, 0],
    [0, 0, 12, 48, 54, 16, -2, 0],
    [0, 0, 10, 46, 56, 16, 0, 0],
    [0, 0, 8, 44, 58, 18, 0, 0],
    [0, 0, 6, 42, 60, 20, 0, 0],
    [0, 0, 4, 40, 62, 22, 0, 0],
    [0, 0, 4, 36, 62, 26, 0, 0],
    [0, 0, 2, 34, 62, 28, 2, 0],
];

/// Bilinear interpolation filter.
pub const BILINEAR_FILTERS: [[i16; 8]; 16] = [
    [0, 0, 0, 128, 0, 0, 0, 0],
    [0, 0, 0, 120, 8, 0, 0, 0],
    [0, 0, 0, 112, 16, 0, 0, 0],
    [0, 0, 0, 104, 24, 0, 0, 0],
    [0, 0, 0, 96, 32, 0, 0, 0],
    [0, 0, 0, 88, 40, 0, 0, 0],
    [0, 0, 0, 80, 48, 0, 0, 0],
    [0, 0, 0, 72, 56, 0, 0, 0],
    [0, 0, 0, 64, 64, 0, 0, 0],
    [0, 0, 0, 56, 72, 0, 0, 0],
    [0, 0, 0, 48, 80, 0, 0, 0],
    [0, 0, 0, 40, 88, 0, 0, 0],
    [0, 0, 0, 32, 96, 0, 0, 0],
    [0, 0, 0, 24, 104, 0, 0, 0],
    [0, 0, 0, 16, 112, 0, 0, 0],
    [0, 0, 0, 8, 120, 0, 0, 0],
];

/// Sum of the eight taps of a kernel.
pub open spec fn tap_sum(k: [i16; 8]) -> int {
    k[0] + k[1] + k[2] + k[3] + k[4] + k[5] + k[6] + k[7]
}

/// Filter law: the taps of every phase of every filter sum to 128 (unit gain in Q7),
/// and phase 0 is the identity kernel.
pub proof fn lemma_filter_taps_unit_gain()
    ensures
        forall|p: int| 0 <= p < 16 ==> #[trigger] tap_sum(SUB_PEL_FILTERS_8[p]) == 128,
        forall|p: int| 0 <= p < 16 ==> #[trigger] tap_sum(SUB_PEL_FILTERS_8SHARP[p]) == 128,
        forall|p: int| 0 <= p < 16 ==> #[trigger] tap_sum(SUB_PEL_FILTERS_8SMOOTH[p]) == 128,
        forall|p: int| 0 <= p < 16 ==> #[trigger] tap_sum(BILINEAR_FILTERS[p]) == 128,
        SUB_PEL_FILTERS_8[0]@ == seq![0i16, 0, 0, 128, 0, 0, 0, 0],
        SUB_PEL_FILTERS_8SHARP[0]@ == seq![0i16, 0, 0, 128, 0, 0, 0, 0],
        SUB_PEL_FILTERS_8SMOOTH[0]@ == seq![0i16, 0, 0, 128, 0, 0, 0, 0],
        BILINEAR_FILTERS[0]@ == seq![0i16, 0, 0, 128, 0, 0, 0, 0],
{
}

/// Symmetry law: the half-pel phase of the regular filter is symmetric.
pub proof fn lemma_regular_half_pel_symmetric()
    ensures
        forall|i: int| 0 <= i < 8 ==> #[trigger] SUB_PEL_FILTERS_8[8][i] == SUB_PEL_FILTERS_8[8][7 - i],
{
}

} // verus!
