//! Quantization-related types and constants.
use vstd::prelude::*;

verus! {

pub const MIN_Q: u8 = 0;
pub const MAX_Q: u8 = 255;
pub const QINDEX_RANGE: usize = 256;
pub const QINDEX_BITS: usize = 8;
pub const MIN_QP_VALUE: u8 = 0;
pub const MAX_QP_VALUE: u8 = 63;
pub const QM_LEVEL_BITS: usize = 4;
pub const NUM_QM_LEVELS: usize = 16;
pub const DELTA_Q_SMALL: usize = 3;
pub const DEFAULT_DELTA_Q_RES: u8 = 1;
pub const DELTA_LF_SMALL: usize = 3;

/// Frame quantization parameters.
#[derive(Debug, Clone, Copy, Default)]
pub struct QuantizationParams {
    pub base_q_idx: u8,
    pub delta_q_dc: [i8; 3],
    pub delta_q_ac: [i8; 3],
    pub using_qmatrix: bool,
    pub qm: [u8; 3],
}

/// Distortion measure.
#[derive(Debug, Clone, Copy, PartialEq, Eq, Structural, Hash)]
pub enum DistortionType {
    Sad,
    Var,
    Ssd,
}

impl DistortionType {
    pub const COUNT: usize = 3;
}

} // verus!
