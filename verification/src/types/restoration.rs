//! Restoration filter types.
use vstd::prelude::*;

verus! {

/// Loop restoration types; `NoRestoration` disables restoration.
#[derive(Debug, Clone, Copy, PartialEq, Eq, Structural, Hash)]
pub enum RestorationType {
    NoRestoration,
    Wiener,
    SgrProj,
    Switchable,
}

impl RestorationType {
    pub const SWITCHABLE_TYPES: usize = 3;
    pub const TOTAL_TYPES: usize = 4;
}

/// Self-guided restoration parameters.
#[derive(Debug, Clone, Copy, Default)]
pub struct SgrParams {
    pub r: [i32; 2],
    pub s: [i32; 2],
}

pub const CDEF_MAX_STRENGTHS: usize = 16;
pub const CDEF_PRI_STRENGTHS: usize = 16;
pub const CDEF_SEC_STRENGTHS: usize = 4;

/// CDEF parameters.
#[derive(Debug, Clone, Copy, Default)]
pub struct CdefParams {
    pub damping: u8,
    pub bits: u8,
    pub y_strength: [u8; 16],
    pub uv_strength: [u8; 16],
}

/// Loop filter parameters.
#[derive(Debug, Clone, Copy, Default)]
pub struct LoopFilter {
    pub filter_level: [i32; 2],
    pub filter_level_u: i32,
    pub filter_level_v: i32,
    pub sharpness_level: i32,
    pub mode_ref_delta_enabled: bool,
    pub mode_ref_delta_update: bool,
    pub ref_deltas: [i8; 8],
    pub mode_deltas: [i8; 2],
}

pub const MAX_LOOP_FILTER: usize = 63;
pub const MAX_SEGMENTS: usize = 8;
pub const MAX_MODE_LF_DELTAS: usize = 2;
pub const SCALE_NUMERATOR: usize = 8;
pub const SUPERRES_SCALE_BITS: usize = 3;
pub const MIN_SUPERRES_DENOM: usize = 8;
pub const MAX_SUPERRES_DENOM: usize = 16;
pub const NUM_SR_SCALES: usize = 8;
pub const NUM_RESIZE_SCALES: usize = 9;

} // verus!
