//! Interpolation filter definitions.
use vstd::prelude::*;

verus! {

/// Interpolation filters.
#[derive(Debug, Clone, Copy, PartialEq, Eq, Structural, Hash)]
pub enum InterpFilter {
    EightTapRegular,
    EightTapSmooth,
    MultiTapSharp,
    Bilinear,
}

impl InterpFilter {
    pub const ALL_COUNT: usize = 4;
    pub const SWITCHABLE_FILTERS: usize = 3;
    pub const SWITCHABLE: u8 = 4;
}

/// Sub-pel search stage.
#[derive(Debug, Clone, Copy, PartialEq, Eq, Structural, Hash)]
pub enum SubpelStage {
    Me,
    Pme,
}

/// Sub-pel search filter type.
#[derive(Debug, Clone, Copy, PartialEq, Eq, Structural, Hash)]
pub enum SubpelSearchType {
    Use2TapsOrig,
    Use2Taps,
    Use4Taps,
    Use8Taps,
}

/// Sub-pel search method.
#[derive(Debug, Clone, Copy, PartialEq, Eq, Structural, Hash)]
pub enum SubpelSearchMethod {
    Tree,
    TreePruned,
}

/// Precision at which sub-pel search stops.
#[derive(Debug, Clone, Copy, PartialEq, Eq, Structural, Hash)]
pub enum SubpelForceStop {
    EighthPel,
    QuarterPel,
    HalfPel,
    FullPel,
}

pub const AOM_INTERP_EXTEND: usize = 4;

} // verus!
