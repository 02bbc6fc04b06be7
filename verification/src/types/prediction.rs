//! Prediction mode definitions.
use vstd::prelude::*;

verus! {

/// Luma prediction modes: 13 intra modes (0..12), 4 single-reference inter
/// modes (13..16) and 8 compound inter modes (17..24).
#[derive(Debug, Clone, Copy, PartialEq, Eq, Structural, Hash)]
pub enum PredictionMode {
    DcPred,
    VPred,
    HPred,
    D45Pred,
    D135Pred,
    D113Pred,
    D157Pred,
    D203Pred,
    D67Pred,
    SmoothPred,
    SmoothVPred,
    SmoothHPred,
    PaethPred,
    NearestMv,
    NearMv,
    GlobalMv,
    NewMv,
    NearestNearestMv,
    NearNearMv,
    NearestNewMv,
    NewNearestMv,
    NearNewMv,
    NewNearMv,
    GlobalGlobalMv,
    NewNewMv,
}

impl PredictionMode {
    pub const COUNT: usize = 25;
    pub const INTRA_MODES: usize = 13;
    pub const INTRA_MODE_START: u8 = 0;
    pub const INTRA_MODE_END: u8 = 13;
    pub const SINGLE_INTER_MODE_START: u8 = 13;
    pub const SINGLE_INTER_MODE_END: u8 = 17;
    pub const COMP_INTER_MODE_START: u8 = 17;
    pub const COMP_INTER_MODE_END: u8 = 25;
    pub const INTRA_INVALID_RAW: u8 = 25;

    /// The position of this mode in the enumeration.
    pub open spec fn index(self) -> nat {
        match self {
            PredictionMode::DcPred => 0,
            PredictionMode::VPred => 1,
            PredictionMode::HPred => 2,
            PredictionMode::D45Pred => 3,
            PredictionMode::D135Pred => 4,
            PredictionMode::D113Pred => 5,
            PredictionMode::D157Pred => 6,
            PredictionMode::D203Pred => 7,
            PredictionMode::D67Pred => 8,
            PredictionMode::SmoothPred => 9,
            PredictionMode::SmoothVPred => 10,
            PredictionMode::SmoothHPred => 11,
            PredictionMode::PaethPred => 12,
            PredictionMode::NearestMv => 13,
            PredictionMode::NearMv => 14,
            PredictionMode::GlobalMv => 15,
            PredictionMode::NewMv => 16,
            PredictionMode::NearestNearestMv => 17,
            PredictionMode::NearNearMv => 18,
            PredictionMode::NearestNewMv => 19,
            PredictionMode::NewNearestMv => 20,
            PredictionMode::NearNewMv => 21,
            PredictionMode::NewNearMv => 22,
            PredictionMode::GlobalGlobalMv => 23,
            PredictionMode::NewNewMv => 24,
        }
    }

    /// The enumeration value of the mode.
    pub fn as_u8(self) -> (r: u8)
        ensures r == self.index(),
    {
        match self {
            PredictionMode::DcPred => 0,
            PredictionMode::VPred => 1,
            PredictionMode::HPred => 2,
            PredictionMode::D45Pred => 3,
            PredictionMode::D135Pred => 4,
            PredictionMode::D113Pred => 5,
            PredictionMode::D157Pred => 6,
            PredictionMode::D203Pred => 7,
            PredictionMode::D67Pred => 8,
            PredictionMode::SmoothPred => 9,
            PredictionMode::SmoothVPred => 10,
            PredictionMode::SmoothHPred => 11,
            PredictionMode::PaethPred => 12,
            PredictionMode::NearestMv => 13,
            PredictionMode::NearMv => 14,
            PredictionMode::GlobalMv => 15,
            PredictionMode::NewMv => 16,
            PredictionMode::NearestNearestMv => 17,
            PredictionMode::NearNearMv => 18,
            PredictionMode::NearestNewMv => 19,
            PredictionMode::NewNearestMv => 20,
            PredictionMode::NearNewMv => 21,
            PredictionMode::NewNearMv => 22,
            PredictionMode::GlobalGlobalMv => 23,
            PredictionMode::NewNewMv => 24,
        }
    }

    /// Intra modes are those before `NearestMv`.
    pub fn is_intra(self) -> (r: bool)
        ensures r == (self.index() < 13),
    {
        self.as_u8() < 13
    }

    /// Inter modes are `NearestMv` and after.
    pub fn is_inter(self) -> (r: bool)
        ensures r == (self.index() >= 13),
    {
        self.as_u8() >= 13
    }

    /// Compound modes are `NearestNearestMv` and after.
    pub fn is_compound(self) -> (r: bool)
        ensures r == (self.index() >= 17),
    {
        self.as_u8() >= 17
    }

    /// Single-reference inter modes: `NearestMv` through `NewMv`.
    pub fn is_single_ref(self) -> (r: bool)
        ensures r == (13 <= self.index() < 17),
    {
        let v = self.as_u8();
        v >= 13 && v < 17
    }
}

/// Classification law: every mode is exactly one of intra, single-reference
/// inter or compound inter.
pub proof fn lemma_prediction_mode_partition(m: PredictionMode)
    ensures
        (m.index() < 13) != (m.index() >= 13),
        m.index() >= 13 ==> ((13 <= m.index() < 17) != (m.index() >= 17)),
        m.index() < 25,
{
}

/// Chroma prediction modes (the luma intra modes plus CfL).
#[derive(Debug, Clone, Copy, PartialEq, Eq, Structural, Hash)]
pub enum UvPredictionMode {
    UvDcPred,
    UvVPred,
    UvHPred,
    UvD45Pred,
    UvD135Pred,
    UvD113Pred,
    UvD157Pred,
    UvD203Pred,
    UvD67Pred,
    UvSmoothPred,
    UvSmoothVPred,
    UvSmoothHPred,
    UvPaethPred,
    UvCflPred,
}

impl UvPredictionMode {
    pub const COUNT: usize = 14;
    pub const INVALID_RAW: u8 = 14;
}

/// Motion modes.
#[derive(Debug, Clone, Copy, PartialEq, Eq, Structural, Hash)]
pub enum MotionMode {
    SimpleTranslation,
    ObmcCausal,
    WarpedCausal,
}

impl MotionMode {
    pub const COUNT: usize = 3;
}

/// Inter-intra modes.
#[derive(Debug, Clone, Copy, PartialEq, Eq, Structural, Hash)]
pub enum InterIntraMode {
    IiDcPred,
    IiVPred,
    IiHPred,
    IiSmoothPred,
}

impl InterIntraMode {
    pub const COUNT: usize = 4;
}

/// Compound prediction types.
#[derive(Debug, Clone, Copy, PartialEq, Eq, Structural, Hash)]
pub enum CompoundType {
    Average,
    DistWtd,
    Wedge,
    DiffWtd,
}

impl CompoundType {
    pub const COUNT: usize = 4;
    pub const MASKED_TYPES: usize = 2;
}

/// Filter-intra modes.
#[derive(Debug, Clone, Copy, PartialEq, Eq, Structural, Hash)]
pub enum FilterIntraMode {
    FilterDcPred,
    FilterVPred,
    FilterHPred,
    FilterD157Pred,
    FilterPaethPred,
}

impl FilterIntraMode {
    pub const COUNT: usize = 5;
}

pub const DIRECTIONAL_MODES: usize = 8;
pub const MAX_ANGLE_DELTA: i8 = 3;
pub const ANGLE_STEP: u8 = 3;
pub const INTER_MODES: usize = 4;
pub const INTER_COMPOUND_MODES: usize = 8;

/// Inter-inter compound data.
#[derive(Debug, Clone, Copy, Default)]
pub struct InterInterCompoundData {
    pub compound_type: u8,
    pub wedge_index: u8,
    pub wedge_sign: u8,
    pub mask_type: u8,
}

/// Palette sizes (two to eight colors).
#[derive(Debug, Clone, Copy, PartialEq, Eq, Structural, Hash)]
pub enum PaletteSize {
    TwoColors,
    ThreeColors,
    FourColors,
    FiveColors,
    SixColors,
    SevenColors,
    EightColors,
}

impl PaletteSize {
    pub const COUNT: usize = 7;
}

pub const PALETTE_MAX_SIZE: usize = 8;
pub const MAX_WEDGE_TYPES: usize = 16;
pub const MAX_WEDGE_SIZE_LOG2: usize = 5;
pub const MAX_WEDGE_SIZE: usize = 32;
pub const AOM_BLEND_A64_ROUND_BITS: u32 = 6;
pub const AOM_BLEND_A64_MAX_ALPHA: u32 = 64;
pub const CFL_ALPHABET_SIZE_LOG2: usize = 4;
pub const CFL_ALPHABET_SIZE: usize = 16;
pub const CFL_JOINT_SIGNS: usize = 8;

} // verus!
