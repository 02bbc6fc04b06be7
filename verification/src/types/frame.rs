//! Frame-level type definitions.
use vstd::prelude::*;

verus! {

/// AV1 frame types.
#[derive(Debug, Clone, Copy, PartialEq, Eq, Structural, Hash)]
pub enum FrameType {
    Key,
    Inter,
    IntraOnly,
    Switch,
}

impl FrameType {
    pub const COUNT: usize = 4;

    /// Key and intra-only frames are coded without reference frames.
    pub open spec fn spec_is_intra(self) -> bool {
        self == FrameType::Key || self == FrameType::IntraOnly
    }

    /// True for key frames and intra-only frames.
    pub fn is_intra(self) -> (r: bool)
        ensures r == self.spec_is_intra(),
    {
        match self {
            FrameType::Key | FrameType::IntraOnly => true,
            _ => false,
        }
    }
}

/// Slice type.
#[derive(Debug, Clone, Copy, PartialEq, Eq, Structural, Hash)]
pub enum SliceType {
    B,
    I,
}

impl SliceType {
    pub const INVALID_RAW: u8 = 0xFF;
}

/// Bitstream profile.
#[derive(Debug, Clone, Copy, PartialEq, Eq, Structural, Hash)]
pub enum BitstreamProfile {
    Profile0,
    Profile1,
    Profile2,
}

impl BitstreamProfile {
    pub const COUNT: usize = 3;
}

/// Prediction structure (low delay = 1, random access = 2).
#[derive(Debug, Clone, Copy, PartialEq, Eq, Structural, Hash)]
pub enum PredStructure {
    LowDelay,
    RandomAccess,
}

impl PredStructure {
    /// The numeric code of the structure.
    pub fn as_u8(self) -> (r: u8)
        ensures r == (if self == PredStructure::LowDelay { 1u8 } else { 2u8 }),
    {
        match self {
            PredStructure::LowDelay => 1,
            PredStructure::RandomAccess => 2,
        }
    }
}

/// Tuning target.
#[derive(Debug, Clone, Copy, PartialEq, Eq, Structural, Hash)]
pub enum Tune {
    Vq,
    Psnr,
    Ssim,
    Iq,
    MsSsim,
}

/// Input resolution range.
#[derive(Debug, Clone, Copy, PartialEq, Eq, Structural, PartialOrd, Ord, Hash)]
pub enum ResolutionRange {
    Range240p,
    Range360p,
    Range480p,
    Range720p,
    Range1080p,
    Range4K,
    Range8K,
}

impl ResolutionRange {
    pub const COUNT: usize = 7;
}

pub const INPUT_SIZE_240P_TH: u32 = 0x28500;
pub const INPUT_SIZE_360P_TH: u32 = 0x4CE00;
pub const INPUT_SIZE_480P_TH: u32 = 0xA1400;
pub const INPUT_SIZE_720P_TH: u32 = 0x16DA00;
pub const INPUT_SIZE_1080P_TH: u32 = 0x535200;
pub const INPUT_SIZE_4K_TH: u32 = 0x140A000;
pub const INPUT_SIZE_8K_TH: u32 = 0x5028000;

/// Frame context index.
#[derive(Debug, Clone, Copy, PartialEq, Eq, Structural, Hash)]
pub enum FrameContextIndex {
    Regular,
    Arf,
    Overlay,
    Golden,
    Brf,
    ExtArf,
}

impl FrameContextIndex {
    pub const COUNT: usize = 6;
}

/// Frame context refresh mode.
#[derive(Debug, Clone, Copy, PartialEq, Eq, Structural, Hash)]
pub enum RefreshFrameContextMode {
    Disabled,
    Backward,
}

/// Color configuration of a sequence.
#[derive(Debug, Clone, Copy, Default)]
pub struct ColorConfig {
    pub bit_depth: u8,
    pub mono_chrome: bool,
    pub color_primaries: u8,
    pub transfer_characteristics: u8,
    pub matrix_coefficients: u8,
    pub full_color_range: bool,
    pub subsampling_x: u8,
    pub subsampling_y: u8,
    pub chroma_sample_position: u8,
    pub separate_uv_delta_q: bool,
}

/// Color planes.
#[derive(Debug, Clone, Copy, PartialEq, Eq, Structural, Hash)]
pub enum Plane {
    Y,
    U,
    V,
}

pub const MAX_PLANES: usize = 3;

/// Plane types (luma, chroma).
#[derive(Debug, Clone, Copy, PartialEq, Eq, Structural, Hash)]
pub enum PlaneType {
    Y,
    Uv,
}

pub const PLANE_TYPES: usize = 2;

/// Mode decision bit depth mode.
#[derive(Debug, Clone, Copy, PartialEq, Eq, Structural, Hash)]
pub enum MdBitDepthMode {
    Bit8,
    Bit10,
    Dual,
}

} // verus!
