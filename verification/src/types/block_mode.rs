//! Block mode information structures.
use vstd::prelude::*;
use crate::types::block::BlockSize;
use crate::types::motion::Mv;
use crate::types::partition::PartitionType;
use crate::types::prediction::{InterInterCompoundData, InterIntraMode, MotionMode, PredictionMode, UvPredictionMode};

verus! {

/// Per-block mode information.
#[derive(Debug, Clone, Copy)]
pub struct BlockModeInfo {
    pub mode: PredictionMode,
    pub uv_mode: UvPredictionMode,
    pub mv: [Mv; 2],
    pub ref_frame: [i8; 2],
    pub interp_filters: u32,
    pub interinter_comp: InterInterCompoundData,
    pub motion_mode: MotionMode,
    pub num_proj_ref: u8,
    pub interintra_mode: InterIntraMode,
    pub interintra_wedge_index: i8,
    pub angle_delta: [i8; 2],
    pub filter_intra_mode: u8,
    pub cfl_alpha_signs: u8,
    pub cfl_alpha_idx: u8,
    pub tx_depth: u8,
    pub is_interintra_used: bool,
    pub use_wedge_interintra: bool,
    pub comp_group_idx: bool,
    pub compound_idx: bool,
    pub skip: bool,
    pub skip_mode: bool,
    pub use_intrabc: bool,
}

impl Default for BlockModeInfo {
    /// DC intra prediction, zero motion, intra references, all flags off.
    fn default() -> (r: Self)
        ensures
            r.mode == PredictionMode::DcPred,
            r.uv_mode == UvPredictionMode::UvDcPred,
            r.ref_frame[0] == 0 && r.ref_frame[1] == 0,
            r.mv[0].x == 0 && r.mv[0].y == 0 && r.mv[1].x == 0 && r.mv[1].y == 0,
            !r.skip && !r.skip_mode && !r.use_intrabc,
            !r.is_interintra_used && !r.use_wedge_interintra && !r.comp_group_idx && !r.compound_idx,
            r.motion_mode == MotionMode::SimpleTranslation,
            r.interintra_mode == InterIntraMode::IiDcPred,
            r.interp_filters == 0 && r.num_proj_ref == 0 && r.interintra_wedge_index == 0,
            r.angle_delta[0] == 0 && r.angle_delta[1] == 0,
            r.filter_intra_mode == 0 && r.cfl_alpha_signs == 0 && r.cfl_alpha_idx == 0 && r.tx_depth == 0,
    {
        BlockModeInfo {
            mode: PredictionMode::DcPred,
            uv_mode: UvPredictionMode::UvDcPred,
            mv: [Mv { x: 0, y: 0 }, Mv { x: 0, y: 0 }],
            ref_frame: [0, 0],
            interp_filters: 0,
            interinter_comp: InterInterCompoundData { compound_type: 0, wedge_index: 0, wedge_sign: 0, mask_type: 0 },
            motion_mode: MotionMode::SimpleTranslation,
            num_proj_ref: 0,
            interintra_mode: InterIntraMode::IiDcPred,
            interintra_wedge_index: 0,
            angle_delta: [0, 0],
            filter_intra_mode: 0,
            cfl_alpha_signs: 0,
            cfl_alpha_idx: 0,
            tx_depth: 0,
            is_interintra_used: false,
            use_wedge_interintra: false,
            comp_group_idx: false,
            compound_idx: false,
            skip: false,
            skip_mode: false,
            use_intrabc: false,
        }
    }
}

impl BlockModeInfo {
    /// A second reference exists when `ref_frame[1]` is an inter reference (> 0).
    pub fn has_second_ref(&self) -> (r: bool)
        ensures r == (self.ref_frame[1] > 0),
    {
        self.ref_frame[1] > 0
    }

    /// Inter blocks use intra block copy or an inter first reference (> 0).
    pub fn is_inter_block(&self) -> (r: bool)
        ensures r == (self.use_intrabc || self.ref_frame[0] > 0),
    {
        self.use_intrabc || self.ref_frame[0] > 0
    }
}

/// Palette info for luma.
#[derive(Debug, Clone, Copy, Default)]
pub struct PaletteLumaModeInfo {
    pub palette_colors: [u16; 8],
    pub palette_size: u8,
}

/// Macroblock mode info.
#[derive(Debug, Clone, Copy)]
pub struct MbModeInfo {
    pub block_mi: BlockModeInfo,
    pub bsize: BlockSize,
    pub partition: PartitionType,
    pub segment_id: u8,
    pub palette_mode_info: PaletteLumaModeInfo,
    pub cdef_strength: i8,
}

impl Default for MbModeInfo {
    /// Default block info, 4x4 block size, unsplit, segment 0, no palette.
    fn default() -> (r: Self)
        ensures
            r.bsize == BlockSize::Block4x4,
            r.partition == PartitionType::PartitionNone,
            r.segment_id == 0,
            r.cdef_strength == 0,
            r.palette_mode_info.palette_size == 0,
            r.block_mi.mode == PredictionMode::DcPred,
            r.block_mi.ref_frame[0] == 0 && r.block_mi.ref_frame[1] == 0,
            !r.block_mi.use_intrabc && !r.block_mi.skip,
    {
        MbModeInfo {
            block_mi: BlockModeInfo::default(),
            bsize: BlockSize::Block4x4,
            partition: PartitionType::PartitionNone,
            segment_id: 0,
            palette_mode_info: PaletteLumaModeInfo { palette_colors: [0, 0, 0, 0, 0, 0, 0, 0], palette_size: 0 },
            cdef_strength: 0,
        }
    }
}

} // verus!
