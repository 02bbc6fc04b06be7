//! AV1 bitstream structure definitions.
use vstd::prelude::*;
use crate::types::block::BlockSize;
use crate::types::frame::ColorConfig;
use crate::types::motion::TransformationType;

verus! {

/// OBU types with their codes 1..7 and 15.
#[derive(Debug, Clone, Copy, PartialEq, Eq, Structural, Hash)]
pub enum ObuType {
    SequenceHeader,
    TemporalDelimiter,
    FrameHeader,
    TileGroup,
    Metadata,
    Frame,
    RedundantFrameHeader,
    Padding,
}

impl ObuType {
    /// The 4-bit code of the OBU type.
    pub open spec fn code(self) -> u8 {
        match self {
            ObuType::SequenceHeader => 1,
            ObuType::TemporalDelimiter => 2,
            ObuType::FrameHeader => 3,
            ObuType::TileGroup => 4,
            ObuType::Metadata => 5,
            ObuType::Frame => 6,
            ObuType::RedundantFrameHeader => 7,
            ObuType::Padding => 15,
        }
    }

    /// The 4-bit code of the OBU type.
    pub fn as_u8(self) -> (r: u8)
        ensures r == self.code(), r < 16,
    {
        match self {
            ObuType::SequenceHeader => 1,
            ObuType::TemporalDelimiter => 2,
            ObuType::FrameHeader => 3,
            ObuType::TileGroup => 4,
            ObuType::Metadata => 5,
            ObuType::Frame => 6,
            ObuType::RedundantFrameHeader => 7,
            ObuType::Padding => 15,
        }
    }
}

/// Parsed OBU header.
#[derive(Debug, Clone, Copy, Default)]
pub struct ObuHeader {
    pub size: usize,
    pub obu_forbidden_bit: u8,
    pub obu_type: u8,
    pub obu_extension_flag: u8,
    pub obu_has_size_field: u8,
    pub temporal_id: u8,
    pub spatial_id: u8,
    pub payload_size: usize,
}

/// Decoder model info.
#[derive(Debug, Clone, Copy, Default)]
pub struct DecoderModelInfo {
    pub buffer_delay_length_minus_1: u8,
    pub num_units_in_decoding_tick: u32,
    pub buffer_removal_time_length_minus_1: u8,
    pub frame_presentation_time_length_minus_1: u8,
}

/// Order hint info.
#[derive(Debug, Clone, Copy, Default)]
pub struct OrderHintInfo {
    pub enable_order_hint: bool,
    pub enable_jnt_comp: bool,
    pub enable_ref_frame_mvs: bool,
    pub order_hint_bits: u8,
}

/// Timing info.
#[derive(Debug, Clone, Copy, Default)]
pub struct TimingInfo {
    pub timing_info_present: bool,
    pub num_units_in_display_tick: u32,
    pub time_scale: u32,
    pub equal_picture_interval: bool,
    pub num_ticks_per_picture: u32,
}

pub const MAX_NUM_OPERATING_POINTS: usize = 32;

/// Sequence header.
#[derive(Debug, Clone)]
pub struct SeqHeader {
    pub seq_profile: u8,
    pub still_picture: bool,
    pub reduced_still_picture_header: bool,
    pub timing_info: TimingInfo,
    pub decoder_model_info_present_flag: bool,
    pub decoder_model_info: DecoderModelInfo,
    pub initial_display_delay_present_flag: bool,
    pub operating_points_cnt_minus_1: u8,
    pub frame_width_bits: u8,
    pub frame_height_bits: u8,
    pub max_frame_width: u16,
    pub max_frame_height: u16,
    pub frame_id_numbers_present_flag: bool,
    pub delta_frame_id_length: u8,
    pub frame_id_length: u8,
    pub use_128x128_superblock: bool,
    pub sb_size: BlockSize,
    pub sb_mi_size: u8,
    pub sb_size_log2: u8,
    pub filter_intra_level: u8,
    pub enable_intra_edge_filter: bool,
    pub enable_intra_angle_delta_filter: bool,
    pub enable_interintra_compound: bool,
    pub enable_masked_compound: bool,
    pub enable_warped_motion: bool,
    pub enable_dual_filter: bool,
    pub order_hint_info: OrderHintInfo,
    pub seq_force_screen_content_tools: u8,
    pub seq_force_integer_mv: u8,
    pub enable_superres: bool,
    pub cdef_level: u8,
    pub enable_restoration: bool,
    pub color_config: ColorConfig,
    pub film_grain_params_present: bool,
}

/// Frame size.
#[derive(Debug, Clone, Copy, Default)]
pub struct FrameSize {
    pub frame_width: u16,
    pub frame_height: u16,
    pub render_width: u16,
    pub render_height: u16,
    pub superres_denominator: u8,
    pub superres_upscaled_width: u16,
    pub superres_upscaled_height: u16,
}

pub const MAX_TILE_ROWS: usize = 64;
pub const MAX_TILE_COLS: usize = 64;
pub const MAX_TILE_WIDTH: usize = 4096;
pub const MAX_TILE_AREA: usize = 4096 * 2304;

/// Tile layout of a frame.
#[derive(Debug, Clone)]
pub struct TilesInfo {
    pub max_tile_width_sb: u16,
    pub max_tile_height_sb: u16,
    pub min_log2_tile_cols: u8,
    pub max_log2_tile_cols: u8,
    pub max_log2_tile_rows: u8,
    pub min_log2_tile_rows: u8,
    pub min_log2_tiles: u8,
    pub uniform_tile_spacing_flag: bool,
    pub tile_cols: u8,
    pub tile_rows: u8,
    pub tile_cols_log2: u8,
    pub tile_rows_log2: u8,
    pub tile_col_start_mi: [u16; 65],
    pub tile_row_start_mi: [u16; 65],
    pub context_update_tile_id: u16,
    pub tile_size_bytes: u8,
}

/// Delta-Q parameters.
#[derive(Debug, Clone, Copy, Default)]
pub struct DeltaQParams {
    pub delta_q_present: bool,
    pub delta_q_res: u8,
}

/// Delta loop-filter parameters.
#[derive(Debug, Clone, Copy, Default)]
pub struct DeltaLfParams {
    pub delta_lf_present: bool,
    pub delta_lf_res: u8,
    pub delta_lf_multi: bool,
}

/// Loop restoration parameters.
#[derive(Debug, Clone, Copy, Default)]
pub struct LrParams {
    pub frame_restoration_type: u8,
    pub loop_restoration_size: u16,
    pub lr_size_log2: u8,
}

/// Skip mode info.
#[derive(Debug, Clone, Copy, Default)]
pub struct SkipModeInfo {
    pub skip_mode_allowed: bool,
    pub skip_mode_flag: bool,
    pub ref_frame_idx_0: i32,
    pub ref_frame_idx_1: i32,
}

/// Global motion parameters.
#[derive(Debug, Clone, Copy)]
pub struct GlobalMotionParams {
    pub gm_type: TransformationType,
    pub gm_params: [i32; 6],
}

impl Default for GlobalMotionParams {
    /// Identity model with all parameters zero.
    fn default() -> (r: Self)
        ensures
            r.gm_type == TransformationType::Identity,
            r.gm_params@ == seq![0i32, 0, 0, 0, 0, 0],
    {
        GlobalMotionParams { gm_type: TransformationType::Identity, gm_params: [0, 0, 0, 0, 0, 0] }
    }
}

/// Tile position info.
#[derive(Debug, Clone, Copy)]
pub struct TileInfo {
    pub mi_row_start: i32,
    pub mi_row_end: i32,
    pub mi_col_start: i32,
    pub mi_col_end: i32,
    pub tg_horz_boundary: i32,
    pub tile_row: i32,
    pub tile_col: i32,
    pub tile_rs_index: i32,
}

impl Default for TileInfo {
    /// All positions zero.
    fn default() -> (r: Self)
        ensures
            r.mi_row_start == 0 && r.mi_row_end == 0 && r.mi_col_start == 0 && r.mi_col_end == 0,
            r.tg_horz_boundary == 0 && r.tile_row == 0 && r.tile_col == 0 && r.tile_rs_index == 0,
    {
        TileInfo {
            mi_row_start: 0,
            mi_row_end: 0,
            mi_col_start: 0,
            mi_col_end: 0,
            tg_horz_boundary: 0,
            tile_row: 0,
            tile_col: 0,
            tile_rs_index: 0,
        }
    }
}

} // verus!
