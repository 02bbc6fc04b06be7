//! Miscellaneous encoder constants.
use vstd::prelude::*;

verus! {

pub const BLOCK_SIZE_64: u32 = 64;
pub const LOG_MIN_BLOCK_SIZE: u32 = 3;
pub const MIN_BLOCK_SIZE: u32 = 8;
pub const MAX_TEMPORAL_LAYERS: usize = 6;
pub const MAX_NUM_OF_REF_PIC_LIST: usize = 2;
pub const MAX_REF_IDX: usize = 4;
pub const EB_HME_SEARCH_AREA_COLUMN_MAX_COUNT: usize = 2;
pub const EB_HME_SEARCH_AREA_ROW_MAX_COUNT: usize = 2;
pub const MAX_TPL_GROUP_SIZE: usize = 512;
pub const MAX_TILE_CNTS: usize = 128;
pub const MAX_NUM_TEMPORAL_LAYERS_AV1: usize = 8;
pub const MAX_NUM_SPATIAL_LAYERS: usize = 4;
pub const MAX_NUM_OPERATING_POINTS: usize = MAX_NUM_TEMPORAL_LAYERS_AV1 * MAX_NUM_SPATIAL_LAYERS;
pub const PRIMARY_REF_BITS: usize = 3;
pub const PRIMARY_REF_NONE: usize = 7;
pub const INVALID_IDX: i32 = -1;
pub const ME_FILTER_TAP: usize = 4;
pub const MAX_NUM_BLOCKS_ALLOC: usize = 4421;

/// Output buffer size for a frame of `pixels` luma samples: `pixels * 3 / 2 * 2`.
pub fn bitstream_buffer_size(pixels: usize) -> (r: usize)
    requires pixels * 3 <= usize::MAX,
    ensures r == pixels * 3 / 2 * 2,
{
    pixels * 3 / 2 * 2
}

} // verus!
