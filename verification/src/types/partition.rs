//! Partition type definitions.
use vstd::prelude::*;

verus! {

/// The ten AV1 partition types; `PartitionNone` is the unsplit block.
#[derive(Debug, Clone, Copy, PartialEq, Eq, Structural, Hash)]
pub enum PartitionType {
    PartitionNone,
    Horz,
    Vert,
    Split,
    HorzA,
    HorzB,
    VertA,
    VertB,
    Horz4,
    Vert4,
}

impl PartitionType {
    pub const EXT_TYPES: usize = 10;
    pub const BASIC_TYPES: usize = 4;
    pub const INVALID_RAW: u8 = 255;
}

/// Partition shapes used by mode decision.
#[derive(Debug, Clone, Copy, PartialEq, Eq, Structural, Hash)]
pub enum Part {
    N,
    H,
    V,
    H4,
    V4,
    Ha,
    Hb,
    Va,
    Vb,
    S,
}

pub const PARTITION_PLOFFSET: usize = 4;
pub const PARTITION_BLOCK_SIZES: usize = 5;
pub const PARTITION_CONTEXTS: usize = PARTITION_BLOCK_SIZES * PARTITION_PLOFFSET;

} // verus!
