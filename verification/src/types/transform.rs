//! Transform type and size definitions.
use vstd::prelude::*;

verus! {

/// AV1 transform sizes: five square, eight 2:1 rectangular, six 4:1 rectangular.
#[derive(Debug, Clone, Copy, PartialEq, Eq, Structural, PartialOrd, Ord, Hash)]
pub enum TxSize {
    Tx4x4,
    Tx8x8,
    Tx16x16,
    Tx32x32,
    Tx64x64,
    Tx4x8,
    Tx8x4,
    Tx8x16,
    Tx16x8,
    Tx16x32,
    Tx32x16,
    Tx32x64,
    Tx64x32,
    Tx4x16,
    Tx16x4,
    Tx8x32,
    Tx32x8,
    Tx16x64,
    Tx64x16,
}

impl TxSize {
    /// Total number of transform sizes (TX_SIZES_ALL).
    pub const SIZES_ALL: usize = 19;
    /// Number of square transform sizes.
    pub const SIZES_SQUARE: usize = 5;

    /// The position of this size in the enumeration.
    pub open spec fn index(self) -> nat {
        match self {
            TxSize::Tx4x4 => 0,
            TxSize::Tx8x8 => 1,
            TxSize::Tx16x16 => 2,
            TxSize::Tx32x32 => 3,
            TxSize::Tx64x64 => 4,
            TxSize::Tx4x8 => 5,
            TxSize::Tx8x4 => 6,
            TxSize::Tx8x16 => 7,
            TxSize::Tx16x8 => 8,
            TxSize::Tx16x32 => 9,
            TxSize::Tx32x16 => 10,
            TxSize::Tx32x64 => 11,
            TxSize::Tx64x32 => 12,
            TxSize::Tx4x16 => 13,
            TxSize::Tx16x4 => 14,
            TxSize::Tx8x32 => 15,
            TxSize::Tx32x8 => 16,
            TxSize::Tx16x64 => 17,
            TxSize::Tx64x16 => 18,
        }
    }

    /// Convert from the raw enumeration value; `None` for values of 19 and above.
    pub fn from_u8(v: u8) -> (r: Option<Self>)
        ensures
            v < 19 ==> r is Some && r->0.index() == v,
            v >= 19 ==> r is None,
    {
        match v {
            0 => Some(TxSize::Tx4x4),
            1 => Some(TxSize::Tx8x8),
            2 => Some(TxSize::Tx16x16),
            3 => Some(TxSize::Tx32x32),
            4 => Some(TxSize::Tx64x64),
            5 => Some(TxSize::Tx4x8),
            6 => Some(TxSize::Tx8x4),
            7 => Some(TxSize::Tx8x16),
            8 => Some(TxSize::Tx16x8),
            9 => Some(TxSize::Tx16x32),
            10 => Some(TxSize::Tx32x16),
            11 => Some(TxSize::Tx32x64),
            12 => Some(TxSize::Tx64x32),
            13 => Some(TxSize::Tx4x16),
            14 => Some(TxSize::Tx16x4),
            15 => Some(TxSize::Tx8x32),
            16 => Some(TxSize::Tx32x8),
            17 => Some(TxSize::Tx16x64),
            18 => Some(TxSize::Tx64x16),
            _ => None,
        }
    }

    /// Index into lookup tables (the enumeration value).
    pub fn as_index(self) -> (r: usize)
        ensures r == self.index(), r < 19,
    {
        match self {
            TxSize::Tx4x4 => 0,
            TxSize::Tx8x8 => 1,
            TxSize::Tx16x16 => 2,
            TxSize::Tx32x32 => 3,
            TxSize::Tx64x64 => 4,
            TxSize::Tx4x8 => 5,
            TxSize::Tx8x4 => 6,
            TxSize::Tx8x16 => 7,
            TxSize::Tx16x8 => 8,
            TxSize::Tx16x32 => 9,
            TxSize::Tx32x16 => 10,
            TxSize::Tx32x64 => 11,
            TxSize::Tx64x32 => 12,
            TxSize::Tx4x16 => 13,
            TxSize::Tx16x4 => 14,
            TxSize::Tx8x32 => 15,
            TxSize::Tx32x8 => 16,
            TxSize::Tx16x64 => 17,
            TxSize::Tx64x16 => 18,
        }
    }
}

/// Round-trip law: a transform size's index converts back to the same size.
pub proof fn lemma_tx_size_index_roundtrip(t: TxSize)
    ensures
        t.index() < 19,
        forall|u: TxSize| u.index() == t.index() ==> u == t,
{
}

/// The sixteen 2D transform types.
#[derive(Debug, Clone, Copy, PartialEq, Eq, Structural, Hash)]
pub enum TxType {
    DctDct,
    AdstDct,
    DctAdst,
    AdstAdst,
    FlipAdstDct,
    DctFlipAdst,
    FlipAdstFlipAdst,
    AdstFlipAdst,
    FlipAdstAdst,
    Idtx,
    VDct,
    HDct,
    VAdst,
    HAdst,
    VFlipAdst,
    HFlipAdst,
}

impl TxType {
    /// Number of transform types.
    pub const COUNT: usize = 16;
    /// Invalid sentinel value.
    pub const INVALID_RAW: u8 = 16;

    /// The position of this type in the enumeration.
    pub open spec fn index(self) -> nat {
        match self {
            TxType::DctDct => 0,
            TxType::AdstDct => 1,
            TxType::DctAdst => 2,
            TxType::AdstAdst => 3,
            TxType::FlipAdstDct => 4,
            TxType::DctFlipAdst => 5,
            TxType::FlipAdstFlipAdst => 6,
            TxType::AdstFlipAdst => 7,
            TxType::FlipAdstAdst => 8,
            TxType::Idtx => 9,
            TxType::VDct => 10,
            TxType::HDct => 11,
            TxType::VAdst => 12,
            TxType::HAdst => 13,
            TxType::VFlipAdst => 14,
            TxType::HFlipAdst => 15,
        }
    }

    /// True for the nine types that transform in both directions (all before `Idtx`).
    pub fn is_2d(self) -> (r: bool)
        ensures r == (self.index() < 9),
    {
        match self {
            TxType::Idtx | TxType::VDct | TxType::HDct | TxType::VAdst | TxType::HAdst
            | TxType::VFlipAdst | TxType::HFlipAdst => false,
            _ => true,
        }
    }
}

/// One-dimensional transform kinds that make up a 2D transform.
#[derive(Debug, Clone, Copy, PartialEq, Eq, Structural, Hash)]
pub enum TxType1D {
    Dct,
    Adst,
    FlipAdst,
    Identity,
}

impl TxType1D {
    pub const COUNT: usize = 4;
}

/// Transform class.
#[derive(Debug, Clone, Copy, PartialEq, Eq, Structural, Hash)]
pub enum TxClass {
    TwoD,
    Horiz,
    Vert,
}

impl TxClass {
    pub const COUNT: usize = 3;
}

/// Frame transform mode.
#[derive(Debug, Clone, Copy, PartialEq, Eq, Structural, Hash)]
pub enum TxMode {
    Only4x4,
    Largest,
    Select,
}

impl TxMode {
    pub const COUNT: usize = 3;
}

/// Extended transform set types.
#[derive(Debug, Clone, Copy, PartialEq, Eq, Structural, Hash)]
pub enum TxSetType {
    DctOnly,
    DctIdtx,
    Dtt4Idtx,
    Dtt4Idtx1dDct,
    Dtt9Idtx1dDct,
    All16,
}

impl TxSetType {
    pub const COUNT: usize = 6;
}

/// Parameters of a forward or inverse transform.
#[derive(Debug, Clone, Copy)]
pub struct TxfmParam {
    pub tx_type: TxType,
    pub tx_size: TxSize,
    pub lossless: bool,
    pub bd: u8,
    pub is_hbd: bool,
    pub tx_set_type: TxSetType,
    /// End-of-block position (inverse transforms only).
    pub eob: i32,
}

/// Number of sizes that use extended transforms.
pub const EXT_TX_SIZES: usize = 4;
/// Sets of transform selections for inter blocks.
pub const EXT_TX_SETS_INTER: usize = 4;
/// Sets of transform selections for intra blocks.
pub const EXT_TX_SETS_INTRA: usize = 3;

/// Transform coefficient type.
pub type TranLow = i32;

/// Quantization matrix entry type.
pub type QmVal = u8;

} // verus!
