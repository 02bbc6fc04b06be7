//! Block size definitions.
use vstd::prelude::*;

verus! {

/// AV1 block sizes, in the order of the reference encoder's enumeration:
/// sixteen standard sizes followed by six extended rectangular ones.
#[derive(Debug, Clone, Copy, PartialEq, Eq, Structural, PartialOrd, Ord, Hash)]
pub enum BlockSize {
    Block4x4,
    Block4x8,
    Block8x4,
    Block8x8,
    Block8x16,
    Block16x8,
    Block16x16,
    Block16x32,
    Block32x16,
    Block32x32,
    Block32x64,
    Block64x32,
    Block64x64,
    Block64x128,
    Block128x64,
    Block128x128,
    Block4x16,
    Block16x4,
    Block8x32,
    Block32x8,
    Block16x64,
    Block64x16,
}

/// Total number of block size variants.
pub const BLOCK_SIZES_ALL: usize = 22;

impl BlockSize {
    /// Total number of block size variants (BLOCK_SIZES_ALL).
    pub const SIZES_ALL: usize = 22;
    /// Number of standard block sizes (square plus 2:1 and 1:2).
    pub const SIZES: usize = 16;

    /// All block sizes in enumeration order.
    pub const ALL: [BlockSize; 22] = [
        BlockSize::Block4x4,
        BlockSize::Block4x8,
        BlockSize::Block8x4,
        BlockSize::Block8x8,
        BlockSize::Block8x16,
        BlockSize::Block16x8,
        BlockSize::Block16x16,
        BlockSize::Block16x32,
        BlockSize::Block32x16,
        BlockSize::Block32x32,
        BlockSize::Block32x64,
        BlockSize::Block64x32,
        BlockSize::Block64x64,
        BlockSize::Block64x128,
        BlockSize::Block128x64,
        BlockSize::Block128x128,
        BlockSize::Block4x16,
        BlockSize::Block16x4,
        BlockSize::Block8x32,
        BlockSize::Block32x8,
        BlockSize::Block16x64,
        BlockSize::Block64x16,
    ];

    /// The position of this size in the enumeration.
    pub open spec fn index(self) -> nat {
        match self {
            BlockSize::Block4x4 => 0,
            BlockSize::Block4x8 => 1,
            BlockSize::Block8x4 => 2,
            BlockSize::Block8x8 => 3,
            BlockSize::Block8x16 => 4,
            BlockSize::Block16x8 => 5,
            BlockSize::Block16x16 => 6,
            BlockSize::Block16x32 => 7,
            BlockSize::Block32x16 => 8,
            BlockSize::Block32x32 => 9,
            BlockSize::Block32x64 => 10,
            BlockSize::Block64x32 => 11,
            BlockSize::Block64x64 => 12,
            BlockSize::Block64x128 => 13,
            BlockSize::Block128x64 => 14,
            BlockSize::Block128x128 => 15,
            BlockSize::Block4x16 => 16,
            BlockSize::Block16x4 => 17,
            BlockSize::Block8x32 => 18,
            BlockSize::Block32x8 => 19,
            BlockSize::Block16x64 => 20,
            BlockSize::Block64x16 => 21,
        }
    }

    /// Square sizes: 4x4, 8x8, 16x16, 32x32, 64x64, 128x128.
    pub open spec fn spec_is_square(self) -> bool {
        self == BlockSize::Block4x4 || self == BlockSize::Block8x8 || self == BlockSize::Block16x16
            || self == BlockSize::Block32x32 || self == BlockSize::Block64x64
            || self == BlockSize::Block128x128
    }

    /// Convert from the raw enumeration value; `None` for values of 22 and above.
    pub fn from_u8(v: u8) -> (r: Option<Self>)
        ensures
            v < 22 ==> r is Some && r->0.index() == v,
            v >= 22 ==> r is None,
    {
        match v {
            0 => Some(BlockSize::Block4x4),
            1 => Some(BlockSize::Block4x8),
            2 => Some(BlockSize::Block8x4),
            3 => Some(BlockSize::Block8x8),
            4 => Some(BlockSize::Block8x16),
            5 => Some(BlockSize::Block16x8),
            6 => Some(BlockSize::Block16x16),
            7 => Some(BlockSize::Block16x32),
            8 => Some(BlockSize::Block32x16),
            9 => Some(BlockSize::Block32x32),
            10 => Some(BlockSize::Block32x64),
            11 => Some(BlockSize::Block64x32),
            12 => Some(BlockSize::Block64x64),
            13 => Some(BlockSize::Block64x128),
            14 => Some(BlockSize::Block128x64),
            15 => Some(BlockSize::Block128x128),
            16 => Some(BlockSize::Block4x16),
            17 => Some(BlockSize::Block16x4),
            18 => Some(BlockSize::Block8x32),
            19 => Some(BlockSize::Block32x8),
            20 => Some(BlockSize::Block16x64),
            21 => Some(BlockSize::Block64x16),
            _ => None,
        }
    }

    /// Index into lookup tables (the enumeration value).
    pub fn as_index(self) -> (r: usize)
        ensures r == self.index(), r < 22,
    {
        match self {
            BlockSize::Block4x4 => 0,
            BlockSize::Block4x8 => 1,
            BlockSize::Block8x4 => 2,
            BlockSize::Block8x8 => 3,
            BlockSize::Block8x16 => 4,
            BlockSize::Block16x8 => 5,
            BlockSize::Block16x16 => 6,
            BlockSize::Block16x32 => 7,
            BlockSize::Block32x16 => 8,
            BlockSize::Block32x32 => 9,
            BlockSize::Block32x64 => 10,
            BlockSize::Block64x32 => 11,
            BlockSize::Block64x64 => 12,
            BlockSize::Block64x128 => 13,
            BlockSize::Block128x64 => 14,
            BlockSize::Block128x128 => 15,
            BlockSize::Block4x16 => 16,
            BlockSize::Block16x4 => 17,
            BlockSize::Block8x32 => 18,
            BlockSize::Block32x8 => 19,
            BlockSize::Block16x64 => 20,
            BlockSize::Block64x16 => 21,
        }
    }

    /// Returns true if this is a square block size.
    pub fn is_square(self) -> (r: bool)
        ensures r == self.spec_is_square(),
    {
        match self {
            BlockSize::Block4x4 | BlockSize::Block8x8 | BlockSize::Block16x16 | BlockSize::Block32x32
            | BlockSize::Block64x64 | BlockSize::Block128x128 => true,
            _ => false,
        }
    }

    /// All block sizes in enumeration order.
    pub fn all() -> (r: Vec<Self>)
        ensures
            r.len() == 22,
            forall|i: int| 0 <= i < 22 ==> (#[trigger] r@[i]).index() == i,
    {
        let mut v: Vec<Self> = Vec::new();
        let mut i: u8 = 0;
        while i < 22
            invariant
                i <= 22,
                v.len() == i,
                forall|j: int| 0 <= j < i ==> (#[trigger] v@[j]).index() == j,
            decreases 22 - i,
        {
            let b = BlockSize::from_u8(i);
            v.push(b.unwrap());
            i = i + 1;
        }
        v
    }
}

/// Round-trip law: converting a block size to its index and back gives it again.
pub proof fn lemma_block_size_index_roundtrip(b: BlockSize)
    ensures
        b.index() < 22,
        forall|c: BlockSize| c.index() == b.index() ==> c == b,
{
}

} // verus!
