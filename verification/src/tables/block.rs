//! Block size lookup tables, indexed by `BlockSize::as_index`.
use vstd::prelude::*;

verus! {

/// Width in pixels of each block size.
pub const BLOCK_SIZE_WIDE: [u8; 22] = [
    4, 4, 8, 8, 8, 16, 16, 16, 32, 32, 32, 64, 64, 64, 128, 128, 4, 16, 8, 32, 16, 64,
];

/// Height in pixels of each block size.
pub const BLOCK_SIZE_HIGH: [u8; 22] = [
    4, 8, 4, 8, 16, 8, 16, 32, 16, 32, 64, 32, 64, 128, 64, 128, 16, 4, 32, 8, 64, 16,
];

/// Log2 of the width of each block size.
pub const BLOCK_SIZE_WIDE_LOG2: [u8; 22] = [
    2, 2, 3, 3, 3, 4, 4, 4, 5, 5, 5, 6, 6, 6, 7, 7, 2, 4, 3, 5, 4, 6,
];

/// Log2 of the height of each block size.
pub const BLOCK_SIZE_HIGH_LOG2: [u8; 22] = [
    2, 3, 2, 3, 4, 3, 4, 5, 4, 5, 6, 5, 6, 7, 6, 7, 4, 2, 5, 3, 6, 4,
];

/// Number of 4x4 units across each block size.
pub const NUM_4X4_BLOCKS_WIDE: [u8; 22] = [
    1, 1, 2, 2, 2, 4, 4, 4, 8, 8, 8, 16, 16, 16, 32, 32, 1, 4, 2, 8, 4, 16,
];

/// Number of 4x4 units down each block size.
pub const NUM_4X4_BLOCKS_HIGH: [u8; 22] = [
    1, 2, 1, 2, 4, 2, 4, 8, 4, 8, 16, 8, 16, 32, 16, 32, 4, 1, 8, 2, 16, 4,
];

/// Above partition context of each block size.
pub const PARTITION_CONTEXT_ABOVE: [i8; 22] = [
    31, 31, 30, 30, 30, 28, 28, 28, 24, 24, 24, 16, 16, 16, 0, 0, 31, 28, 30, 24, 28, 16,
];

/// Left partition context of each block size.
pub const PARTITION_CONTEXT_LEFT: [i8; 22] = [
    31, 30, 31, 30, 28, 30, 28, 24, 28, 24, 16, 24, 16, 0, 16, 0, 28, 31, 24, 30, 16, 28,
];

/// Table law: every width and height is two to the power of its log2 entry,
/// and counts of 4x4 units are the dimensions divided by four.
pub proof fn lemma_block_tables_consistent()
    ensures
        forall|i: int| 0 <= i < 22 ==> {
            &&& #[trigger] BLOCK_SIZE_WIDE[i] as int == vstd::arithmetic::power2::pow2(BLOCK_SIZE_WIDE_LOG2[i] as nat)
            &&& BLOCK_SIZE_HIGH[i] as int == vstd::arithmetic::power2::pow2(BLOCK_SIZE_HIGH_LOG2[i] as nat)
            &&& NUM_4X4_BLOCKS_WIDE[i] as int * 4 == BLOCK_SIZE_WIDE[i] as int
            &&& NUM_4X4_BLOCKS_HIGH[i] as int * 4 == BLOCK_SIZE_HIGH[i] as int
        },
{
    vstd::arithmetic::power2::lemma2_to64();
}

} // verus!
