//! Transform lookup tables, indexed by `TxSize::as_index` and `TxType` order.
use vstd::prelude::*;

verus! {

/// Log2 of the width of each transform size.
pub const TX_SIZE_WIDE_LOG2: [u8; 19] = [2, 3, 4, 5, 6, 2, 3, 3, 4, 4, 5, 5, 6, 2, 4, 3, 5, 4, 6];

/// Log2 of the height of each transform size.
pub const TX_SIZE_HIGH_LOG2: [u8; 19] = [2, 3, 4, 5, 6, 3, 2, 4, 3, 5, 4, 6, 5, 4, 2, 5, 3, 6, 4];

/// Width in pixels of each transform size.
pub const TX_SIZE_WIDE: [u8; 19] = [4, 8, 16, 32, 64, 4, 8, 8, 16, 16, 32, 32, 64, 4, 16, 8, 32, 16, 64];

/// Height in pixels of each transform size.
pub const TX_SIZE_HIGH: [u8; 19] = [4, 8, 16, 32, 64, 8, 4, 16, 8, 32, 16, 64, 32, 16, 4, 32, 8, 64, 16];

/// Column 1D transform of each 2D transform type (0 DCT, 1 ADST, 2 FLIPADST, 3 identity).
pub const TX_TYPE_TO_1D_COL: [u8; 16] = [0, 1, 0, 1, 2, 0, 2, 1, 2, 3, 0, 3, 1, 3, 2, 3];

/// Row 1D transform of each 2D transform type (0 DCT, 1 ADST, 2 FLIPADST, 3 identity).
pub const TX_TYPE_TO_1D_ROW: [u8; 16] = [0, 0, 1, 1, 0, 2, 2, 2, 1, 3, 3, 0, 3, 1, 3, 2];

/// Table law: every transform width and height is two to the power of its log2 entry.
pub proof fn lemma_tx_tables_consistent()
    ensures
        forall|i: int| 0 <= i < 19 ==> {
            &&& #[trigger] TX_SIZE_WIDE[i] as int == vstd::arithmetic::power2::pow2(TX_SIZE_WIDE_LOG2[i] as nat)
            &&& TX_SIZE_HIGH[i] as int == vstd::arithmetic::power2::pow2(TX_SIZE_HIGH_LOG2[i] as nat)
        },
{
    vstd::arithmetic::power2::lemma2_to64();
}

} // verus!
