//! Selection of the 2D forward and inverse transform for a transform size and type.
use vstd::prelude::*;
use crate::types::transform::{TxSize, TxType};
use crate::dsp::fwd_txfm::{FwdTxfm1d, spec_fwd_txfm_func, get_fwd_txfm_func, fwd_txfm2d, fwd2d_ok,
    spec_fwd_txfm2d, raster};
use crate::dsp::inv_txfm::{InvTxfm1d, spec_inv_txfm_func, get_inv_txfm_func, inv_txfm2d, inv2d_ok,
    spec_inv_txfm2d};
use crate::dsp::copy::block_written;
use crate::dsp::inv_txfm_rect::{inv_txfm2d_rect, inv2d_rect_ok, spec_inv_txfm2d_rect};
use crate::dsp::fwd_txfm_rect::{fwd_txfm2d_rect, fwd2d_rect_ok, spec_fwd_txfm2d_rect};

verus! {

/// The (column, row) 1D transform types of a 2D type: 0 DCT, 1 ADST, 2 flipped ADST,
/// 3 identity.
pub open spec fn spec_tx_type_to_1d(tx_type: TxType) -> (u8, u8) {
    match tx_type {
        TxType::DctDct => (0, 0),
        TxType::AdstDct => (1, 0),
        TxType::DctAdst => (0, 1),
        TxType::AdstAdst => (1, 1),
        TxType::FlipAdstDct => (2, 0),
        TxType::DctFlipAdst => (0, 2),
        TxType::FlipAdstFlipAdst => (2, 2),
        TxType::AdstFlipAdst => (1, 2),
        TxType::FlipAdstAdst => (2, 1),
        TxType::Idtx => (3, 3),
        TxType::VDct => (0, 3),
        TxType::HDct => (3, 0),
        TxType::VAdst => (1, 3),
        TxType::HAdst => (3, 1),
        TxType::VFlipAdst => (2, 3),
        TxType::HFlipAdst => (3, 2),
    }
}

fn tx_type_to_1d(tx_type: TxType) -> (r: (u8, u8))
    ensures r == spec_tx_type_to_1d(tx_type),
{
    match tx_type {
        TxType::DctDct => (0, 0),
        TxType::AdstDct => (1, 0),
        TxType::DctAdst => (0, 1),
        TxType::AdstAdst => (1, 1),
        TxType::FlipAdstDct => (2, 0),
        TxType::DctFlipAdst => (0, 2),
        TxType::FlipAdstFlipAdst => (2, 2),
        TxType::AdstFlipAdst => (1, 2),
        TxType::FlipAdstAdst => (2, 1),
        TxType::Idtx => (3, 3),
        TxType::VDct => (0, 3),
        TxType::HDct => (3, 0),
        TxType::VAdst => (1, 3),
        TxType::HAdst => (3, 1),
        TxType::VFlipAdst => (2, 3),
        TxType::HFlipAdst => (3, 2),
    }
}

/// (width, height) of a transform size.
pub open spec fn spec_tx_size_dims(tx_size: TxSize) -> (usize, usize) {
    match tx_size {
        TxSize::Tx4x4 => (4, 4),
        TxSize::Tx8x8 => (8, 8),
        TxSize::Tx16x16 => (16, 16),
        TxSize::Tx32x32 => (32, 32),
        TxSize::Tx64x64 => (64, 64),
        TxSize::Tx4x8 => (4, 8),
        TxSize::Tx8x4 => (8, 4),
        TxSize::Tx8x16 => (8, 16),
        TxSize::Tx16x8 => (16, 8),
        TxSize::Tx16x32 => (16, 32),
        TxSize::Tx32x16 => (32, 16),
        TxSize::Tx32x64 => (32, 64),
        TxSize::Tx64x32 => (64, 32),
        TxSize::Tx4x16 => (4, 16),
        TxSize::Tx16x4 => (16, 4),
        TxSize::Tx8x32 => (8, 32),
        TxSize::Tx32x8 => (32, 8),
        TxSize::Tx16x64 => (16, 64),
        TxSize::Tx64x16 => (64, 16),
    }
}

fn tx_size_dims(tx_size: TxSize) -> (r: (usize, usize))
    ensures r == spec_tx_size_dims(tx_size),
{
    match tx_size {
        TxSize::Tx4x4 => (4, 4),
        TxSize::Tx8x8 => (8, 8),
        TxSize::Tx16x16 => (16, 16),
        TxSize::Tx32x32 => (32, 32),
        TxSize::Tx64x64 => (64, 64),
        TxSize::Tx4x8 => (4, 8),
        TxSize::Tx8x4 => (8, 4),
        TxSize::Tx8x16 => (8, 16),
        TxSize::Tx16x8 => (16, 8),
        TxSize::Tx16x32 => (16, 32),
        TxSize::Tx32x16 => (32, 16),
        TxSize::Tx32x64 => (32, 64),
        TxSize::Tx64x32 => (64, 32),
        TxSize::Tx4x16 => (4, 16),
        TxSize::Tx16x4 => (16, 4),
        TxSize::Tx8x32 => (8, 32),
        TxSize::Tx32x8 => (32, 8),
        TxSize::Tx16x64 => (16, 64),
        TxSize::Tx64x16 => (64, 16),
    }
}

/// Forward shifts of a transform size (8-bit content).
pub open spec fn spec_fwd_shift(tx_size: TxSize) -> [i32; 3] {
    match tx_size {
        TxSize::Tx4x4 => [2, 0, 0],
        TxSize::Tx8x8 => [2, -1 as i32, 0],
        TxSize::Tx16x16 => [2, -2 as i32, 0],
        TxSize::Tx32x32 => [2, -4 as i32, 0],
        TxSize::Tx64x64 => [2, -6 as i32, 0],
        TxSize::Tx4x8 | TxSize::Tx8x4 => [2, 0, 0],
        TxSize::Tx8x16 | TxSize::Tx16x8 => [2, -1 as i32, 0],
        TxSize::Tx16x32 | TxSize::Tx32x16 => [2, -2 as i32, 0],
        TxSize::Tx32x64 | TxSize::Tx64x32 => [2, -4 as i32, 0],
        TxSize::Tx4x16 | TxSize::Tx16x4 => [2, 0, 0],
        TxSize::Tx8x32 | TxSize::Tx32x8 => [2, -1 as i32, 0],
        TxSize::Tx16x64 | TxSize::Tx64x16 => [2, -2 as i32, 0],
    }
}

fn fwd_shift(tx_size: TxSize) -> (r: [i32; 3])
    ensures r == spec_fwd_shift(tx_size),
{
    match tx_size {
        TxSize::Tx4x4 => [2, 0, 0],
        TxSize::Tx8x8 => [2, -1, 0],
        TxSize::Tx16x16 => [2, -2, 0],
        TxSize::Tx32x32 => [2, -4, 0],
        TxSize::Tx64x64 => [2, -6, 0],
        TxSize::Tx4x8 | TxSize::Tx8x4 => [2, 0, 0],
        TxSize::Tx8x16 | TxSize::Tx16x8 => [2, -1, 0],
        TxSize::Tx16x32 | TxSize::Tx32x16 => [2, -2, 0],
        TxSize::Tx32x64 | TxSize::Tx64x32 => [2, -4, 0],
        TxSize::Tx4x16 | TxSize::Tx16x4 => [2, 0, 0],
        TxSize::Tx8x32 | TxSize::Tx32x8 => [2, -1, 0],
        TxSize::Tx16x64 | TxSize::Tx64x16 => [2, -2, 0],
    }
}

/// Inverse shifts of a transform size (8-bit content).
pub open spec fn spec_inv_shift(tx_size: TxSize) -> [i32; 2] {
    match tx_size {
        TxSize::Tx4x4 => [0, 0],
        TxSize::Tx8x8 => [-1 as i32, 0],
        TxSize::Tx16x16 => [-2 as i32, 0],
        TxSize::Tx32x32 => [-4 as i32, 0],
        TxSize::Tx64x64 => [-6 as i32, 0],
        TxSize::Tx4x8 | TxSize::Tx8x4 => [0, 0],
        TxSize::Tx8x16 | TxSize::Tx16x8 => [-1 as i32, 0],
        TxSize::Tx16x32 | TxSize::Tx32x16 => [-2 as i32, 0],
        TxSize::Tx32x64 | TxSize::Tx64x32 => [-4 as i32, 0],
        TxSize::Tx4x16 | TxSize::Tx16x4 => [0, 0],
        TxSize::Tx8x32 | TxSize::Tx32x8 => [-1 as i32, 0],
        TxSize::Tx16x64 | TxSize::Tx64x16 => [-2 as i32, 0],
    }
}

fn inv_shift(tx_size: TxSize) -> (r: [i32; 2])
    ensures r == spec_inv_shift(tx_size),
{
    match tx_size {
        TxSize::Tx4x4 => [0, 0],
        TxSize::Tx8x8 => [-1, 0],
        TxSize::Tx16x16 => [-2, 0],
        TxSize::Tx32x32 => [-4, 0],
        TxSize::Tx64x64 => [-6, 0],
        TxSize::Tx4x8 | TxSize::Tx8x4 => [0, 0],
        TxSize::Tx8x16 | TxSize::Tx16x8 => [-1, 0],
        TxSize::Tx16x32 | TxSize::Tx32x16 => [-2, 0],
        TxSize::Tx32x64 | TxSize::Tx64x32 => [-4, 0],
        TxSize::Tx4x16 | TxSize::Tx16x4 => [0, 0],
        TxSize::Tx8x32 | TxSize::Tx32x8 => [-1, 0],
        TxSize::Tx16x64 | TxSize::Tx64x16 => [-2, 0],
    }
}

/// The (column, row) forward transforms of a size and a type, when both exist.
pub open spec fn fwd_dispatch_funcs(tx_size: TxSize, tx_type: TxType) -> Option<(FwdTxfm1d, FwdTxfm1d)> {
    let (c1, r1) = spec_tx_type_to_1d(tx_type);
    let (w, h) = spec_tx_size_dims(tx_size);
    if spec_fwd_txfm_func(c1, h) is Some && spec_fwd_txfm_func(r1, w) is Some {
        Some((spec_fwd_txfm_func(c1, h)->0, spec_fwd_txfm_func(r1, w)->0))
    } else {
        None
    }
}

/// The (row, column) inverse transforms of a size and a type, when both exist.
pub open spec fn inv_dispatch_funcs(tx_size: TxSize, tx_type: TxType) -> Option<(InvTxfm1d, InvTxfm1d)> {
    let (c1, r1) = spec_tx_type_to_1d(tx_type);
    let (w, h) = spec_tx_size_dims(tx_size);
    if spec_inv_txfm_func(r1, w) is Some && spec_inv_txfm_func(c1, h) is Some {
        Some((spec_inv_txfm_func(r1, w)->0, spec_inv_txfm_func(c1, h)->0))
    } else {
        None
    }
}

/// Forward 2D transform of a block for a transform size and type. Returns whether the
/// combination is supported (both 1D transforms exist); `output` is left as it was when
/// it is not. Square blocks go through [`fwd_txfm2d`], rectangular ones through
/// [`fwd_txfm2d_rect`]; the result is in raster order, the block width wide.
pub fn fwd_txfm2d_dispatch(input: &[i32], output: &mut [i32], stride: usize, tx_size: TxSize,
    tx_type: TxType) -> (ok: bool)
    requires
        fwd_dispatch_funcs(tx_size, tx_type) is Some ==> {
            let (w, h) = spec_tx_size_dims(tx_size);
            let fg = fwd_dispatch_funcs(tx_size, tx_type)->0;
            &&& (h - 1) * stride + w <= input@.len()
            &&& w * h <= old(output)@.len()
            &&& w == h ==> fwd2d_ok(input@, stride as nat, fg.0, fg.1, w as nat, spec_fwd_shift(tx_size))
            &&& w != h ==> fwd2d_rect_ok(input@, stride as nat, fg.0, fg.1, w as nat, h as nat, spec_fwd_shift(tx_size))
        },
    ensures
        ok == fwd_dispatch_funcs(tx_size, tx_type) is Some,
        !ok ==> final(output)@ == old(output)@,
        ok ==> {
            let (w, h) = spec_tx_size_dims(tx_size);
            let fg = fwd_dispatch_funcs(tx_size, tx_type)->0;
            &&& final(output)@.len() == old(output)@.len()
            &&& w == h ==> forall|k: int| 0 <= k < w * h ==> final(output)@[k]
                == #[trigger] spec_fwd_txfm2d(input@, stride as nat, fg.0, fg.1, w as nat, spec_fwd_shift(tx_size))[k]
            &&& w != h ==> forall|k: int| 0 <= k < w * h ==> final(output)@[k]
                == #[trigger] spec_fwd_txfm2d_rect(input@, stride as nat, fg.0, fg.1, w as nat, h as nat,
                    spec_fwd_shift(tx_size))[k]
            &&& forall|k: int| w * h <= k < old(output)@.len() ==> final(output)@[k] == old(output)@[k]
        },
{
    let (col_1d, row_1d) = tx_type_to_1d(tx_type);
    let (w, h) = tx_size_dims(tx_size);
    let col_func = match get_fwd_txfm_func(col_1d, h) {
        Some(f) => f,
        None => return false,
    };
    let row_func = match get_fwd_txfm_func(row_1d, w) {
        Some(f) => f,
        None => return false,
    };
    let shift = fwd_shift(tx_size);
    if w == h {
        fwd_txfm2d(input, output, stride, col_func, row_func, w, shift);
    } else {
        fwd_txfm2d_rect(input, output, stride, col_func, row_func, w, h, shift);
    }
    true
}

/// Inverse 2D transform of a block for a transform size and type, written with row
/// stride `stride`. Returns whether the combination is supported (both 1D transforms
/// exist; flipped ADST has none); `output` is left as it was when it is not. Square
/// blocks go through [`inv_txfm2d`], rectangular ones through [`inv_txfm2d_rect`].
pub fn inv_txfm2d_dispatch(input: &[i32], output: &mut [i32], stride: usize, tx_size: TxSize,
    tx_type: TxType) -> (ok: bool)
    requires
        inv_dispatch_funcs(tx_size, tx_type) is Some ==> {
            let (w, h) = spec_tx_size_dims(tx_size);
            let gf = inv_dispatch_funcs(tx_size, tx_type)->0;
            &&& w <= stride
            &&& (h - 1) * stride + w <= input@.len()
            &&& (h - 1) * stride + w <= old(output)@.len()
            &&& w == h ==> inv2d_ok(input@, stride as nat, gf.0, gf.1, w as nat, spec_inv_shift(tx_size))
            &&& w != h ==> inv2d_rect_ok(input@, stride as nat, gf.0, gf.1, w as nat, h as nat, spec_inv_shift(tx_size))
        },
    ensures
        ok == inv_dispatch_funcs(tx_size, tx_type) is Some,
        !ok ==> final(output)@ == old(output)@,
        ok && spec_tx_size_dims(tx_size).0 == spec_tx_size_dims(tx_size).1 ==> {
            let n = spec_tx_size_dims(tx_size).0;
            let gf = inv_dispatch_funcs(tx_size, tx_type)->0;
            &&& block_written(final(output)@, old(output)@, stride as nat, n as nat, n as nat,
                |r: int, c: int| spec_inv_txfm2d(input@, stride as nat, gf.0, gf.1, n as nat, spec_inv_shift(tx_size), r, c) as i32)
            &&& forall|r: int, c: int| 0 <= r < n && 0 <= c < n ==> final(output)@[#[trigger] raster(r, c, stride as int)]
                == spec_inv_txfm2d(input@, stride as nat, gf.0, gf.1, n as nat, spec_inv_shift(tx_size), r, c)
        },
        ok && spec_tx_size_dims(tx_size).0 != spec_tx_size_dims(tx_size).1 ==> {
            let (w, h) = spec_tx_size_dims(tx_size);
            let gf = inv_dispatch_funcs(tx_size, tx_type)->0;
            &&& block_written(final(output)@, old(output)@, stride as nat, w as nat, h as nat,
                |r: int, c: int| spec_inv_txfm2d_rect(input@, stride as nat, gf.0, gf.1, w as nat, h as nat,
                    spec_inv_shift(tx_size), r, c) as i32)
            &&& forall|r: int, c: int| 0 <= r < h && 0 <= c < w ==> final(output)@[#[trigger] raster(r, c, stride as int)]
                == spec_inv_txfm2d_rect(input@, stride as nat, gf.0, gf.1, w as nat, h as nat, spec_inv_shift(tx_size), r, c)
        },
{
    let (col_1d, row_1d) = tx_type_to_1d(tx_type);
    let (w, h) = tx_size_dims(tx_size);
    let row_func = match get_inv_txfm_func(row_1d, w) {
        Some(f) => f,
        None => return false,
    };
    let col_func = match get_inv_txfm_func(col_1d, h) {
        Some(f) => f,
        None => return false,
    };
    let shift = inv_shift(tx_size);
    if w == h {
        inv_txfm2d(input, output, stride, row_func, col_func, w, shift);
    } else {
        inv_txfm2d_rect(input, output, stride, row_func, col_func, w, h, shift);
    }
    true
}

} // verus!
