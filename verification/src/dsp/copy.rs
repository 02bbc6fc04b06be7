//! Block copies and blends of 8-bit pixels (copies, compound averages, masked
//! and distance-weighted blends).
use vstd::prelude::*;
use crate::dsp::fwd_txfm::{raster, lemma_raster_injective, lemma_raster_divmod};

verus! {

/// A `width` x `height` block with row stride `stride` lies within `len` entries.
pub open spec fn block_fits(len: nat, stride: nat, width: nat, height: nat) -> bool {
    width == 0 || height == 0 || (height - 1) * stride + width <= len
}

/// Entry `i` of a buffer with row stride `stride` lies in the `width` x `height` block.
pub open spec fn in_block(i: int, stride: nat, width: nat, height: nat) -> bool {
    stride > 0 && 0 <= i && i / (stride as int) < height && i % (stride as int) < width
}

/// `new` is `old` with the block `width` x `height` (row stride `stride`) holding `val(r, c)`.
pub open spec fn block_written<T>(new: Seq<T>, old: Seq<T>, stride: nat, width: nat, height: nat,
    val: spec_fn(int, int) -> T) -> bool {
    &&& new.len() == old.len()
    &&& forall|r: int, c: int| 0 <= r < height && 0 <= c < width ==>
        new[#[trigger] raster(r, c, stride as int)] == val(r, c)
    &&& forall|i: int| 0 <= i < old.len() && !in_block(i, stride, width, height) ==> #[trigger] new[i] == old[i]
}

/// Fill the block of `dst` row by row with `val`, as each block operation does.
pub proof fn lemma_block_step<T>(dst_new: Seq<T>, dst_old: Seq<T>, old: Seq<T>, stride: nat, width: nat, height: nat,
    val: spec_fn(int, int) -> T, r: int, c: int)
    requires
        0 <= r < height, 0 <= c < width, width <= stride,
        (height - 1) * stride + width <= old.len(),
        dst_old.len() == old.len(),
        dst_new == dst_old.update(raster(r, c, stride as int), val(r, c)),
        forall|rr: int, cc: int| 0 <= rr < height && 0 <= cc < width && (rr < r || (rr == r && cc < c)) ==>
            dst_old[#[trigger] raster(rr, cc, stride as int)] == val(rr, cc),
        forall|i: int| 0 <= i < old.len() && !in_block(i, stride, width, height) ==> #[trigger] dst_old[i] == old[i],
    ensures
        forall|rr: int, cc: int| 0 <= rr < height && 0 <= cc < width && (rr < r || (rr == r && cc <= c)) ==>
            dst_new[#[trigger] raster(rr, cc, stride as int)] == val(rr, cc),
        forall|i: int| 0 <= i < old.len() && !in_block(i, stride, width, height) ==> #[trigger] dst_new[i] == old[i],
{
    lemma_raster_injective(stride as int);
    lemma_raster_divmod(r, c, stride as int);
    assert(in_block(raster(r, c, stride as int), stride, width, height));
    assert(0 <= r * stride + c < (height - 1) * stride + width) by (nonlinear_arith)
        requires 0 <= r < height, 0 <= c < width, stride >= 0;
    assert forall|rr: int, cc: int| 0 <= rr < height && 0 <= cc < width && (rr < r || (rr == r && cc <= c)) implies
        dst_new[#[trigger] raster(rr, cc, stride as int)] == val(rr, cc) by {
        if rr != r || cc != c {
            assert(raster(rr, cc, stride as int) != raster(r, c, stride as int));
            assert(0 <= rr * stride + cc < (height - 1) * stride + width) by (nonlinear_arith)
                requires 0 <= rr < height, 0 <= cc < width, stride >= 0;
        }
    }
}

/// The last of the first `nrows` rows (each `stride` apart) that starts at or before
/// entry `i`: the only row that can hold `i` last when rows overlap.
pub open spec fn last_run(i: int, stride: nat, nrows: int) -> int {
    if stride == 0 { nrows - 1 } else if i / (stride as int) < nrows - 1 { i / (stride as int) } else { nrows - 1 }
}

/// Entry `i` lies in one of the first `nrows` runs of `width` entries, `stride` apart.
pub open spec fn covered(i: int, stride: nat, width: nat, nrows: int) -> bool {
    let r = last_run(i, stride, nrows);
    nrows > 0 && 0 <= i && r * stride <= i && i - r * stride < width
}

/// Entry `i` after the rows below `nrows` of a block were written in raster order over
/// `old`: the value of the last row that holds it, or the old value.
pub open spec fn rows_state<T>(old: Seq<T>, stride: nat, width: nat, val: spec_fn(int, int) -> T, nrows: int, i: int) -> T {
    if covered(i, stride, width, nrows) {
        let r = last_run(i, stride, nrows);
        val(r, i - r * stride)
    } else {
        old[i]
    }
}

/// `new` is `old` after pixel `(r, c)` of the `width` x `height` block took `val(r, c)`
/// at `r * stride + c`, in raster order: where rows overlap (`width > stride`), the
/// later row wins.
pub open spec fn block_rows_written<T>(new: Seq<T>, old: Seq<T>, stride: nat, width: nat, height: nat,
    val: spec_fn(int, int) -> T) -> bool {
    &&& new.len() == old.len()
    &&& forall|i: int| 0 <= i < old.len() ==> #[trigger] new[i] == rows_state(old, stride, width, val, height as int, i)
}

/// Writing row `row` over the state after the rows before it gives the state after it.
pub proof fn lemma_rows_next<T>(old: Seq<T>, stride: nat, width: nat, val: spec_fn(int, int) -> T, row: int, i: int)
    requires 0 <= row, 0 <= i,
    ensures
        rows_state(old, stride, width, val, row + 1, i) == (if row * stride <= i < row * stride + width {
            val(row, i - row * stride) } else { rows_state(old, stride, width, val, row, i) }),
{
    if stride > 0 {
        let s = stride as int;
        let q = i / s;
        vstd::arithmetic::div_mod::lemma_fundamental_div_mod(i, s);
        let m = i % s;
        if i >= row * s {
            assert(q >= row) by (nonlinear_arith) requires i == s * q + m, 0 <= m < s, i >= row * s, s > 0;
        } else {
            assert(q < row) by (nonlinear_arith) requires i == s * q + m, 0 <= m < s, i < row * s, s > 0;
            assert(q >= 0) by (nonlinear_arith) requires i == s * q + m, 0 <= m < s, i >= 0, s > 0;
        }
        if row * s <= i < row * s + width {
        } else if i < row * s {
            assert(last_run(i, stride, row + 1) == q);
            assert(last_run(i, stride, row) == q);
        } else {
            assert(last_run(i, stride, row + 1) == row);
            if row > 0 {
                assert(last_run(i, stride, row) == row - 1);
                assert(i - (row - 1) * s >= width) by (nonlinear_arith)
                    requires i >= row * s + width, s > 0;
            }
        }
    }
}

/// Entry `i` while row `row` is being written: its first `col` pixels are in, the rest
/// of the entries are as the earlier rows left them.
pub open spec fn row_partial<T>(old: Seq<T>, stride: nat, width: nat, val: spec_fn(int, int) -> T, row: int, col: int,
    i: int) -> T {
    if row * stride <= i < row * stride + col { val(row, i - row * stride) } else { rows_state(old, stride, width, val, row, i) }
}

/// Writing pixel `(row, col)` extends the partial row by one pixel.
pub proof fn lemma_rows_write<T>(dst_new: Seq<T>, dst_old: Seq<T>, old: Seq<T>, stride: nat, width: nat,
    val: spec_fn(int, int) -> T, row: int, col: int)
    requires
        0 <= row, 0 <= col < width,
        0 <= row * stride + col < old.len(),
        dst_old.len() == old.len(),
        dst_new == dst_old.update(row * stride + col, val(row, col)),
        forall|i: int| 0 <= i < old.len() ==> #[trigger] dst_old[i] == row_partial(old, stride, width, val, row, col, i),
    ensures
        dst_new.len() == old.len(),
        forall|i: int| 0 <= i < old.len() ==> #[trigger] dst_new[i] == row_partial(old, stride, width, val, row, col + 1, i),
{
    assert forall|i: int| 0 <= i < old.len() implies #[trigger] dst_new[i] == row_partial(old, stride, width, val, row, col + 1, i) by {
        if i != row * stride + col {
            assert(dst_new[i] == dst_old[i]);
        }
    }
}

/// A fully written row gives the state after it.
pub proof fn lemma_rows_done<T>(dst: Seq<T>, old: Seq<T>, stride: nat, width: nat, val: spec_fn(int, int) -> T, row: int)
    requires
        0 <= row,
        forall|i: int| 0 <= i < old.len() ==> #[trigger] dst[i] == row_partial(old, stride, width, val, row, width as int, i),
    ensures
        forall|i: int| 0 <= i < old.len() ==> #[trigger] dst[i] == rows_state(old, stride, width, val, row + 1, i),
{
    assert forall|i: int| 0 <= i < old.len() implies #[trigger] dst[i] == rows_state(old, stride, width, val, row + 1, i) by {
        lemma_rows_next(old, stride, width, val, row, i);
    }
}

/// Without overlapping rows, writing the rows in raster order is [`block_written`].
pub proof fn lemma_rows_block<T>(new: Seq<T>, old: Seq<T>, stride: nat, width: nat, height: nat,
    val: spec_fn(int, int) -> T)
    requires
        width <= stride,
        width > 0 && height > 0 ==> (height - 1) * stride + width <= old.len(),
        block_rows_written(new, old, stride, width, height, val),
    ensures
        block_written(new, old, stride, width, height, val),
{
    let s = stride as int;
    assert forall|r: int, c: int| 0 <= r < height && 0 <= c < width implies
        new[#[trigger] raster(r, c, s)] == val(r, c) by {
        lemma_raster_divmod(r, c, s);
        assert(0 <= r * s + c < old.len()) by (nonlinear_arith)
            requires 0 <= r < height, 0 <= c < width, (height - 1) * s + width <= old.len(), s >= 0;
        assert(last_run(r * s + c, stride, height as int) == r);
        assert(new[r * s + c] == rows_state(old, stride, width, val, height as int, r * s + c));
    }
    assert forall|i: int| 0 <= i < old.len() && !in_block(i, stride, width, height) implies #[trigger] new[i] == old[i] by {
        assert(new[i] == rows_state(old, stride, width, val, height as int, i));
        if stride > 0 && height > 0 {
            vstd::arithmetic::div_mod::lemma_fundamental_div_mod(i, s);
            let q = i / s;
            let m = i % s;
            let r = last_run(i, stride, height as int);
            if q >= height {
                assert(i - (height - 1) * s >= s) by (nonlinear_arith)
                    requires i == s * q + m, 0 <= m, q >= height, s > 0;
            } else {
                assert(r == q);
                assert(i - q * s == m) by (nonlinear_arith) requires i == s * q + m;
            }
        }
    }
}

/// Copy a `width` x `height` block of pixels.
pub fn block_copy(dst: &mut [u8], dst_stride: usize, src: &[u8], src_stride: usize, width: usize, height: usize)
    requires
        block_fits(old(dst)@.len(), dst_stride as nat, width as nat, height as nat),
        block_fits(src@.len(), src_stride as nat, width as nat, height as nat),
    ensures
        block_rows_written(final(dst)@, old(dst)@, dst_stride as nat, width as nat, height as nat,
            |r: int, c: int| src@[raster(r, c, src_stride as int)]),
        width <= dst_stride ==> block_written(final(dst)@, old(dst)@, dst_stride as nat, width as nat, height as nat,
            |r: int, c: int| src@[raster(r, c, src_stride as int)]),
{
    let ghost val = |r: int, c: int| src@[raster(r, c, src_stride as int)];
    let slen: usize = src.len();
    let dlen: usize = dst.len();
    let mut row: usize = 0;
    while row < height
        invariant
            block_fits(old(dst)@.len(), dst_stride as nat, width as nat, height as nat),
            block_fits(src@.len(), src_stride as nat, width as nat, height as nat),
            row <= height,
            slen == src@.len(), dlen == dst@.len(),
            val == (|r: int, c: int| src@[raster(r, c, src_stride as int)]),
            dst@.len() == old(dst)@.len(),
            forall|i: int| 0 <= i < old(dst)@.len() ==>
                #[trigger] dst@[i] == rows_state(old(dst)@, dst_stride as nat, width as nat, val, row as int, i),
        decreases height - row,
    {
        let mut col: usize = 0;
        while col < width
            invariant
                row < height,
                block_fits(old(dst)@.len(), dst_stride as nat, width as nat, height as nat),
                block_fits(src@.len(), src_stride as nat, width as nat, height as nat),
                col <= width,
                slen == src@.len(), dlen == dst@.len(),
                val == (|r: int, c: int| src@[raster(r, c, src_stride as int)]),
                dst@.len() == old(dst)@.len(),
                forall|i: int| 0 <= i < old(dst)@.len() ==> #[trigger] dst@[i]
                    == row_partial(old(dst)@, dst_stride as nat, width as nat, val, row as int, col as int, i),
            decreases width - col,
        {
            proof {
                let dl = dst@.len();
                assert(row * dst_stride + col < dl) by (nonlinear_arith)
                    requires row < height, col < width, (height - 1) * dst_stride + width <= dl;
                assert(row * src_stride + col < src@.len()) by (nonlinear_arith)
                    requires row < height, col < width, (height - 1) * src_stride + width <= src@.len();
            }
            let v: u8 = src[row * src_stride + col];
            let ghost before = dst@;
            dst[row * dst_stride + col] = v;
            proof {
                lemma_rows_write(dst@, before, old(dst)@, dst_stride as nat, width as nat, val, row as int, col as int);
            }
            col = col + 1;
        }
        proof { lemma_rows_done(dst@, old(dst)@, dst_stride as nat, width as nat, val, row as int); }
        row = row + 1;
    }
    proof {
        if width <= dst_stride {
            lemma_rows_block(dst@, old(dst)@, dst_stride as nat, width as nat, height as nat, val);
        }
    }
}

/// Average two blocks: `(a + b + 1) >> 1` per pixel (compound prediction).
pub fn block_average(dst: &mut [u8], dst_stride: usize, a: &[u8], a_stride: usize, b: &[u8], b_stride: usize, width: usize, height: usize)
    requires
        block_fits(old(dst)@.len(), dst_stride as nat, width as nat, height as nat),
        block_fits(a@.len(), a_stride as nat, width as nat, height as nat),
        block_fits(b@.len(), b_stride as nat, width as nat, height as nat),
    ensures
        block_rows_written(final(dst)@, old(dst)@, dst_stride as nat, width as nat, height as nat,
            |r: int, c: int| ((a@[raster(r, c, a_stride as int)] + b@[raster(r, c, b_stride as int)] + 1) / 2) as u8),
        width <= dst_stride ==> block_written(final(dst)@, old(dst)@, dst_stride as nat, width as nat, height as nat,
            |r: int, c: int| ((a@[raster(r, c, a_stride as int)] + b@[raster(r, c, b_stride as int)] + 1) / 2) as u8),
{
    let ghost val = |r: int, c: int| ((a@[raster(r, c, a_stride as int)] + b@[raster(r, c, b_stride as int)] + 1) / 2) as u8;
    let alen: usize = a.len();
    let blen: usize = b.len();
    let dlen: usize = dst.len();
    let mut row: usize = 0;
    while row < height
        invariant
            block_fits(old(dst)@.len(), dst_stride as nat, width as nat, height as nat),
            block_fits(a@.len(), a_stride as nat, width as nat, height as nat),
            block_fits(b@.len(), b_stride as nat, width as nat, height as nat),
            row <= height,
            alen == a@.len(), blen == b@.len(), dlen == dst@.len(),
            val == (|r: int, c: int| ((a@[raster(r, c, a_stride as int)] + b@[raster(r, c, b_stride as int)] + 1) / 2) as u8),
            dst@.len() == old(dst)@.len(),
            forall|i: int| 0 <= i < old(dst)@.len() ==>
                #[trigger] dst@[i] == rows_state(old(dst)@, dst_stride as nat, width as nat, val, row as int, i),
        decreases height - row,
    {
        let mut col: usize = 0;
        while col < width
            invariant
                row < height,
                block_fits(old(dst)@.len(), dst_stride as nat, width as nat, height as nat),
                block_fits(a@.len(), a_stride as nat, width as nat, height as nat),
                block_fits(b@.len(), b_stride as nat, width as nat, height as nat),
                col <= width,
                alen == a@.len(), blen == b@.len(), dlen == dst@.len(),
                val == (|r: int, c: int| ((a@[raster(r, c, a_stride as int)] + b@[raster(r, c, b_stride as int)] + 1) / 2) as u8),
                dst@.len() == old(dst)@.len(),
                forall|i: int| 0 <= i < old(dst)@.len() ==> #[trigger] dst@[i]
                    == row_partial(old(dst)@, dst_stride as nat, width as nat, val, row as int, col as int, i),
            decreases width - col,
        {
            proof {
                let dl = dst@.len();
                assert(row * dst_stride + col < dl) by (nonlinear_arith)
                    requires row < height, col < width, (height - 1) * dst_stride + width <= dl;
                assert(row * a_stride + col < a@.len()) by (nonlinear_arith)
                    requires row < height, col < width, (height - 1) * a_stride + width <= a@.len();
                assert(row * b_stride + col < b@.len()) by (nonlinear_arith)
                    requires row < height, col < width, (height - 1) * b_stride + width <= b@.len();
            }
            let va: u16 = a[row * a_stride + col] as u16;
            let vb: u16 = b[row * b_stride + col] as u16;
            proof {
                vstd::bits::lemma_u16_shr_is_div((va + vb + 1) as u16, 1);
                vstd::arithmetic::power2::lemma2_to64();
            }
            let v: u8 = ((va + vb + 1) >> 1) as u8;
            let ghost before = dst@;
            dst[row * dst_stride + col] = v;
            proof {
                lemma_rows_write(dst@, before, old(dst)@, dst_stride as nat, width as nat, val, row as int, col as int);
            }
            col = col + 1;
        }
        proof { lemma_rows_done(dst@, old(dst)@, dst_stride as nat, width as nat, val, row as int); }
        row = row + 1;
    }
    proof {
        if width <= dst_stride {
            lemma_rows_block(dst@, old(dst)@, dst_stride as nat, width as nat, height as nat, val);
        }
    }
}

/// Masked blend: `(a * m + b * (64 - m) + 32) >> 6` per pixel, with mask values at most 64.
pub fn block_blend(dst: &mut [u8], dst_stride: usize, a: &[u8], a_stride: usize, b: &[u8], b_stride: usize, mask: &[u8], mask_stride: usize, width: usize, height: usize)
    requires
        block_fits(old(dst)@.len(), dst_stride as nat, width as nat, height as nat),
        block_fits(a@.len(), a_stride as nat, width as nat, height as nat),
        block_fits(b@.len(), b_stride as nat, width as nat, height as nat),
        block_fits(mask@.len(), mask_stride as nat, width as nat, height as nat),
        forall|r: int, c: int| 0 <= r < height && 0 <= c < width ==> mask@[#[trigger] raster(r, c, mask_stride as int)] <= 64,
    ensures
        block_rows_written(final(dst)@, old(dst)@, dst_stride as nat, width as nat, height as nat,
            |r: int, c: int| ((a@[raster(r, c, a_stride as int)] * mask@[raster(r, c, mask_stride as int)]
                + b@[raster(r, c, b_stride as int)] * (64 - mask@[raster(r, c, mask_stride as int)]) + 32) / 64) as u8),
        width <= dst_stride ==> block_written(final(dst)@, old(dst)@, dst_stride as nat, width as nat, height as nat,
            |r: int, c: int| ((a@[raster(r, c, a_stride as int)] * mask@[raster(r, c, mask_stride as int)]
                + b@[raster(r, c, b_stride as int)] * (64 - mask@[raster(r, c, mask_stride as int)]) + 32) / 64) as u8),
{
    let ghost val = |r: int, c: int| ((a@[raster(r, c, a_stride as int)] * mask@[raster(r, c, mask_stride as int)]
                + b@[raster(r, c, b_stride as int)] * (64 - mask@[raster(r, c, mask_stride as int)]) + 32) / 64) as u8;
    let alen: usize = a.len();
    let blen: usize = b.len();
    let masklen: usize = mask.len();
    let dlen: usize = dst.len();
    let mut row: usize = 0;
    while row < height
        invariant
            block_fits(old(dst)@.len(), dst_stride as nat, width as nat, height as nat),
            block_fits(a@.len(), a_stride as nat, width as nat, height as nat),
            block_fits(b@.len(), b_stride as nat, width as nat, height as nat),
            block_fits(mask@.len(), mask_stride as nat, width as nat, height as nat),
            forall|r: int, c: int| 0 <= r < height && 0 <= c < width ==> mask@[#[trigger] raster(r, c, mask_stride as int)] <= 64,
            row <= height,
            alen == a@.len(), blen == b@.len(), masklen == mask@.len(), dlen == dst@.len(),
            val == (|r: int, c: int| ((a@[raster(r, c, a_stride as int)] * mask@[raster(r, c, mask_stride as int)]
                + b@[raster(r, c, b_stride as int)] * (64 - mask@[raster(r, c, mask_stride as int)]) + 32) / 64) as u8),
            dst@.len() == old(dst)@.len(),
            forall|i: int| 0 <= i < old(dst)@.len() ==>
                #[trigger] dst@[i] == rows_state(old(dst)@, dst_stride as nat, width as nat, val, row as int, i),
        decreases height - row,
    {
        let mut col: usize = 0;
        while col < width
            invariant
                row < height,
                block_fits(old(dst)@.len(), dst_stride as nat, width as nat, height as nat),
                block_fits(a@.len(), a_stride as nat, width as nat, height as nat),
                block_fits(b@.len(), b_stride as nat, width as nat, height as nat),
                block_fits(mask@.len(), mask_stride as nat, width as nat, height as nat),
                forall|r: int, c: int| 0 <= r < height && 0 <= c < width ==> mask@[#[trigger] raster(r, c, mask_stride as int)] <= 64,
                col <= width,
                alen == a@.len(), blen == b@.len(), masklen == mask@.len(), dlen == dst@.len(),
                val == (|r: int, c: int| ((a@[raster(r, c, a_stride as int)] * mask@[raster(r, c, mask_stride as int)]
                + b@[raster(r, c, b_stride as int)] * (64 - mask@[raster(r, c, mask_stride as int)]) + 32) / 64) as u8),
                dst@.len() == old(dst)@.len(),
                forall|i: int| 0 <= i < old(dst)@.len() ==> #[trigger] dst@[i]
                    == row_partial(old(dst)@, dst_stride as nat, width as nat, val, row as int, col as int, i),
            decreases width - col,
        {
            proof {
                let dl = dst@.len();
                assert(row * dst_stride + col < dl) by (nonlinear_arith)
                    requires row < height, col < width, (height - 1) * dst_stride + width <= dl;
                assert(row * a_stride + col < a@.len()) by (nonlinear_arith)
                    requires row < height, col < width, (height - 1) * a_stride + width <= a@.len();
                assert(row * b_stride + col < b@.len()) by (nonlinear_arith)
                    requires row < height, col < width, (height - 1) * b_stride + width <= b@.len();
                assert(row * mask_stride + col < mask@.len()) by (nonlinear_arith)
                    requires row < height, col < width, (height - 1) * mask_stride + width <= mask@.len();
            }
            let va: u32 = a[row * a_stride + col] as u32;
            let vb: u32 = b[row * b_stride + col] as u32;
            let w: u32 = mask[row * mask_stride + col] as u32;
            assert(w == mask@[raster(row as int, col as int, mask_stride as int)]);
            proof {
                assert(va * w <= 255 * 64) by (nonlinear_arith) requires va <= 255, w <= 64;
                assert(vb * (64 - w) <= 255 * 64) by (nonlinear_arith) requires vb <= 255, w <= 64;
            }
            proof {
                vstd::bits::lemma_u32_shr_is_div((va * w + vb * (64 - w) + 32) as u32, 6);
                vstd::arithmetic::power2::lemma2_to64();
            }
            let v: u8 = ((va * w + vb * (64 - w) + 32) >> 6) as u8;
            let ghost before = dst@;
            dst[row * dst_stride + col] = v;
            proof {
                lemma_rows_write(dst@, before, old(dst)@, dst_stride as nat, width as nat, val, row as int, col as int);
            }
            col = col + 1;
        }
        proof { lemma_rows_done(dst@, old(dst)@, dst_stride as nat, width as nat, val, row as int); }
        row = row + 1;
    }
    proof {
        if width <= dst_stride {
            lemma_rows_block(dst@, old(dst)@, dst_stride as nat, width as nat, height as nat, val);
        }
    }
}

/// Distance-weighted blend: `(a * wt0 + b * wt1 + 8) >> 4` per pixel, truncated to 8 bits.
pub fn block_dist_wtd_blend(dst: &mut [u8], dst_stride: usize, a: &[u8], a_stride: usize, b: &[u8], b_stride: usize, wt0: u32, wt1: u32, width: usize, height: usize)
    requires
        block_fits(old(dst)@.len(), dst_stride as nat, width as nat, height as nat),
        block_fits(a@.len(), a_stride as nat, width as nat, height as nat),
        block_fits(b@.len(), b_stride as nat, width as nat, height as nat),
        255 * wt0 + 255 * wt1 + 8 <= u32::MAX,
    ensures
        block_rows_written(final(dst)@, old(dst)@, dst_stride as nat, width as nat, height as nat,
            |r: int, c: int| ((a@[raster(r, c, a_stride as int)] * wt0 + b@[raster(r, c, b_stride as int)] * wt1 + 8) / 16) as u8),
        width <= dst_stride ==> block_written(final(dst)@, old(dst)@, dst_stride as nat, width as nat, height as nat,
            |r: int, c: int| ((a@[raster(r, c, a_stride as int)] * wt0 + b@[raster(r, c, b_stride as int)] * wt1 + 8) / 16) as u8),
{
    let ghost val = |r: int, c: int| ((a@[raster(r, c, a_stride as int)] * wt0 + b@[raster(r, c, b_stride as int)] * wt1 + 8) / 16) as u8;
    let alen: usize = a.len();
    let blen: usize = b.len();
    let dlen: usize = dst.len();
    let mut row: usize = 0;
    while row < height
        invariant
            block_fits(old(dst)@.len(), dst_stride as nat, width as nat, height as nat),
            block_fits(a@.len(), a_stride as nat, width as nat, height as nat),
            block_fits(b@.len(), b_stride as nat, width as nat, height as nat),
            255 * wt0 + 255 * wt1 + 8 <= u32::MAX,
            row <= height,
            alen == a@.len(), blen == b@.len(), dlen == dst@.len(),
            val == (|r: int, c: int| ((a@[raster(r, c, a_stride as int)] * wt0 + b@[raster(r, c, b_stride as int)] * wt1 + 8) / 16) as u8),
            dst@.len() == old(dst)@.len(),
            forall|i: int| 0 <= i < old(dst)@.len() ==>
                #[trigger] dst@[i] == rows_state(old(dst)@, dst_stride as nat, width as nat, val, row as int, i),
        decreases height - row,
    {
        let mut col: usize = 0;
        while col < width
            invariant
                row < height,
                block_fits(old(dst)@.len(), dst_stride as nat, width as nat, height as nat),
                block_fits(a@.len(), a_stride as nat, width as nat, height as nat),
                block_fits(b@.len(), b_stride as nat, width as nat, height as nat),
                255 * wt0 + 255 * wt1 + 8 <= u32::MAX,
                col <= width,
                alen == a@.len(), blen == b@.len(), dlen == dst@.len(),
                val == (|r: int, c: int| ((a@[raster(r, c, a_stride as int)] * wt0 + b@[raster(r, c, b_stride as int)] * wt1 + 8) / 16) as u8),
                dst@.len() == old(dst)@.len(),
                forall|i: int| 0 <= i < old(dst)@.len() ==> #[trigger] dst@[i]
                    == row_partial(old(dst)@, dst_stride as nat, width as nat, val, row as int, col as int, i),
            decreases width - col,
        {
            proof {
                let dl = dst@.len();
                assert(row * dst_stride + col < dl) by (nonlinear_arith)
                    requires row < height, col < width, (height - 1) * dst_stride + width <= dl;
                assert(row * a_stride + col < a@.len()) by (nonlinear_arith)
                    requires row < height, col < width, (height - 1) * a_stride + width <= a@.len();
                assert(row * b_stride + col < b@.len()) by (nonlinear_arith)
                    requires row < height, col < width, (height - 1) * b_stride + width <= b@.len();
            }
            let va: u32 = a[row * a_stride + col] as u32;
            let vb: u32 = b[row * b_stride + col] as u32;
            proof {
                assert(va * wt0 <= 255 * wt0) by (nonlinear_arith) requires va <= 255;
                assert(vb * wt1 <= 255 * wt1) by (nonlinear_arith) requires vb <= 255;
            }
            proof {
                vstd::bits::lemma_u32_shr_is_div((va * wt0 + vb * wt1 + 8) as u32, 4);
                vstd::arithmetic::power2::lemma2_to64();
            }
            let v: u8 = ((va * wt0 + vb * wt1 + 8) >> 4) as u8;
            let ghost before = dst@;
            dst[row * dst_stride + col] = v;
            proof {
                lemma_rows_write(dst@, before, old(dst)@, dst_stride as nat, width as nat, val, row as int, col as int);
            }
            col = col + 1;
        }
        proof { lemma_rows_done(dst@, old(dst)@, dst_stride as nat, width as nat, val, row as int); }
        row = row + 1;
    }
    proof {
        if width <= dst_stride {
            lemma_rows_block(dst@, old(dst)@, dst_stride as nat, width as nat, height as nat, val);
        }
    }
}

} // verus!
