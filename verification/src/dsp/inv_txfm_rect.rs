//! Inverse 2D transform of rectangular blocks: row transforms of the block width (on
//! inputs rescaled by `1 / sqrt(2)` for 2:1 blocks), then column transforms of its
//! height.
use vstd::prelude::*;
use crate::dsp::fwd_txfm::{shifted, as_i32s, shift_ok, round_shift_array, raster, bounded};
use crate::dsp::fwd_txfm_rect::{rect_scaled, rect_scale, lemma_rect_scaled_bound};
use crate::dsp::inv_txfm::InvTxfm1d;
use crate::dsp::copy::{block_written, in_block, lemma_block_step};

verus! {

/// Input of the row transform of row `r`: the row, rescaled.
pub open spec fn inv_rect_row_input(input: Seq<i32>, stride: nat, w: nat, h: nat, r: int) -> Seq<i32> {
    Seq::new(w, |c: int| rect_scaled(input[r * stride + c] as int, w, h) as i32)
}

/// Row `r` after the row transform `g`, shifted by `-shift[0]`.
pub open spec fn inv_rect_row_pass(input: Seq<i32>, stride: nat, g: InvTxfm1d, w: nat, h: nat, shift: [i32; 2], r: int)
    -> Seq<int> {
    shifted(as_i32s(g.spec_apply(inv_rect_row_input(input, stride, w, h, r))), -shift[0])
}

/// Input of the column transform of column `c`: column `c` of the row pass.
pub open spec fn inv_rect_col_input(input: Seq<i32>, stride: nat, g: InvTxfm1d, w: nat, h: nat, shift: [i32; 2],
    c: int) -> Seq<i32> {
    Seq::new(h, |r: int| inv_rect_row_pass(input, stride, g, w, h, shift, r)[c] as i32)
}

/// Column `c` after the column transform `f`, shifted by `-shift[1]`.
pub open spec fn inv_rect_col_pass(input: Seq<i32>, stride: nat, g: InvTxfm1d, f: InvTxfm1d, w: nat, h: nat,
    shift: [i32; 2], c: int) -> Seq<int> {
    shifted(as_i32s(f.spec_apply(inv_rect_col_input(input, stride, g, w, h, shift, c))), -shift[1])
}

/// The separable inverse transform of a `w` x `h` block at row `r`, column `c`.
pub open spec fn spec_inv_txfm2d_rect(input: Seq<i32>, stride: nat, g: InvTxfm1d, f: InvTxfm1d, w: nat, h: nat,
    shift: [i32; 2], r: int, c: int) -> int {
    inv_rect_col_pass(input, stride, g, f, w, h, shift, c)[r]
}

/// Every 1D inverse transform input stays within its bound and no
/// shifted value leaves `i32`.
pub open spec fn inv2d_rect_ok(input: Seq<i32>, stride: nat, g: InvTxfm1d, f: InvTxfm1d, w: nat, h: nat,
    shift: [i32; 2]) -> bool {
    &&& forall|r: int, c: int| 0 <= r < h && 0 <= c < w ==>
        -g.input_max() <= #[trigger] input[r * stride + c] <= g.input_max()
    &&& forall|r: int, c: int| 0 <= r < h && 0 <= c < w ==>
        shift_ok(#[trigger] g.spec_apply(inv_rect_row_input(input, stride, w, h, r))[c], -shift[0])
    &&& forall|r: int, c: int| 0 <= r < h && 0 <= c < w ==>
        -f.input_max() <= #[trigger] inv_rect_row_pass(input, stride, g, w, h, shift, r)[c] <= f.input_max()
    &&& forall|c: int, r: int| 0 <= c < w && 0 <= r < h ==>
        shift_ok(#[trigger] f.spec_apply(inv_rect_col_input(input, stride, g, w, h, shift, c))[r], -shift[1])
}

/// The row buffer holds `inv_rect_row_pass(r)[c]` at `raster(r, c, w)` for rows below `nrows`.
pub open spec fn inv_rect_rows_filled(buf: Seq<i32>, input: Seq<i32>, stride: nat, g: InvTxfm1d, w: nat, h: nat,
    shift: [i32; 2], nrows: int) -> bool {
    forall|r: int, c: int| 0 <= r < nrows && 0 <= c < w ==>
        buf[raster(r, c, w as int)] == #[trigger] inv_rect_row_pass(input, stride, g, w, h, shift, r)[c]
}

/// The column buffer holds `inv_rect_col_pass(c)[r]` at `raster(r, c, w)` for columns below `ncols`.
pub open spec fn inv_rect_cols_filled(res: Seq<i32>, input: Seq<i32>, stride: nat, g: InvTxfm1d, f: InvTxfm1d,
    w: nat, h: nat, shift: [i32; 2], ncols: int) -> bool {
    forall|r: int, c: int| 0 <= r < h && 0 <= c < ncols ==>
        res[raster(r, c, w as int)] == #[trigger] inv_rect_col_pass(input, stride, g, f, w, h, shift, c)[r]
}

/// Distinct cells of a `w`-wide grid of `h` rows have distinct indices inside it.
proof fn lemma_grid(w: int, h: int)
    requires w > 0, h > 0,
    ensures
        forall|r: int, c: int| 0 <= r < h && 0 <= c < w ==> 0 <= #[trigger] raster(r, c, w) < w * h,
        forall|r1: int, c1: int, r2: int, c2: int| 0 <= c1 < w && 0 <= c2 < w && (r1 != r2 || c1 != c2) ==>
            #[trigger] raster(r1, c1, w) != #[trigger] raster(r2, c2, w),
{
    assert forall|r: int, c: int| 0 <= r < h && 0 <= c < w implies 0 <= #[trigger] raster(r, c, w) < w * h by {
        assert(0 <= r * w + c < w * h) by (nonlinear_arith) requires 0 <= r < h, 0 <= c < w;
    }
    assert forall|r1: int, c1: int, r2: int, c2: int| 0 <= c1 < w && 0 <= c2 < w && (r1 != r2 || c1 != c2) implies
        #[trigger] raster(r1, c1, w) != #[trigger] raster(r2, c2, w) by {
        if r1 != r2 {
            assert(r1 * w + c1 != r2 * w + c2) by (nonlinear_arith) requires r1 != r2, 0 <= c1 < w, 0 <= c2 < w;
        }
    }
}

/// Row pass of one row into `buf`.
fn inv_rect_row(input: &[i32], stride: usize, row_func: InvTxfm1d, col_func: InvTxfm1d, w: usize, h: usize,
    shift: [i32; 2], row: usize, buf: &mut Vec<i32>)
    requires
        row < h, w <= 64, h <= 64, w >= 1,
        row_func.spec_size() == w,
        (h - 1) * stride + w <= input@.len(),
        inv2d_rect_ok(input@, stride as nat, row_func, col_func, w as nat, h as nat, shift),
        old(buf)@.len() == w * h,
        inv_rect_rows_filled(old(buf)@, input@, stride as nat, row_func, w as nat, h as nat, shift, row as int),
    ensures
        final(buf)@.len() == w * h,
        inv_rect_rows_filled(final(buf)@, input@, stride as nat, row_func, w as nat, h as nat, shift, row + 1),
{
    let ghost g = row_func;
    let ghost inp = input@;
    let ghost st = stride as nat;
    let ghost (wn, hn) = (w as nat, h as nat);
    proof {
        assert(shift_ok(g.spec_apply(inv_rect_row_input(inp, st, wn, hn, row as int))[0], -shift[0]));
        assert(row * stride <= (h - 1) * stride) by (nonlinear_arith) requires row < h;
        assert(w * h <= 4096) by (nonlinear_arith) requires w <= 64, h <= 64;
        lemma_grid(w as int, h as int);
    }
    let ilen: usize = input.len();
    let on: bool = w == 2 * h || h == 2 * w;
    let mut temp_in: Vec<i32> = vec![0i32; w];
    let mut temp_out: Vec<i32> = vec![0i32; w];
    let row_start: usize = row * stride;
    let mut c: usize = 0;
    while c < w
        invariant
            c <= w, row < h, row_start == row * stride, row * stride <= (h - 1) * stride, ilen == input@.len(),
            (h - 1) * stride + w <= input@.len(), on == (w == 2 * h || h == 2 * w),
            inv2d_rect_ok(input@, stride as nat, row_func, col_func, w as nat, h as nat, shift),
            temp_in@.len() == w,
            forall|cc: int| 0 <= cc < c ==> temp_in@[cc] == #[trigger] inv_rect_row_input(inp, st, wn, hn, row as int)[cc],
            inp == input@, st == stride, wn == w, hn == h,
        decreases w - c,
    {
        let v: i32 = input[row_start + c];
        assert(-row_func.input_max() <= input@[row * stride + c] <= row_func.input_max());
        let s: i32 = rect_scale(v, on);
        temp_in.set(c, s);
        c = c + 1;
    }
    proof {
        assert(temp_in@ =~= inv_rect_row_input(inp, st, wn, hn, row as int));
        assert forall|cc: int| 0 <= cc < w implies
            -row_func.input_max() <= #[trigger] temp_in@[cc] <= row_func.input_max() by {
            let v = input@[row * stride + cc] as int;
            assert(-row_func.input_max() <= v <= row_func.input_max());
            lemma_rect_scaled_bound(v, wn, hn);
            assert(temp_in@[cc] == inv_rect_row_input(inp, st, wn, hn, row as int)[cc]);
        }
        assert(bounded(temp_in@, row_func.spec_size(), row_func.input_max()));
    }
    row_func.apply(temp_in.as_slice(), temp_out.as_mut_slice());
    proof {
        g.lemma_apply_len(inv_rect_row_input(inp, st, wn, hn, row as int));
        assert forall|cc: int| 0 <= cc < w implies shift_ok(#[trigger] temp_out@[cc] as int, -shift[0]) by {
            assert(shift_ok(g.spec_apply(inv_rect_row_input(inp, st, wn, hn, row as int))[cc], -shift[0]));
        }
    }
    round_shift_array(temp_out.as_mut_slice(), -shift[0]);
    proof {
        assert forall|cc: int| 0 <= cc < w implies
            temp_out@[cc] == #[trigger] inv_rect_row_pass(inp, st, g, wn, hn, shift, row as int)[cc] by {
        }
    }
    let mut c2: usize = 0;
    while c2 < w
        invariant
            c2 <= w, row < h, w <= 64, h <= 64, w * h <= 4096,
            inp == input@, st == stride, wn == w, hn == h, g == row_func,
            buf@.len() == w * h, temp_out@.len() == w,
            forall|cc: int| 0 <= cc < w ==> temp_out@[cc] == #[trigger] inv_rect_row_pass(inp, st, g, wn, hn, shift, row as int)[cc],
            inv_rect_rows_filled(buf@, inp, st, g, wn, hn, shift, row as int),
            forall|cc: int| 0 <= cc < c2 ==>
                buf@[raster(row as int, cc, w as int)] == #[trigger] inv_rect_row_pass(inp, st, g, wn, hn, shift, row as int)[cc],
        decreases w - c2,
    {
        proof {
            lemma_grid(w as int, h as int);
            assert(row * w + c2 < w * h) by (nonlinear_arith) requires row < h, c2 < w;
        }
        let idx: usize = row * w + c2;
        assert(idx as int == raster(row as int, c2 as int, w as int));
        let ghost old_buf = buf@;
        buf.set(idx, temp_out[c2]);
        proof {
            assert forall|r: int, cc: int| 0 <= r < row && 0 <= cc < w implies
                buf@[raster(r, cc, w as int)] == #[trigger] inv_rect_row_pass(inp, st, g, wn, hn, shift, r)[cc] by {
                assert(raster(r, cc, w as int) != raster(row as int, c2 as int, w as int));
                assert(old_buf[raster(r, cc, w as int)] == inv_rect_row_pass(inp, st, g, wn, hn, shift, r)[cc]);
            }
            assert forall|cc: int| 0 <= cc < c2 + 1 implies
                buf@[raster(row as int, cc, w as int)] == #[trigger] inv_rect_row_pass(inp, st, g, wn, hn, shift, row as int)[cc] by {
                if cc < c2 {
                    assert(raster(row as int, cc, w as int) != raster(row as int, c2 as int, w as int));
                }
            }
        }
        c2 = c2 + 1;
    }
}

/// Column pass of one column: gather from `buf`, transform, shift, store in `res`.
fn inv_rect_column(input: &[i32], stride: usize, row_func: InvTxfm1d, col_func: InvTxfm1d, w: usize, h: usize,
    shift: [i32; 2], col: usize, buf: &Vec<i32>, res: &mut Vec<i32>)
    requires
        col < w, w <= 64, h <= 64, h >= 1,
        col_func.spec_size() == h,
        inv2d_rect_ok(input@, stride as nat, row_func, col_func, w as nat, h as nat, shift),
        buf@.len() == w * h,
        inv_rect_rows_filled(buf@, input@, stride as nat, row_func, w as nat, h as nat, shift, h as int),
        old(res)@.len() == w * h,
        inv_rect_cols_filled(old(res)@, input@, stride as nat, row_func, col_func, w as nat, h as nat, shift, col as int),
    ensures
        final(res)@.len() == w * h,
        inv_rect_cols_filled(final(res)@, input@, stride as nat, row_func, col_func, w as nat, h as nat, shift, col + 1),
{
    let ghost g = row_func;
    let ghost f = col_func;
    let ghost inp = input@;
    let ghost st = stride as nat;
    let ghost (wn, hn) = (w as nat, h as nat);
    proof {
        assert(shift_ok(f.spec_apply(inv_rect_col_input(inp, st, g, wn, hn, shift, col as int))[0], -shift[1]));
        assert(w * h <= 4096) by (nonlinear_arith) requires w <= 64, h <= 64;
        lemma_grid(w as int, h as int);
    }
    let mut temp_in: Vec<i32> = vec![0i32; h];
    let mut temp_out: Vec<i32> = vec![0i32; h];
    let mut r: usize = 0;
    while r < h
        invariant
            r <= h, col < w, w <= 64, h <= 64, w * h <= 4096,
            inp == input@, st == stride, wn == w, hn == h, g == row_func,
            buf@.len() == w * h, temp_in@.len() == h,
            inv_rect_rows_filled(buf@, inp, st, g, wn, hn, shift, h as int),
            forall|rr: int| 0 <= rr < r ==> temp_in@[rr] == #[trigger] inv_rect_row_pass(inp, st, g, wn, hn, shift, rr)[col as int],
        decreases h - r,
    {
        proof {
            lemma_grid(w as int, h as int);
        }
        assert(raster(r as int, col as int, w as int) == r * w + col);
        assert(buf@[raster(r as int, col as int, w as int)] == inv_rect_row_pass(inp, st, g, wn, hn, shift, r as int)[col as int]);
        temp_in.set(r, buf[r * w + col]);
        r = r + 1;
    }
    proof {
        assert(temp_in@ =~= inv_rect_col_input(inp, st, g, wn, hn, shift, col as int));
        assert forall|rr: int| 0 <= rr < h implies
            -col_func.input_max() <= #[trigger] temp_in@[rr] <= col_func.input_max() by {
            assert(-col_func.input_max() <= inv_rect_row_pass(inp, st, g, wn, hn, shift, rr)[col as int] <= col_func.input_max());
        }
    }
    col_func.apply(temp_in.as_slice(), temp_out.as_mut_slice());
    proof {
        f.lemma_apply_len(inv_rect_col_input(inp, st, g, wn, hn, shift, col as int));
        assert forall|rr: int| 0 <= rr < h implies shift_ok(#[trigger] temp_out@[rr] as int, -shift[1]) by {
            assert(shift_ok(f.spec_apply(inv_rect_col_input(inp, st, g, wn, hn, shift, col as int))[rr], -shift[1]));
        }
    }
    round_shift_array(temp_out.as_mut_slice(), -shift[1]);
    proof {
        assert forall|rr: int| 0 <= rr < h implies
            temp_out@[rr] == #[trigger] inv_rect_col_pass(inp, st, g, f, wn, hn, shift, col as int)[rr] by {
        }
    }
    let mut r2: usize = 0;
    while r2 < h
        invariant
            r2 <= h, col < w, w <= 64, h <= 64, w * h <= 4096,
            inp == input@, st == stride, wn == w, hn == h, g == row_func, f == col_func,
            res@.len() == w * h, temp_out@.len() == h,
            forall|rr: int| 0 <= rr < h ==> temp_out@[rr] == #[trigger] inv_rect_col_pass(inp, st, g, f, wn, hn, shift, col as int)[rr],
            inv_rect_cols_filled(res@, inp, st, g, f, wn, hn, shift, col as int),
            forall|rr: int| 0 <= rr < r2 ==>
                res@[raster(rr, col as int, w as int)] == #[trigger] inv_rect_col_pass(inp, st, g, f, wn, hn, shift, col as int)[rr],
        decreases h - r2,
    {
        proof {
            assert(r2 * w + col < w * h) by (nonlinear_arith) requires r2 < h, col < w;
            lemma_grid(w as int, h as int);
        }
        let idx: usize = r2 * w + col;
        assert(idx as int == raster(r2 as int, col as int, w as int));
        let ghost old_res = res@;
        res.set(idx, temp_out[r2]);
        proof {
            assert forall|rr: int, cc: int| 0 <= rr < h && 0 <= cc < col implies
                res@[raster(rr, cc, w as int)] == #[trigger] inv_rect_col_pass(inp, st, g, f, wn, hn, shift, cc)[rr] by {
                assert(raster(rr, cc, w as int) != raster(r2 as int, col as int, w as int));
                assert(old_res[raster(rr, cc, w as int)] == inv_rect_col_pass(inp, st, g, f, wn, hn, shift, cc)[rr]);
            }
            assert forall|rr: int| 0 <= rr < r2 + 1 implies
                res@[raster(rr, col as int, w as int)] == #[trigger] inv_rect_col_pass(inp, st, g, f, wn, hn, shift, col as int)[rr] by {
                if rr < r2 {
                    assert(raster(rr, col as int, w as int) != raster(r2 as int, col as int, w as int));
                }
            }
        }
        r2 = r2 + 1;
    }
}

/// Inverse 2D transform of a `w` x `h` block (input rows `stride` apart): each row
/// rescaled by `1 / sqrt(2)` when the block is 2:1, row transforms of `w` points
/// (output shifted by `-shift[0]`), then column transforms of `h` points (output shifted
/// by `-shift[1]`), written to `output` with row stride `stride`; the rest of `output`
/// is left as it was.
pub fn inv_txfm2d_rect(input: &[i32], output: &mut [i32], stride: usize, row_func: InvTxfm1d,
    col_func: InvTxfm1d, w: usize, h: usize, shift: [i32; 2])
    requires
        row_func.spec_size() == w,
        col_func.spec_size() == h,
        w <= stride,
        (h - 1) * stride + w <= input@.len(),
        (h - 1) * stride + w <= old(output)@.len(),
        inv2d_rect_ok(input@, stride as nat, row_func, col_func, w as nat, h as nat, shift),
    ensures
        block_written(final(output)@, old(output)@, stride as nat, w as nat, h as nat,
            |r: int, c: int| spec_inv_txfm2d_rect(input@, stride as nat, row_func, col_func, w as nat, h as nat, shift, r, c) as i32),
        forall|r: int, c: int| 0 <= r < h && 0 <= c < w ==> final(output)@[#[trigger] raster(r, c, stride as int)]
            == spec_inv_txfm2d_rect(input@, stride as nat, row_func, col_func, w as nat, h as nat, shift, r, c),
{
    let ghost inp = input@;
    let ghost st = stride as nat;
    let ghost (wn, hn) = (w as nat, h as nat);
    let ghost val = |r: int, c: int| spec_inv_txfm2d_rect(inp, st, row_func, col_func, wn, hn, shift, r, c) as i32;
    proof {
        assert(w <= 64 && h <= 64 && w >= 4 && h >= 4);
        assert(w * h <= 4096) by (nonlinear_arith) requires w <= 64, h <= 64;
    }
    let mut buf: Vec<i32> = vec![0i32; w * h];
    let mut row: usize = 0;
    while row < h
        invariant
            row <= h, w <= 64, h <= 64, w >= 4,
            row_func.spec_size() == w, col_func.spec_size() == h,
            (h - 1) * stride + w <= input@.len(),
            inv2d_rect_ok(input@, stride as nat, row_func, col_func, w as nat, h as nat, shift),
            buf@.len() == w * h,
            inv_rect_rows_filled(buf@, input@, stride as nat, row_func, w as nat, h as nat, shift, row as int),
        decreases h - row,
    {
        inv_rect_row(input, stride, row_func, col_func, w, h, shift, row, &mut buf);
        row = row + 1;
    }
    let mut res: Vec<i32> = vec![0i32; w * h];
    let mut col: usize = 0;
    while col < w
        invariant
            col <= w, w <= 64, h <= 64, h >= 4,
            row_func.spec_size() == w, col_func.spec_size() == h,
            inv2d_rect_ok(input@, stride as nat, row_func, col_func, w as nat, h as nat, shift),
            buf@.len() == w * h,
            inv_rect_rows_filled(buf@, input@, stride as nat, row_func, w as nat, h as nat, shift, h as int),
            res@.len() == w * h,
            inv_rect_cols_filled(res@, input@, stride as nat, row_func, col_func, w as nat, h as nat, shift, col as int),
        decreases w - col,
    {
        inv_rect_column(input, stride, row_func, col_func, w, h, shift, col, &buf, &mut res);
        col = col + 1;
    }
    let olen: usize = output.len();
    let mut r: usize = 0;
    while r < h
        invariant
            r <= h, w <= 64, h <= 64, w * h <= 4096, w <= stride, olen == output@.len(),
            (h - 1) * stride + w <= old(output)@.len(),
            inp == input@, st == stride, wn == w, hn == h,
            val == (|r: int, c: int| spec_inv_txfm2d_rect(inp, st, row_func, col_func, wn, hn, shift, r, c) as i32),
            res@.len() == w * h,
            inv_rect_cols_filled(res@, inp, st, row_func, col_func, wn, hn, shift, w as int),
            output@.len() == old(output)@.len(),
            forall|rr: int, cc: int| 0 <= rr < h && 0 <= cc < w && rr < r ==>
                output@[#[trigger] raster(rr, cc, stride as int)] == val(rr, cc),
            forall|i: int| 0 <= i < old(output)@.len() && !in_block(i, stride as nat, w as nat, h as nat) ==>
                #[trigger] output@[i] == old(output)@[i],
        decreases h - r,
    {
        let mut c: usize = 0;
        while c < w
            invariant
                r < h, c <= w, w <= 64, h <= 64, w * h <= 4096, w <= stride, olen == output@.len(),
                (h - 1) * stride + w <= old(output)@.len(),
                inp == input@, st == stride, wn == w, hn == h,
                val == (|r: int, c: int| spec_inv_txfm2d_rect(inp, st, row_func, col_func, wn, hn, shift, r, c) as i32),
                res@.len() == w * h,
                inv_rect_cols_filled(res@, inp, st, row_func, col_func, wn, hn, shift, w as int),
                output@.len() == old(output)@.len(),
                forall|rr: int, cc: int| 0 <= rr < h && 0 <= cc < w && (rr < r || (rr == r && cc < c)) ==>
                    output@[#[trigger] raster(rr, cc, stride as int)] == val(rr, cc),
                forall|i: int| 0 <= i < old(output)@.len() && !in_block(i, stride as nat, w as nat, h as nat) ==>
                    #[trigger] output@[i] == old(output)@[i],
            decreases w - c,
        {
            proof {
                assert(r * stride + c < (h - 1) * stride + w) by (nonlinear_arith)
                    requires r < h, c < w, stride >= 0;
                assert(r * w + c < w * h) by (nonlinear_arith) requires r < h, c < w;
                assert(res@[raster(r as int, c as int, w as int)]
                    == inv_rect_col_pass(inp, st, row_func, col_func, wn, hn, shift, c as int)[r as int]);
            }
            let v: i32 = res[r * w + c];
            let ghost before = output@;
            output[r * stride + c] = v;
            proof {
                assert(v == val(r as int, c as int));
                lemma_block_step(output@, before, old(output)@, stride as nat, w as nat, h as nat, val,
                    r as int, c as int);
            }
            c = c + 1;
        }
        r = r + 1;
    }
    proof {
        lemma_grid(w as int, h as int);
        assert forall|rr: int, cc: int| 0 <= rr < h && 0 <= cc < w implies
            output@[#[trigger] raster(rr, cc, stride as int)]
                == spec_inv_txfm2d_rect(inp, st, row_func, col_func, wn, hn, shift, rr, cc) by {
            assert(res@[raster(rr, cc, w as int)] == inv_rect_col_pass(inp, st, row_func, col_func, wn, hn, shift, cc)[rr]);
        }
    }
}

} // verus!
