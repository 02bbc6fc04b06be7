//! Forward 2D transform of rectangular blocks: column transforms of the block height,
//! row transforms of its width, with the `1 / sqrt(2)` rescaling of 2:1 blocks.
use vstd::prelude::*;
use crate::dsp::fwd_txfm::{FwdTxfm1d, TXFM_INPUT_MAX, bounded_int, column, shifted, as_i32s, col_input, col_pass, shift_ok, spec_round_shift, round_shift_array, raster, lemma_raster_divmod, lemma_i64_shr};

verus! {

/// `v` rescaled by `1 / sqrt(2)` (Q12, rounded) when the block is 2:1, else `v`.
pub open spec fn rect_scaled(v: int, w: nat, h: nat) -> int {
    if w == 2 * h || h == 2 * w { spec_round_shift(v * 2896, 12) } else { v }
}

/// Input of the row transform of row `r`: row `r` of the column pass, rescaled.
pub open spec fn rect_row_input(input: Seq<i32>, stride: nat, f: FwdTxfm1d, w: nat, h: nat, shift: [i32; 3], r: int)
    -> Seq<i32> {
    Seq::new(w, |c: int| rect_scaled(col_pass(input, stride, f, h, shift, c)[r], w, h) as i32)
}

/// Row `r` after the row transform, shifted by `-shift[2]`.
pub open spec fn rect_row_pass(input: Seq<i32>, stride: nat, f: FwdTxfm1d, g: FwdTxfm1d, w: nat, h: nat,
    shift: [i32; 3], r: int) -> Seq<int> {
    shifted(as_i32s(g.spec_apply(rect_row_input(input, stride, f, w, h, shift, r))), -shift[2])
}

/// The separable transform of a `w` x `h` block: columns with `f` (of `h` points),
/// rows with `g` (of `w` points), in raster order `w` wide.
pub open spec fn spec_fwd_txfm2d_rect(input: Seq<i32>, stride: nat, f: FwdTxfm1d, g: FwdTxfm1d, w: nat, h: nat,
    shift: [i32; 3]) -> Seq<int> {
    Seq::new(w * h, |k: int| rect_row_pass(input, stride, f, g, w, h, shift, k / w as int)[k % w as int])
}

/// No value of the rectangular transform leaves `i32` and every 1D transform input stays
/// within [`TXFM_INPUT_MAX`].
pub open spec fn fwd2d_rect_ok(input: Seq<i32>, stride: nat, f: FwdTxfm1d, g: FwdTxfm1d, w: nat, h: nat,
    shift: [i32; 3]) -> bool {
    &&& forall|c: int, r: int| 0 <= c < w && 0 <= r < h ==>
        shift_ok(#[trigger] input[r * stride + c] as int, -shift[0])
    &&& forall|c: int| 0 <= c < w ==>
        bounded_int(#[trigger] shifted(column(input, stride, h, c), -shift[0]), h, TXFM_INPUT_MAX as int)
    &&& forall|c: int, r: int| 0 <= c < w && 0 <= r < h ==>
        shift_ok(#[trigger] f.spec_apply(col_input(input, stride, h, shift, c))[r], -shift[1])
    &&& forall|c: int, r: int| 0 <= c < w && 0 <= r < h ==>
        -TXFM_INPUT_MAX <= #[trigger] col_pass(input, stride, f, h, shift, c)[r] <= TXFM_INPUT_MAX
    &&& forall|r: int, c: int| 0 <= c < w && 0 <= r < h ==>
        shift_ok(#[trigger] g.spec_apply(rect_row_input(input, stride, f, w, h, shift, r))[c], -shift[2])
}

/// The column buffer holds `col_pass(c)[r]` at `raster(r, c, w)` for columns below `ncols`.
pub open spec fn rect_filled(buf: Seq<i32>, input: Seq<i32>, stride: nat, f: FwdTxfm1d, w: nat, h: nat,
    shift: [i32; 3], ncols: int) -> bool {
    forall|r: int, c: int| 0 <= r < h && 0 <= c < ncols ==>
        buf[raster(r, c, w as int)] == #[trigger] col_pass(input, stride, f, h, shift, c)[r]
}

/// Rescaling never grows a value.
pub proof fn lemma_rect_scaled_bound(v: int, w: nat, h: nat)
    ensures v >= 0 ==> 0 <= rect_scaled(v, w, h) <= v, v < 0 ==> v <= rect_scaled(v, w, h) <= 0,
{
    vstd::arithmetic::power2::lemma2_to64();
    if w == 2 * h || h == 2 * w {
        assert(v >= 0 ==> 0 <= (v * 2896 + 2048) / 4096 <= v) by (nonlinear_arith);
        assert(v < 0 ==> v <= (v * 2896 + 2048) / 4096 <= 0) by (nonlinear_arith);
    }
}

/// [`rect_scaled`] of an `i32` of magnitude at most [`TXFM_INPUT_MAX`].
pub fn rect_scale(v: i32, on: bool) -> (r: i32)
    requires -TXFM_INPUT_MAX <= v <= TXFM_INPUT_MAX,
    ensures r == (if on { spec_round_shift(v * 2896, 12) } else { v as int }),
{
    if on {
        let t: i64 = v as i64 * 2896 + 2048;
        proof {
            lemma_i64_shr(t, 12);
            vstd::arithmetic::power2::lemma2_to64();
            assert(-16777216 <= (t as int) / 4096 <= 16777216) by (nonlinear_arith)
                requires -16777216 * 2896 + 2048 <= t <= 16777216 * 2896 + 2048;
        }
        (t >> 12) as i32
    } else {
        v
    }
}

/// Column pass of one column of a `w` x `h` block into `buf` (rows `w` wide).
fn rect_column(input: &[i32], stride: usize, col_func: FwdTxfm1d, row_func: FwdTxfm1d, w: usize, h: usize,
    shift: [i32; 3], col: usize, buf: &mut Vec<i32>)
    requires
        col < w, w <= 64, h <= 64, h >= 1,
        col_func.spec_size() == h,
        (h - 1) * stride + w <= input@.len(),
        fwd2d_rect_ok(input@, stride as nat, col_func, row_func, w as nat, h as nat, shift),
        old(buf)@.len() == w * h,
        rect_filled(old(buf)@, input@, stride as nat, col_func, w as nat, h as nat, shift, col as int),
    ensures
        final(buf)@.len() == w * h,
        rect_filled(final(buf)@, input@, stride as nat, col_func, w as nat, h as nat, shift, col + 1),
{
    let ghost f = col_func;
    let ghost inp = input@;
    let ghost st = stride as nat;
    let ghost (wn, hn) = (w as nat, h as nat);
    let ilen: usize = input.len();
    proof {
        assert(shift_ok(input@[0 * stride + col as int] as int, -shift[0]));
        assert(shift_ok(f.spec_apply(col_input(inp, st, hn, shift, col as int))[0], -shift[1]));
    }
    let mut temp_in: Vec<i32> = vec![0i32; h];
    let mut temp_out: Vec<i32> = vec![0i32; h];
    let mut row: usize = 0;
    while row < h
        invariant
            row <= h, col < w, ilen == input@.len(),
            (h - 1) * stride + w <= input@.len(),
            temp_in@.len() == h,
            forall|r: int| 0 <= r < row ==> temp_in@[r] == #[trigger] column(inp, st, hn, col as int)[r],
            inp == input@, st == stride, hn == h,
        decreases h - row,
    {
        proof {
            assert(row * stride <= (h - 1) * stride) by (nonlinear_arith) requires row < h;
        }
        temp_in.set(row, input[row * stride + col]);
        row = row + 1;
    }
    proof {
        assert(temp_in@ =~= column(inp, st, hn, col as int));
        assert forall|r: int| 0 <= r < h implies shift_ok(#[trigger] temp_in@[r] as int, -shift[0]) by {
            assert(shift_ok(input@[r * stride + col as int] as int, -shift[0]));
        }
        assert(bounded_int(shifted(column(inp, st, hn, col as int), -shift[0]), hn, TXFM_INPUT_MAX as int));
    }
    round_shift_array(temp_in.as_mut_slice(), -shift[0]);
    proof {
        assert(temp_in@ =~= col_input(inp, st, hn, shift, col as int));
    }
    col_func.apply(temp_in.as_slice(), temp_out.as_mut_slice());
    proof {
        f.lemma_apply_len(col_input(inp, st, hn, shift, col as int));
        assert forall|r: int| 0 <= r < h implies shift_ok(#[trigger] temp_out@[r] as int, -shift[1]) by {
            assert(shift_ok(f.spec_apply(col_input(inp, st, hn, shift, col as int))[r], -shift[1]));
        }
    }
    round_shift_array(temp_out.as_mut_slice(), -shift[1]);
    proof {
        assert forall|r: int| 0 <= r < h implies temp_out@[r] == #[trigger] col_pass(inp, st, f, hn, shift, col as int)[r] by {
        }
    }
    let mut row2: usize = 0;
    while row2 < h
        invariant
            row2 <= h, col < w, w <= 64, h <= 64,
            inp == input@, st == stride, wn == w, hn == h, f == col_func,
            buf@.len() == w * h, temp_out@.len() == h,
            forall|r: int| 0 <= r < h ==> temp_out@[r] == #[trigger] col_pass(inp, st, f, hn, shift, col as int)[r],
            rect_filled(buf@, inp, st, f, wn, hn, shift, col as int),
            forall|r: int| 0 <= r < row2 ==>
                buf@[raster(r, col as int, w as int)] == #[trigger] col_pass(inp, st, f, hn, shift, col as int)[r],
        decreases h - row2,
    {
        proof {
            assert(row2 * w + col < w * h) by (nonlinear_arith) requires row2 < h, col < w;
            assert(w * h <= 4096) by (nonlinear_arith) requires w <= 64, h <= 64;
        }
        let idx: usize = row2 * w + col;
        assert(idx as int == raster(row2 as int, col as int, w as int));
        let ghost old_buf = buf@;
        buf.set(idx, temp_out[row2]);
        proof {
            assert forall|r: int, c: int| 0 <= r < h && 0 <= c < col implies
                buf@[raster(r, c, w as int)] == #[trigger] col_pass(inp, st, f, hn, shift, c)[r] by {
                assert(raster(r, c, w as int) != raster(row2 as int, col as int, w as int)) by (nonlinear_arith)
                    requires raster(r, c, w as int) == r * w + c, raster(row2 as int, col as int, w as int) == row2 * w + col,
                    0 <= c < col, col < w;
                assert(0 <= raster(r, c, w as int) < w * h) by (nonlinear_arith)
                    requires raster(r, c, w as int) == r * w + c, 0 <= r < h, 0 <= c < w;
                assert(old_buf[raster(r, c, w as int)] == col_pass(inp, st, f, hn, shift, c)[r]);
            }
            assert forall|r: int| 0 <= r < row2 + 1 implies
                buf@[raster(r, col as int, w as int)] == #[trigger] col_pass(inp, st, f, hn, shift, col as int)[r] by {
                if r < row2 {
                    assert(raster(r, col as int, w as int) != raster(row2 as int, col as int, w as int)) by (nonlinear_arith)
                        requires raster(r, col as int, w as int) == r * w + col,
                        raster(row2 as int, col as int, w as int) == row2 * w + col, r < row2, w > 0;
                    assert(0 <= raster(r, col as int, w as int) < w * h) by (nonlinear_arith)
                        requires raster(r, col as int, w as int) == r * w + col, 0 <= r < h, 0 <= col < w;
                }
            }
        }
        row2 = row2 + 1;
    }
}

/// Row pass of row `row`: rescale the row of `buf`, transform, shift, store in `output`.
fn rect_row(input: &[i32], stride: usize, col_func: FwdTxfm1d, row_func: FwdTxfm1d, w: usize, h: usize,
    shift: [i32; 3], row: usize, buf: &Vec<i32>, output: &mut [i32])
    requires
        row < h, w <= 64, h <= 64, w >= 1,
        row_func.spec_size() == w,
        fwd2d_rect_ok(input@, stride as nat, col_func, row_func, w as nat, h as nat, shift),
        buf@.len() == w * h,
        rect_filled(buf@, input@, stride as nat, col_func, w as nat, h as nat, shift, w as int),
        w * h <= old(output)@.len(),
        forall|k: int| 0 <= k < row * w ==> old(output)@[k]
            == #[trigger] spec_fwd_txfm2d_rect(input@, stride as nat, col_func, row_func, w as nat, h as nat, shift)[k],
    ensures
        final(output)@.len() == old(output)@.len(),
        forall|k: int| 0 <= k < (row + 1) * w ==> final(output)@[k]
            == #[trigger] spec_fwd_txfm2d_rect(input@, stride as nat, col_func, row_func, w as nat, h as nat, shift)[k],
        forall|k: int| w * h <= k < old(output)@.len() ==> final(output)@[k] == old(output)@[k],
{
    let ghost f = col_func;
    let ghost g = row_func;
    let ghost inp = input@;
    let ghost st = stride as nat;
    let ghost (wn, hn) = (w as nat, h as nat);
    proof {
        assert(row * w + w <= w * h) by (nonlinear_arith) requires row < h;
        assert(row * w + w == (row + 1) * w) by (nonlinear_arith);
        assert(w * h <= 4096) by (nonlinear_arith) requires w <= 64, h <= 64;
        assert(shift_ok(g.spec_apply(rect_row_input(inp, st, f, wn, hn, shift, row as int))[0], -shift[2]));
    }
    let on: bool = w == 2 * h || h == 2 * w;
    let mut temp_in: Vec<i32> = vec![0i32; w];
    let mut temp_out: Vec<i32> = vec![0i32; w];
    let row_start: usize = row * w;
    let mut c: usize = 0;
    while c < w
        invariant
            c <= w, row < h, w <= 64, h <= 64,
            inp == input@, st == stride, wn == w, hn == h, f == col_func, g == row_func,
            on == (w == 2 * h || h == 2 * w),
            row_start == row * w, row * w + w <= w * h, w * h <= 4096,
            buf@.len() == w * h, temp_in@.len() == w,
            fwd2d_rect_ok(input@, stride as nat, col_func, row_func, w as nat, h as nat, shift),
            rect_filled(buf@, inp, st, f, wn, hn, shift, w as int),
            forall|cc: int| 0 <= cc < c ==> temp_in@[cc] == #[trigger] rect_row_input(inp, st, f, wn, hn, shift, row as int)[cc],
        decreases w - c,
    {
        assert(raster(row as int, c as int, w as int) == row_start + c);
        assert(0 <= row as int && row < h && 0 <= c as int && c < w);
        assert(buf@[raster(row as int, c as int, w as int)] == col_pass(inp, st, f, hn, shift, c as int)[row as int]);
        let v: i32 = buf[row_start + c];
        assert(-TXFM_INPUT_MAX <= col_pass(inp, st, f, hn, shift, c as int)[row as int] <= TXFM_INPUT_MAX);
        let s: i32 = rect_scale(v, on);
        temp_in.set(c, s);
        c = c + 1;
    }
    proof {
        assert forall|cc: int| 0 <= cc < w implies -TXFM_INPUT_MAX <= #[trigger] temp_in@[cc] <= TXFM_INPUT_MAX by {
            let v = col_pass(inp, st, f, hn, shift, cc)[row as int];
            assert(-TXFM_INPUT_MAX <= v <= TXFM_INPUT_MAX);
            lemma_rect_scaled_bound(v, wn, hn);
            assert(temp_in@[cc] == rect_row_input(inp, st, f, wn, hn, shift, row as int)[cc]);
            assert(rect_row_input(inp, st, f, wn, hn, shift, row as int)[cc] == rect_scaled(v, wn, hn) as i32);
        }
        assert(temp_in@ =~= rect_row_input(inp, st, f, wn, hn, shift, row as int));
    }
    row_func.apply(temp_in.as_slice(), temp_out.as_mut_slice());
    proof {
        g.lemma_apply_len(rect_row_input(inp, st, f, wn, hn, shift, row as int));
        assert forall|cc: int| 0 <= cc < w implies shift_ok(#[trigger] temp_out@[cc] as int, -shift[2]) by {
            assert(shift_ok(g.spec_apply(rect_row_input(inp, st, f, wn, hn, shift, row as int))[cc], -shift[2]));
        }
    }
    round_shift_array(temp_out.as_mut_slice(), -shift[2]);
    proof {
        assert forall|cc: int| 0 <= cc < w implies temp_out@[cc] == #[trigger] rect_row_pass(inp, st, f, g, wn, hn, shift, row as int)[cc] by {
        }
    }
    let mut c2: usize = 0;
    while c2 < w
        invariant
            c2 <= w, row < h, w <= 64, h <= 64,
            inp == input@, st == stride, wn == w, hn == h, f == col_func, g == row_func,
            row_start == row * w, row * w + w <= w * h, w * h <= 4096,
            w * h <= old(output)@.len(),
            output@.len() == old(output)@.len(),
            temp_out@.len() == w,
            forall|cc: int| 0 <= cc < w ==> temp_out@[cc] == #[trigger] rect_row_pass(inp, st, f, g, wn, hn, shift, row as int)[cc],
            forall|k: int| 0 <= k < row * w + c2 ==> output@[k]
                == #[trigger] spec_fwd_txfm2d_rect(inp, st, f, g, wn, hn, shift)[k],
            forall|k: int| w * h <= k < old(output)@.len() ==> output@[k] == old(output)@[k],
        decreases w - c2,
    {
        proof {
            lemma_raster_divmod(row as int, c2 as int, w as int);
            assert(spec_fwd_txfm2d_rect(inp, st, f, g, wn, hn, shift)[row * w + c2]
                == rect_row_pass(inp, st, f, g, wn, hn, shift, row as int)[c2 as int]);
        }
        output[row_start + c2] = temp_out[c2];
        c2 = c2 + 1;
    }
}

/// Forward 2D transform of a `w` x `h` block with row stride `stride`: column
/// transforms of `h` points (input shifted by `-shift[0]`, output by `-shift[1]`),
/// each row rescaled by `1 / sqrt(2)` when the block is 2:1, then row transforms of
/// `w` points (output shifted by `-shift[2]`), written in raster order `w` wide.
pub fn fwd_txfm2d_rect(input: &[i32], output: &mut [i32], stride: usize, col_func: FwdTxfm1d,
    row_func: FwdTxfm1d, w: usize, h: usize, shift: [i32; 3])
    requires
        col_func.spec_size() == h,
        row_func.spec_size() == w,
        (h - 1) * stride + w <= input@.len(),
        w * h <= old(output)@.len(),
        fwd2d_rect_ok(input@, stride as nat, col_func, row_func, w as nat, h as nat, shift),
    ensures
        final(output)@.len() == old(output)@.len(),
        forall|k: int| 0 <= k < w * h ==> final(output)@[k]
            == #[trigger] spec_fwd_txfm2d_rect(input@, stride as nat, col_func, row_func, w as nat, h as nat, shift)[k],
        forall|k: int| w * h <= k < old(output)@.len() ==> final(output)@[k] == old(output)@[k],
{
    proof {
        assert(w <= 64 && h <= 64 && w >= 4 && h >= 4);
        assert(w * h <= 4096) by (nonlinear_arith) requires w <= 64, h <= 64;
    }
    let mut buf: Vec<i32> = vec![0i32; w * h];
    let mut col: usize = 0;
    while col < w
        invariant
            col <= w, w <= 64, h <= 64, h >= 4,
            col_func.spec_size() == h, row_func.spec_size() == w,
            (h - 1) * stride + w <= input@.len(),
            fwd2d_rect_ok(input@, stride as nat, col_func, row_func, w as nat, h as nat, shift),
            buf@.len() == w * h,
            rect_filled(buf@, input@, stride as nat, col_func, w as nat, h as nat, shift, col as int),
        decreases w - col,
    {
        rect_column(input, stride, col_func, row_func, w, h, shift, col, &mut buf);
        col = col + 1;
    }
    let mut row: usize = 0;
    while row < h
        invariant
            row <= h, w <= 64, h <= 64, w >= 4,
            col_func.spec_size() == h, row_func.spec_size() == w,
            fwd2d_rect_ok(input@, stride as nat, col_func, row_func, w as nat, h as nat, shift),
            buf@.len() == w * h,
            rect_filled(buf@, input@, stride as nat, col_func, w as nat, h as nat, shift, w as int),
            w * h <= old(output)@.len(),
            output@.len() == old(output)@.len(),
            forall|k: int| 0 <= k < row * w ==> output@[k]
                == #[trigger] spec_fwd_txfm2d_rect(input@, stride as nat, col_func, row_func, w as nat, h as nat, shift)[k],
            forall|k: int| w * h <= k < old(output)@.len() ==> output@[k] == old(output)@[k],
        decreases h - row,
    {
        rect_row(input, stride, col_func, row_func, w, h, shift, row, &buf, output);
        row = row + 1;
    }
    proof {
        assert(h * w == w * h) by (nonlinear_arith);
    }
}

} // verus!
