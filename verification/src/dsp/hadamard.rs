//! Sum of absolute transformed differences (SATD): the 2-D Walsh-Hadamard transform of
//! the difference of two blocks, summed in absolute value and normalised.
use vstd::prelude::*;
use crate::dsp::fwd_txfm::raster;

verus! {

/// Difference of the samples at `(r, c)` of the two blocks.
pub open spec fn hd_diff(src: Seq<u8>, src_stride: usize, rf: Seq<u8>, ref_stride: usize, r: int, c: int) -> int {
    src[r * src_stride + c] - rf[r * ref_stride + c]
}

/// 4-point Walsh-Hadamard transform (butterfly order).
pub open spec fn wht4(x: Seq<int>) -> Seq<int> {
    seq![x[0] + x[1] + x[2] + x[3], x[0] - x[1] + x[2] - x[3], x[0] + x[1] - x[2] - x[3], x[0] - x[1] - x[2] + x[3]]
}

/// 8-point Walsh-Hadamard transform (butterfly order).
pub open spec fn wht8(x: Seq<int>) -> Seq<int> {
    let (a0, a1, a2, a3) = (x[0] + x[4], x[1] + x[5], x[2] + x[6], x[3] + x[7]);
    let (a4, a5, a6, a7) = (x[0] - x[4], x[1] - x[5], x[2] - x[6], x[3] - x[7]);
    let (b0, b1, b2, b3) = (a0 + a2, a1 + a3, a0 - a2, a1 - a3);
    let (b4, b5, b6, b7) = (a4 + a6, a5 + a7, a4 - a6, a5 - a7);
    seq![b0 + b1, b0 - b1, b2 + b3, b2 - b3, b4 + b5, b4 - b5, b6 + b7, b6 - b7]
}

/// `|v|`.
pub open spec fn iabs(v: int) -> int {
    if v >= 0 { v } else { -v }
}

/// Sum of the absolute values of the first `k` entries.
pub open spec fn abs_sum(s: Seq<int>, k: int) -> int
    decreases k,
{
    if k <= 0 { 0 } else { abs_sum(s, k - 1) + iabs(s[k - 1]) }
}

/// Row `r` of the difference block, `n` samples wide.
pub open spec fn diff_row(src: Seq<u8>, src_stride: usize, rf: Seq<u8>, ref_stride: usize, r: int, n: int) -> Seq<int> {
    Seq::new(n as nat, |c: int| hd_diff(src, src_stride, rf, ref_stride, r, c))
}

/// The block after the horizontal transform: entry `(r, k)`.
#[verifier::opaque]
pub open spec fn hrow_coef(src: Seq<u8>, src_stride: usize, rf: Seq<u8>, ref_stride: usize, n: int, r: int, k: int)
    -> int {
    if n == 4 {
        wht4(diff_row(src, src_stride, rf, ref_stride, r, 4))[k]
    } else {
        wht8(diff_row(src, src_stride, rf, ref_stride, r, 8))[k]
    }
}

/// Column `c` of the horizontally transformed block.
pub open spec fn hcol(src: Seq<u8>, src_stride: usize, rf: Seq<u8>, ref_stride: usize, n: int, c: int) -> Seq<int> {
    Seq::new(n as nat, |r: int| hrow_coef(src, src_stride, rf, ref_stride, n, r, c))
}

/// Sum of the absolute 2-D transform coefficients of the first `cols` columns.
pub open spec fn satd_raw(src: Seq<u8>, src_stride: usize, rf: Seq<u8>, ref_stride: usize, n: int, cols: int) -> int
    decreases cols,
{
    if cols <= 0 {
        0
    } else {
        satd_raw(src, src_stride, rf, ref_stride, n, cols - 1) + abs_sum(
            if n == 4 { wht4(hcol(src, src_stride, rf, ref_stride, n, cols - 1)) } else {
                wht8(hcol(src, src_stride, rf, ref_stride, n, cols - 1)) }, n)
    }
}

/// Both `n` x `n` blocks lie in their buffers.
pub open spec fn square_blocks_fit(src_len: int, src_stride: usize, ref_len: int, ref_stride: usize, n: int) -> bool {
    (n - 1) * src_stride + n <= src_len && (n - 1) * ref_stride + n <= ref_len
}

proof fn lemma_offsets(r: int, c: int, stride: int, n: int, len: int)
    requires 0 <= r < n, 0 <= c < n, stride >= 0, (n - 1) * stride + n <= len,
    ensures 0 <= r * stride + c < len,
{
    assert(r * stride <= (n - 1) * stride) by (nonlinear_arith) requires r <= n - 1, stride >= 0;
    assert(r * stride >= 0) by (nonlinear_arith) requires r >= 0, stride >= 0;
}

/// The horizontal transform of every row, row-major: `n * n` entries.
fn horizontal_pass(src: &[u8], src_stride: usize, ref_: &[u8], ref_stride: usize, n: usize) -> (tmp: Vec<i32>)
    requires
        n == 4 || n == 8,
        square_blocks_fit(src@.len() as int, src_stride, ref_@.len() as int, ref_stride, n as int),
    ensures
        tmp@.len() == n * n,
        forall|r: int, k: int| 0 <= r < n && 0 <= k < n ==>
            tmp@[#[trigger] raster(r, k, n as int)] == hrow_coef(src@, src_stride, ref_@, ref_stride, n as int, r, k),
        forall|i: int| 0 <= i < n * n ==> -8 * 255 <= #[trigger] tmp@[i] <= 8 * 255,
{
    let slen: usize = src.len();
    let rlen: usize = ref_.len();
    let mut tmp: Vec<i32> = Vec::new();
    let mut row: usize = 0;
    while row < n
        invariant
            n == 4 || n == 8, row <= n, slen == src@.len(), rlen == ref_@.len(),
            square_blocks_fit(src@.len() as int, src_stride, ref_@.len() as int, ref_stride, n as int),
            tmp@.len() == row * n,
            forall|r: int, k: int| 0 <= r < row && 0 <= k < n ==>
                tmp@[#[trigger] raster(r, k, n as int)] == hrow_coef(src@, src_stride, ref_@, ref_stride, n as int, r, k),
            forall|i: int| 0 <= i < row * n ==> -8 * 255 <= #[trigger] tmp@[i] <= 8 * 255,
        decreases n - row,
    {
        let mut d: Vec<i32> = Vec::new();
        let mut col: usize = 0;
        while col < n
            invariant
                n == 4 || n == 8, row < n, col <= n, slen == src@.len(), rlen == ref_@.len(),
                square_blocks_fit(src@.len() as int, src_stride, ref_@.len() as int, ref_stride, n as int),
                d@.len() == col,
                forall|c: int| 0 <= c < col ==> #[trigger] d@[c] == hd_diff(src@, src_stride, ref_@, ref_stride,
                    row as int, c),
            decreases n - col,
        {
            proof {
                lemma_offsets(row as int, col as int, src_stride as int, n as int, slen as int);
                lemma_offsets(row as int, col as int, ref_stride as int, n as int, rlen as int);
            }
            let v: i32 = src[row * src_stride + col] as i32 - ref_[row * ref_stride + col] as i32;
            d.push(v);
            col = col + 1;
        }
        let ghost dr = diff_row(src@, src_stride, ref_@, ref_stride, row as int, n as int);
        assert forall|i: int| 0 <= i < n implies #[trigger] dr[i] == d@[i] by {}
        let ghost before = tmp@;
        if n == 4 {
            let a: i32 = d[0] + d[1];
            let b: i32 = d[0] - d[1];
            let c: i32 = d[2] + d[3];
            let e: i32 = d[2] - d[3];
            tmp.push(a + c);
            tmp.push(b + e);
            tmp.push(a - c);
            tmp.push(b - e);
        } else {
            let a0: i32 = d[0] + d[4];
            let a1: i32 = d[1] + d[5];
            let a2: i32 = d[2] + d[6];
            let a3: i32 = d[3] + d[7];
            let a4: i32 = d[0] - d[4];
            let a5: i32 = d[1] - d[5];
            let a6: i32 = d[2] - d[6];
            let a7: i32 = d[3] - d[7];
            let b0: i32 = a0 + a2;
            let b1: i32 = a1 + a3;
            let b2: i32 = a0 - a2;
            let b3: i32 = a1 - a3;
            let b4: i32 = a4 + a6;
            let b5: i32 = a5 + a7;
            let b6: i32 = a4 - a6;
            let b7: i32 = a5 - a7;
            tmp.push(b0 + b1);
            tmp.push(b0 - b1);
            tmp.push(b2 + b3);
            tmp.push(b2 - b3);
            tmp.push(b4 + b5);
            tmp.push(b4 - b5);
            tmp.push(b6 + b7);
            tmp.push(b6 - b7);
        }
        proof {
            reveal(hrow_coef);
            assert(tmp@.len() == (row + 1) * n) by (nonlinear_arith)
                requires tmp@.len() == row * n + n;
            assert forall|r: int, k: int| 0 <= r < row + 1 && 0 <= k < n implies
                tmp@[#[trigger] raster(r, k, n as int)] == hrow_coef(src@, src_stride, ref_@, ref_stride, n as int, r, k)
                by {
                if r < row {
                    assert(raster(r, k, n as int) < row * n) by (nonlinear_arith)
                        requires r < row, k < n, raster(r, k, n as int) == r * n + k;
                    assert(tmp@[raster(r, k, n as int)] == before[raster(r, k, n as int)]);
                } else {
                    assert(raster(r, k, n as int) == row * n + k);
                }
            }
            assert forall|i: int| 0 <= i < (row + 1) * n implies -8 * 255 <= #[trigger] tmp@[i] <= 8 * 255 by {
                if i >= row * n {
                    let k = i - row * n;
                    assert(raster(row as int, k, n as int) == i);
                }
            }
        }
        row = row + 1;
    }
    tmp
}

/// SATD of two 4x4 blocks: `(sum |coefficients| + 1) >> 1`.
pub fn satd_4x4(src: &[u8], src_stride: usize, ref_: &[u8], ref_stride: usize) -> (r: u32)
    requires square_blocks_fit(src@.len() as int, src_stride, ref_@.len() as int, ref_stride, 4),
    ensures r == (satd_raw(src@, src_stride, ref_@, ref_stride, 4, 4) + 1) / 2,
{
    satd_core(src, src_stride, ref_, ref_stride, 4)
}

/// SATD of two 8x8 blocks: `(sum |coefficients| + 2) >> 2`.
pub fn satd_8x8(src: &[u8], src_stride: usize, ref_: &[u8], ref_stride: usize) -> (r: u32)
    requires square_blocks_fit(src@.len() as int, src_stride, ref_@.len() as int, ref_stride, 8),
    ensures r == (satd_raw(src@, src_stride, ref_@, ref_stride, 8, 8) + 2) / 4,
{
    satd_core(src, src_stride, ref_, ref_stride, 8)
}

fn abs_u32(v: i32) -> (r: u32)
    requires -0x1000_0000 <= v <= 0x1000_0000,
    ensures r == iabs(v as int),
{
    if v >= 0 { v as u32 } else { (-v) as u32 }
}

/// `t` holds the horizontally transformed `n` x `n` difference block, row-major.
pub open spec fn hpass_ok(t: Seq<i32>, src: Seq<u8>, src_stride: usize, rf: Seq<u8>, ref_stride: usize, n: int) -> bool {
    &&& t.len() == n * n
    &&& forall|r: int, k: int| 0 <= r < n && 0 <= k < n ==>
        t[#[trigger] raster(r, k, n)] == hrow_coef(src, src_stride, rf, ref_stride, n, r, k)
    &&& forall|i: int| 0 <= i < n * n ==> -8 * 255 <= #[trigger] t[i] <= 8 * 255
}

/// Column `col` of `t` is [`hcol`].
proof fn lemma_column(t: Seq<i32>, src: Seq<u8>, src_stride: usize, rf: Seq<u8>, ref_stride: usize, n: int, col: int)
    requires n == 4 || n == 8, 0 <= col < n, hpass_ok(t, src, src_stride, rf, ref_stride, n),
    ensures forall|r: int| 0 <= r < n ==> t[#[trigger] (r * n + col)] == hcol(src, src_stride, rf, ref_stride, n, col)[r]
        && -8 * 255 <= t[r * n + col] <= 8 * 255,
{
    assert forall|r: int| 0 <= r < n implies t[#[trigger] (r * n + col)] == hcol(src, src_stride, rf, ref_stride, n, col)[r]
        && -8 * 255 <= t[r * n + col] <= 8 * 255 by {
        assert(raster(r, col, n) == r * n + col);
        assert(r * n + col < n * n) by (nonlinear_arith) requires 0 <= r < n, 0 <= col < n;
    }
}

proof fn lemma_abs_sum4(s: Seq<int>)
    ensures abs_sum(s, 4) == iabs(s[0]) + iabs(s[1]) + iabs(s[2]) + iabs(s[3]),
{
    reveal_with_fuel(abs_sum, 5);
}

proof fn lemma_abs_sum8(s: Seq<int>)
    ensures abs_sum(s, 8) == iabs(s[0]) + iabs(s[1]) + iabs(s[2]) + iabs(s[3]) + iabs(s[4]) + iabs(s[5])
        + iabs(s[6]) + iabs(s[7]),
{
    reveal_with_fuel(abs_sum, 9);
}

/// Absolute sum of the vertical 4-point transform of column `col`.
fn column4(t: &Vec<i32>, col: usize, Ghost(src): Ghost<Seq<u8>>, Ghost(src_stride): Ghost<usize>,
    Ghost(rf): Ghost<Seq<u8>>, Ghost(ref_stride): Ghost<usize>) -> (s: u32)
    requires col < 4, hpass_ok(t@, src, src_stride, rf, ref_stride, 4),
    ensures s == abs_sum(wht4(hcol(src, src_stride, rf, ref_stride, 4, col as int)), 4), s <= 32640,
{
    proof { lemma_column(t@, src, src_stride, rf, ref_stride, 4, col as int); }
    let ghost hc = hcol(src, src_stride, rf, ref_stride, 4, col as int);
    let x0: i32 = t[col];
    let x1: i32 = t[4 + col];
    let x2: i32 = t[8 + col];
    let x3: i32 = t[12 + col];
    assert(x0 == hc[0] && x1 == hc[1] && x2 == hc[2] && x3 == hc[3]) by {
        assert(t@[0 * 4 + col] == hc[0] && t@[1 * 4 + col] == hc[1]);
        assert(t@[2 * 4 + col] == hc[2] && t@[3 * 4 + col] == hc[3]);
    }
    let a: i32 = x0 + x1;
    let b: i32 = x0 - x1;
    let c: i32 = x2 + x3;
    let d: i32 = x2 - x3;
    let s: u32 = abs_u32(a + c) + abs_u32(b + d) + abs_u32(a - c) + abs_u32(b - d);
    proof {
        let w = wht4(hc);
        assert(w[0] == a + c && w[1] == b + d && w[2] == a - c && w[3] == b - d);
        lemma_abs_sum4(w);
    }
    s
}

/// Absolute sum of the vertical 8-point transform of column `col`.
fn column8(t: &Vec<i32>, col: usize, Ghost(src): Ghost<Seq<u8>>, Ghost(src_stride): Ghost<usize>,
    Ghost(rf): Ghost<Seq<u8>>, Ghost(ref_stride): Ghost<usize>) -> (s: u32)
    requires col < 8, hpass_ok(t@, src, src_stride, rf, ref_stride, 8),
    ensures s == abs_sum(wht8(hcol(src, src_stride, rf, ref_stride, 8, col as int)), 8), s <= 130560,
{
    proof { lemma_column(t@, src, src_stride, rf, ref_stride, 8, col as int); }
    let ghost hc = hcol(src, src_stride, rf, ref_stride, 8, col as int);
    let x0: i32 = t[col];
    let x1: i32 = t[8 + col];
    let x2: i32 = t[16 + col];
    let x3: i32 = t[24 + col];
    let x4: i32 = t[32 + col];
    let x5: i32 = t[40 + col];
    let x6: i32 = t[48 + col];
    let x7: i32 = t[56 + col];
    assert(x0 == hc[0] && x1 == hc[1] && x2 == hc[2] && x3 == hc[3] && x4 == hc[4] && x5 == hc[5] && x6 == hc[6]
        && x7 == hc[7]) by {
        assert(t@[0 * 8 + col] == hc[0] && t@[1 * 8 + col] == hc[1] && t@[2 * 8 + col] == hc[2]);
        assert(t@[3 * 8 + col] == hc[3] && t@[4 * 8 + col] == hc[4] && t@[5 * 8 + col] == hc[5]);
        assert(t@[6 * 8 + col] == hc[6] && t@[7 * 8 + col] == hc[7]);
    }
    assert(hc =~= seq![x0 as int, x1 as int, x2 as int, x3 as int, x4 as int, x5 as int, x6 as int, x7 as int]);
    wht8_abs_sum(x0, x1, x2, x3, x4, x5, x6, x7)
}

proof fn lemma_wht8_entries(x: Seq<int>)
    requires x.len() == 8,
    ensures
        wht8(x)[0] == ((x[0] + x[4]) + (x[2] + x[6])) + ((x[1] + x[5]) + (x[3] + x[7])),
        wht8(x)[1] == ((x[0] + x[4]) + (x[2] + x[6])) - ((x[1] + x[5]) + (x[3] + x[7])),
        wht8(x)[2] == ((x[0] + x[4]) - (x[2] + x[6])) + ((x[1] + x[5]) - (x[3] + x[7])),
        wht8(x)[3] == ((x[0] + x[4]) - (x[2] + x[6])) - ((x[1] + x[5]) - (x[3] + x[7])),
        wht8(x)[4] == ((x[0] - x[4]) + (x[2] - x[6])) + ((x[1] - x[5]) + (x[3] - x[7])),
        wht8(x)[5] == ((x[0] - x[4]) + (x[2] - x[6])) - ((x[1] - x[5]) + (x[3] - x[7])),
        wht8(x)[6] == ((x[0] - x[4]) - (x[2] - x[6])) + ((x[1] - x[5]) - (x[3] - x[7])),
        wht8(x)[7] == ((x[0] - x[4]) - (x[2] - x[6])) - ((x[1] - x[5]) - (x[3] - x[7])),
{
}

/// `abs_sum(wht8(x), 8)` of eight bounded values.
#[verifier::rlimit(40)]
fn wht8_abs_sum(x0: i32, x1: i32, x2: i32, x3: i32, x4: i32, x5: i32, x6: i32, x7: i32) -> (s: u32)
    requires
        -2040 <= x0 <= 2040, -2040 <= x1 <= 2040, -2040 <= x2 <= 2040, -2040 <= x3 <= 2040,
        -2040 <= x4 <= 2040, -2040 <= x5 <= 2040, -2040 <= x6 <= 2040, -2040 <= x7 <= 2040,
    ensures
        s == abs_sum(wht8(seq![x0 as int, x1 as int, x2 as int, x3 as int, x4 as int, x5 as int, x6 as int,
            x7 as int]), 8),
        s <= 130560,
{
    let a0: i32 = x0 + x4;
    let a1: i32 = x1 + x5;
    let a2: i32 = x2 + x6;
    let a3: i32 = x3 + x7;
    let a4: i32 = x0 - x4;
    let a5: i32 = x1 - x5;
    let a6: i32 = x2 - x6;
    let a7: i32 = x3 - x7;
    assert(-4080 <= a0 <= 4080 && -4080 <= a1 <= 4080 && -4080 <= a2 <= 4080 && -4080 <= a3 <= 4080);
    assert(-4080 <= a4 <= 4080 && -4080 <= a5 <= 4080 && -4080 <= a6 <= 4080 && -4080 <= a7 <= 4080);
    let b0: i32 = a0 + a2;
    let b1: i32 = a1 + a3;
    let b2: i32 = a0 - a2;
    let b3: i32 = a1 - a3;
    let b4: i32 = a4 + a6;
    let b5: i32 = a5 + a7;
    let b6: i32 = a4 - a6;
    let b7: i32 = a5 - a7;
    assert(-8160 <= b0 <= 8160 && -8160 <= b1 <= 8160 && -8160 <= b2 <= 8160 && -8160 <= b3 <= 8160);
    assert(-8160 <= b4 <= 8160 && -8160 <= b5 <= 8160 && -8160 <= b6 <= 8160 && -8160 <= b7 <= 8160);
    let e0: u32 = abs_u32(b0 + b1);
    let e1: u32 = abs_u32(b0 - b1);
    let e2: u32 = abs_u32(b2 + b3);
    let e3: u32 = abs_u32(b2 - b3);
    let e4: u32 = abs_u32(b4 + b5);
    let e5: u32 = abs_u32(b4 - b5);
    let e6: u32 = abs_u32(b6 + b7);
    let e7: u32 = abs_u32(b6 - b7);
    assert(e0 <= 16320 && e1 <= 16320 && e2 <= 16320 && e3 <= 16320);
    assert(e4 <= 16320 && e5 <= 16320 && e6 <= 16320 && e7 <= 16320);
    let s: u32 = e0 + e1 + e2 + e3 + e4 + e5 + e6 + e7;
    proof {
        let x = seq![x0 as int, x1 as int, x2 as int, x3 as int, x4 as int, x5 as int, x6 as int, x7 as int];
        lemma_wht8_entries(x);
        lemma_abs_sum8(wht8(x));
    }
    s
}

/// Vertical pass and normalisation shared by both sizes.
fn satd_core(src: &[u8], src_stride: usize, ref_: &[u8], ref_stride: usize, n: usize) -> (r: u32)
    requires
        n == 4 || n == 8,
        square_blocks_fit(src@.len() as int, src_stride, ref_@.len() as int, ref_stride, n as int),
    ensures
        n == 4 ==> r == (satd_raw(src@, src_stride, ref_@, ref_stride, 4, 4) + 1) / 2,
        n == 8 ==> r == (satd_raw(src@, src_stride, ref_@, ref_stride, 8, 8) + 2) / 4,
{
    let t: Vec<i32> = horizontal_pass(src, src_stride, ref_, ref_stride, n);
    let mut satd: u32 = 0;
    let mut col: usize = 0;
    while col < n
        invariant
            n == 4 || n == 8, col <= n,
            hpass_ok(t@, src@, src_stride, ref_@, ref_stride, n as int),
            satd == satd_raw(src@, src_stride, ref_@, ref_stride, n as int, col as int),
            satd <= col * 130560,
        decreases n - col,
    {
        let s: u32 = if n == 4 {
            let v: u32 = column4(&t, col, Ghost(src@), Ghost(src_stride), Ghost(ref_@), Ghost(ref_stride));
            assert(v <= 32640);
            v
        } else {
            let v: u32 = column8(&t, col, Ghost(src@), Ghost(src_stride), Ghost(ref_@), Ghost(ref_stride));
            assert(v <= 130560);
            v
        };
        assert(s <= 130560);
        assert(satd <= col * 130560);
        assert(col * 130560 <= 7 * 130560) by (nonlinear_arith) requires col < 8;
        satd = satd + s;
        col = col + 1;
    }
    let s1: u32 = satd + 1;
    let s2: u32 = satd + 2;
    proof {
        vstd::bits::lemma_u32_shr_is_div(s1, 1);
        vstd::bits::lemma_u32_shr_is_div(s2, 2);
        vstd::arithmetic::power2::lemma2_to64();
    }
    if n == 4 { s1 >> 1 } else { s2 >> 2 }
}

} // verus!
