//! The constrained directional enhancement filter: direction search on 8x8 blocks and
//! the directional filter with damped, clamped taps.
use vstd::prelude::*;
use crate::dsp::superres::clampi;
use crate::dsp::copy::{block_fits, block_written, block_rows_written, rows_state, row_partial, lemma_rows_write, lemma_rows_done, lemma_rows_block};
use crate::dsp::fwd_txfm::{lemma_i64_shr};

verus! {

/// Side of the blocks the direction search works on.
pub const CDEF_BLOCK_SIZE: usize = 8;
/// Number of directions.
pub const CDEF_DIRECTIONS: usize = 8;
/// For each direction, the `[dy, dx]` offsets of its first and second tap.
pub const CDEF_DIR_OFFSETS: [[[i32; 2]; 2]; 8] = [
    [[0, 1], [0, 2]],
    [[-1, 1], [-2, 2]],
    [[-1, 0], [-2, 0]],
    [[-1, -1], [-2, -2]],
    [[0, -1], [0, -2]],
    [[1, -1], [2, -2]],
    [[1, 0], [2, 0]],
    [[1, 1], [2, 2]],
];

/// `floor(log2(x))`, with 0 for 0 and 1.
pub open spec fn spec_floor_log2(x: u32) -> int
    decreases x,
{
    if x <= 1 { 0 } else { 1 + spec_floor_log2(x / 2) }
}

/// `floor(log2(x))`; 0 for 0.
pub fn floor_log2(x: u32) -> (r: u32)
    ensures r == spec_floor_log2(x), r < 32,
{
    proof {
        vstd::arithmetic::power2::lemma2_to64();
        lemma_floor_log2_below(x, 32);
    }
    if x == 0 {
        return 0;
    }
    let mut v: u32 = x;
    let mut log: u32 = 0;
    while v > 1
        invariant v >= 1, log + spec_floor_log2(v) == spec_floor_log2(x), spec_floor_log2(x) <= 31,
        decreases v,
    {
        proof {
            vstd::bits::lemma_u32_shr_is_div(v, 1);
            vstd::arithmetic::power2::lemma2_to64();
            lemma_floor_log2_pos(v / 2);
        }
        v = v >> 1;
        log = log + 1;
    }
    log
}

pub proof fn lemma_floor_log2_pos(x: u32)
    ensures spec_floor_log2(x) >= 0,
    decreases x,
{
    if x > 1 {
        lemma_floor_log2_pos(x / 2);
    }
}

/// Below `2^k` the logarithm is at most `k - 1`.
proof fn lemma_floor_log2_below(x: u32, k: nat)
    requires k >= 1, x < vstd::arithmetic::power2::pow2(k),
    ensures spec_floor_log2(x) <= k - 1,
    decreases x,
{
    if x > 1 {
        vstd::arithmetic::power2::lemma_pow2_unfold(k);
        if k == 1 {
            vstd::arithmetic::power2::lemma2_to64();
        } else {
            lemma_floor_log2_below(x / 2, (k - 1) as nat);
        }
    }
}

/// The damping threshold `1 << shift` for `shift > 0` (wrapping to `i32::MIN` at 31),
/// else 0.
pub open spec fn damping_threshold(shift: int) -> int {
    if shift <= 0 { 0 } else if shift < 31 { vstd::arithmetic::power2::pow2(shift as nat) as int } else { i32::MIN as int }
}

/// The constrained tap: 0 for a zero strength or difference; else the difference
/// clamped to `strength` in magnitude, or 0 when its magnitude is below the damping
/// threshold `1 << (damping - floor_log2(strength))`.
pub open spec fn spec_constrain(diff: i32, strength: i32, damping: i32) -> int {
    if strength == 0 || diff == 0 {
        0
    } else {
        let a = if diff >= 0 { diff as int } else { -diff };
        let t = damping_threshold(damping - spec_floor_log2(strength as u32));
        let clamped = if a <= strength { a } else { strength as int };
        let d = if a < t { 0 } else { clamped };
        if diff < 0 { -d } else { d }
    }
}

/// The damping shift of [`spec_constrain`] is a valid 32-bit shift.
pub open spec fn constrain_ok(strength: i32, damping: i32) -> bool {
    strength == 0 || (damping - spec_floor_log2(strength as u32) < 32 && damping >= i32::MIN + 32)
}

/// The CDEF constraint function: [`spec_constrain`].
pub fn constrain(diff: i32, strength: i32, damping: i32) -> (r: i32)
    requires diff != 0 ==> constrain_ok(strength, damping), diff != i32::MIN, strength != i32::MIN,
    ensures r == spec_constrain(diff, strength, damping),
{
    if strength == 0 || diff == 0 {
        return 0;
    }
    let abs_diff: i32 = if diff >= 0 { diff } else { -diff };
    let lg: u32 = floor_log2(#[verifier::truncate] (strength as u32));
    let shift: i32 = damping - lg as i32;
    let threshold: i32 = if shift <= 0 {
        0
    } else if shift < 31 {
        let su: u32 = shift as u32;
        proof {
            vstd::arithmetic::power2::lemma_pow2_strictly_increases(su as nat, 31);
            vstd::arithmetic::power2::lemma2_to64();
            vstd::bits::lemma_u32_shl_is_mul(1, su);
        }
        (1u32 << su) as i32
    } else {
        i32::MIN
    };
    let clamped: i32 = if abs_diff <= strength { abs_diff } else { strength };
    let dampened: i32 = if abs_diff < threshold { 0 } else { clamped };
    if diff < 0 { -dampened } else { dampened }
}

/// The line of pixel `(row, col)` of an 8x8 block for direction `dir`: rows for 0 and
/// 4, columns for 2 and 6, anti-diagonals `row + col` for 1 and 7, diagonals
/// `row - col + 7` for 3 and 5.
pub open spec fn cdef_line(dir: int, row: int, col: int) -> int {
    if dir == 0 || dir == 4 { row } else if dir == 2 || dir == 6 { col } else if dir == 1 || dir == 7 { row + col }
    else { row - col + 7 }
}

/// Sample `(row, col)` of the block.
pub open spec fn cpx(src: Seq<u8>, stride: usize, row: int, col: int) -> int {
    src[row * stride + col] as int
}

/// Sum of the 64 samples of the 8x8 block: rows `0..rows`, then `cols` of row `rows`.
pub open spec fn cdef_sum(src: Seq<u8>, stride: usize, rows: int, cols: int) -> int
    decreases rows, cols,
{
    if cols > 0 { cdef_sum(src, stride, rows, cols - 1) + cpx(src, stride, rows, cols - 1) }
    else if rows > 0 { cdef_sum(src, stride, rows - 1, 8) }
    else { 0 }
}

/// Sum of `sample - mean` over the pixels on line `i` of direction `dir`, and their
/// count, over rows `0..rows` and then `cols` of row `rows`.
pub open spec fn line_stats(src: Seq<u8>, stride: usize, mean: int, dir: int, i: int, rows: int, cols: int)
    -> (int, int)
    decreases rows, cols,
{
    if cols > 0 {
        let prev = line_stats(src, stride, mean, dir, i, rows, cols - 1);
        if cdef_line(dir, rows, cols - 1) == i {
            (prev.0 + cpx(src, stride, rows, cols - 1) - mean, prev.1 + 1)
        } else {
            prev
        }
    } else if rows > 0 {
        line_stats(src, stride, mean, dir, i, rows - 1, 8)
    } else {
        (0, 0)
    }
}

/// Directional contrast of `dir`: the squared line sums of its nonempty lines, over
/// the first `k` line indices.
pub open spec fn dir_contrast(src: Seq<u8>, stride: usize, mean: int, dir: int, k: int) -> int
    decreases k,
{
    if k <= 0 {
        0
    } else {
        let st = line_stats(src, stride, mean, dir, k - 1, 8, 0);
        dir_contrast(src, stride, mean, dir, k - 1) + if st.1 > 0 { st.0 * st.0 } else { 0 }
    }
}

/// The best of the first `k` directions: the first with the largest contrast, or
/// `(0, 0)` when no contrast is positive.
pub open spec fn best_dir(src: Seq<u8>, stride: usize, mean: int, k: int) -> (int, int)
    decreases k,
{
    if k <= 0 {
        (0, 0)
    } else {
        let prev = best_dir(src, stride, mean, k - 1);
        let v = dir_contrast(src, stride, mean, k - 1, 16);
        if v > prev.1 { (k - 1, v) } else { prev }
    }
}

/// The mean of the 8x8 block, rounded down.
pub open spec fn cdef_mean(src: Seq<u8>, stride: usize) -> int {
    cdef_sum(src, stride, 8, 0) / 64
}

proof fn lemma_cdef_sum_bounds(src: Seq<u8>, stride: usize, rows: int, cols: int)
    requires 0 <= rows <= 8, 0 <= cols <= 8,
    ensures 0 <= cdef_sum(src, stride, rows, cols) <= 255 * (rows * 8 + cols),
    decreases rows, cols,
{
    if cols > 0 {
        lemma_cdef_sum_bounds(src, stride, rows, cols - 1);
    } else if rows > 0 {
        lemma_cdef_sum_bounds(src, stride, rows - 1, 8);
    }
}

proof fn lemma_line_stats_bounds(src: Seq<u8>, stride: usize, mean: int, dir: int, i: int, rows: int, cols: int)
    requires 0 <= rows <= 8, 0 <= cols <= 8, 0 <= mean <= 255,
    ensures
        -255 * (rows * 8 + cols) <= line_stats(src, stride, mean, dir, i, rows, cols).0 <= 255 * (rows * 8 + cols),
        0 <= line_stats(src, stride, mean, dir, i, rows, cols).1 <= rows * 8 + cols,
    decreases rows, cols,
{
    if cols > 0 {
        lemma_line_stats_bounds(src, stride, mean, dir, i, rows, cols - 1);
    } else if rows > 0 {
        lemma_line_stats_bounds(src, stride, mean, dir, i, rows - 1, 8);
    }
}

proof fn lemma_contrast_bounds(src: Seq<u8>, stride: usize, mean: int, dir: int, k: int)
    requires 0 <= k <= 16, 0 <= mean <= 255,
    ensures 0 <= dir_contrast(src, stride, mean, dir, k) <= k * 16320 * 16320,
    decreases k,
{
    if k > 0 {
        lemma_contrast_bounds(src, stride, mean, dir, k - 1);
        let st = line_stats(src, stride, mean, dir, k - 1, 8, 0);
        lemma_line_stats_bounds(src, stride, mean, dir, k - 1, 8, 0);
        assert(0 <= st.0 * st.0 <= 16320 * 16320) by (nonlinear_arith) requires -16320 <= st.0 <= 16320;
    }
}

/// The 16 line sums and counts of one direction.
fn direction_lines(src: &[u8], stride: usize, mean: u32, dir: usize) -> (r: (Vec<i32>, Vec<u32>))
    requires dir < 8, mean <= 255, 7 * stride + 8 <= src@.len(),
    ensures
        r.0@.len() == 16, r.1@.len() == 16,
        forall|i: int| 0 <= i < 16 ==> #[trigger] r.0@[i] == line_stats(src@, stride, mean as int, dir as int, i, 8, 0).0
            && r.1@[i] == line_stats(src@, stride, mean as int, dir as int, i, 8, 0).1,
{
    let slen: usize = src.len();
    let mut sums: Vec<i32> = vec![0i32; 16];
    let mut counts: Vec<u32> = vec![0u32; 16];
    let mut row: usize = 0;
    while row < 8
        invariant
            row <= 8, dir < 8, mean <= 255, 7 * stride + 8 <= src@.len(), slen == src@.len(),
            sums@.len() == 16, counts@.len() == 16,
            forall|i: int| 0 <= i < 16 ==> #[trigger] sums@[i] == line_stats(src@, stride, mean as int, dir as int, i,
                row as int, 0).0 && counts@[i] == line_stats(src@, stride, mean as int, dir as int, i, row as int, 0).1,
        decreases 8 - row,
    {
        let mut col: usize = 0;
        assert(forall|i: int| 0 <= i < 16 ==> #[trigger] sums@[i] == line_stats(src@, stride, mean as int, dir as int, i,
            row as int, col as int).0);
        while col < 8
            invariant
                row < 8, col <= 8, dir < 8, mean <= 255, 7 * stride + 8 <= src@.len(), slen == src@.len(),
                sums@.len() == 16, counts@.len() == 16,
                forall|i: int| 0 <= i < 16 ==> #[trigger] sums@[i] == line_stats(src@, stride, mean as int, dir as int, i,
                    row as int, col as int).0
                    && counts@[i] == line_stats(src@, stride, mean as int, dir as int, i, row as int, col as int).1,
            decreases 8 - col,
        {
            let idx: usize = if dir == 0 || dir == 4 {
                row
            } else if dir == 2 || dir == 6 {
                col
            } else if dir == 1 || dir == 7 {
                row + col
            } else {
                row + 7 - col
            };
            proof {
                assert(row * stride <= 7 * stride) by (nonlinear_arith) requires row < 8;
                assert forall|i: int| 0 <= i < 16 implies
                    -255 * (row * 8 + col) <= #[trigger] line_stats(src@, stride, mean as int, dir as int, i, row as int,
                    col as int).0 <= 255 * (row * 8 + col)
                    && line_stats(src@, stride, mean as int, dir as int, i, row as int, col as int).1 <= row * 8 + col by {
                    lemma_line_stats_bounds(src@, stride, mean as int, dir as int, i, row as int, col as int);
                }
            }
            let val: i32 = src[row * stride + col] as i32 - mean as i32;
            let ghost before_s = sums@;
            let ghost before_c = counts@;
            let s: i32 = sums[idx];
            let c: u32 = counts[idx];
            sums.set(idx, s + val);
            counts.set(idx, c + 1);
            proof {
                assert forall|i: int| 0 <= i < 16 implies #[trigger] sums@[i] == line_stats(src@, stride, mean as int,
                    dir as int, i, row as int, col + 1).0 && counts@[i] == line_stats(src@, stride, mean as int,
                    dir as int, i, row as int, col + 1).1 by {
                    if i != idx {
                        assert(sums@[i] == before_s[i] && counts@[i] == before_c[i]);
                    }
                }
            }
            col = col + 1;
        }
        proof {
            assert forall|i: int| 0 <= i < 16 implies #[trigger] sums@[i] == line_stats(src@, stride, mean as int,
                dir as int, i, row + 1, 0).0 && counts@[i] == line_stats(src@, stride, mean as int, dir as int, i,
                row + 1, 0).1 by {
                assert(line_stats(src@, stride, mean as int, dir as int, i, row + 1, 0)
                    == line_stats(src@, stride, mean as int, dir as int, i, row as int, 8));
            }
        }
        row = row + 1;
    }
    (sums, counts)
}

/// The dominant direction of the 8x8 block and its contrast: the first direction with
/// the largest [`dir_contrast`] around the block mean (see [`best_dir`]).
pub fn cdef_find_dir(src: &[u8], stride: usize) -> (r: (u8, u32))
    requires 7 * stride + 8 <= src@.len(),
    ensures
        r.0 == best_dir(src@, stride, cdef_mean(src@, stride), 8).0,
        r.1 == best_dir(src@, stride, cdef_mean(src@, stride), 8).1,
{
    let slen: usize = src.len();
    let mut sum: u32 = 0;
    let mut row: usize = 0;
    while row < 8
        invariant
            row <= 8, 7 * stride + 8 <= src@.len(), slen == src@.len(),
            sum == cdef_sum(src@, stride, row as int, 0), sum <= 2040 * row,
        decreases 8 - row,
    {
        let mut col: usize = 0;
        while col < 8
            invariant
                row < 8, col <= 8, 7 * stride + 8 <= src@.len(), slen == src@.len(),
                sum == cdef_sum(src@, stride, row as int, col as int), sum <= 2040 * row + 255 * col,
            decreases 8 - col,
        {
            assert(row * stride <= 7 * stride) by (nonlinear_arith) requires row < 8;
            sum = sum + src[row * stride + col] as u32;
            col = col + 1;
        }
        assert(cdef_sum(src@, stride, row + 1, 0) == cdef_sum(src@, stride, row as int, 8));
        row = row + 1;
    }
    let mean: u32 = sum / 64;
    let ghost m = mean as int;
    assert(m == cdef_mean(src@, stride));
    let mut best_d: u8 = 0;
    let mut best_var: u32 = 0;
    let mut dir: usize = 0;
    while dir < 8
        invariant
            dir <= 8, mean <= 255, m == mean, 7 * stride + 8 <= src@.len(),
            best_d == best_dir(src@, stride, m, dir as int).0,
            best_var == best_dir(src@, stride, m, dir as int).1,
        decreases 8 - dir,
    {
        let (sums, counts) = direction_lines(src, stride, mean, dir);
        let mut var: u32 = 0;
        let mut i: usize = 0;
        while i < 16
            invariant
                i <= 16, dir < 8, mean <= 255, m == mean, sums@.len() == 16, counts@.len() == 16,
                forall|j: int| 0 <= j < 16 ==> #[trigger] sums@[j] == line_stats(src@, stride, m, dir as int, j, 8, 0).0
                    && counts@[j] == line_stats(src@, stride, m, dir as int, j, 8, 0).1,
                var == dir_contrast(src@, stride, m, dir as int, i as int),
            decreases 16 - i,
        {
            proof {
                lemma_line_stats_bounds(src@, stride, m, dir as int, i as int, 8, 0);
                lemma_contrast_bounds(src@, stride, m, dir as int, i as int + 1);
            }
            assert(sums@[i as int] == line_stats(src@, stride, m, dir as int, i as int, 8, 0).0
                && counts@[i as int] == line_stats(src@, stride, m, dir as int, i as int, 8, 0).1);
            if counts[i] > 0 {
                let s: i32 = sums[i];
                assert(0 <= s * s <= 16320 * 16320) by (nonlinear_arith) requires -16320 <= s <= 16320;
                var = var + (s * s) as u32;
            }
            i = i + 1;
        }
        if var > best_var {
            best_var = var;
            best_d = dir as u8;
        }
        dir = dir + 1;
    }
    (best_d, best_var)
}

/// One tap of the filter: `weight * constrain(sample - center)` for the neighbour
/// `(row + dy, col + dx)` when it lies in the `width` x `height` block, else 0.
pub open spec fn cdef_tap(src: Seq<u8>, stride: usize, width: usize, height: usize, row: int, col: int, dy: int,
    dx: int, strength: i32, damping: i32, weight: int) -> int {
    let y = row + dy;
    let x = col + dx;
    if 0 <= y < height && 0 <= x < width {
        weight * spec_constrain((src[y * stride + x] - src[row * stride + col]) as i32, strength, damping)
    } else {
        0
    }
}

/// Both taps of `[dy, dx]`, forwards and backwards.
pub open spec fn cdef_pair(src: Seq<u8>, stride: usize, width: usize, height: usize, row: int, col: int, off: [i32; 2],
    strength: i32, damping: i32, weight: int) -> int {
    cdef_tap(src, stride, width, height, row, col, off[0] as int, off[1] as int, strength, damping, weight)
        + cdef_tap(src, stride, width, height, row, col, -off[0], -off[1], strength, damping, weight)
}

/// The filtered pixel `(row, col)`: primary taps along direction `dir % 8` (weights 4
/// then 2) when `pri_strength > 0`, secondary taps along the directions two steps
/// either side (weight 2) when `sec_strength > 0`; the center plus the rounded
/// sum `>> 4`, clipped.
pub open spec fn cdef_px(src: Seq<u8>, stride: usize, dir: u8, pri_strength: i32, sec_strength: i32, damping: i32,
    width: usize, height: usize, row: int, col: int) -> u8 {
    let d = (dir % 8) as int;
    let po = CDEF_DIR_OFFSETS[d];
    let pri = if pri_strength > 0 {
        cdef_pair(src, stride, width, height, row, col, po[0], pri_strength, damping, 4)
            + cdef_pair(src, stride, width, height, row, col, po[1], pri_strength, damping, 2)
    } else { 0 };
    let sec = if sec_strength > 0 {
        cdef_pair(src, stride, width, height, row, col, CDEF_DIR_OFFSETS[(d + 2) % 8][0], sec_strength, damping, 2)
            + cdef_pair(src, stride, width, height, row, col, CDEF_DIR_OFFSETS[(d + 6) % 8][0], sec_strength,
            damping, 2)
    } else { 0 };
    clampi(src[row * stride + col] + (pri + sec + 8) / 16, 0, 255) as u8
}

proof fn lemma_offsets_small()
    ensures forall|d: int, k: int, j: int| 0 <= d < 8 && 0 <= k < 2 && 0 <= j < 2 ==>
        -2 <= #[trigger] CDEF_DIR_OFFSETS[d][k][j] <= 2,
{
}

/// `weight * constrain` of the neighbour at `(row + sign * dy, col + sign * dx)`.
fn tap_value(src: &[u8], stride: usize, width: usize, height: usize, row: usize, col: usize, dy: i32, dx: i32,
    center: i32, strength: i32, damping: i32, weight: i32) -> (v: i32)
    requires
        row < height, col < width, height <= 0x7fff_0000, width <= 0x7fff_0000,
        -2 <= dy <= 2, -2 <= dx <= 2, weight == 2 || weight == 4, strength > 0, constrain_ok(strength, damping),
        (height - 1) * stride + width <= src@.len(), center == src@[row * stride + col],
    ensures
        v == cdef_tap(src@, stride, width, height, row as int, col as int, dy as int, dx as int, strength, damping,
            weight as int),
        -4 * 255 <= v <= 4 * 255,
{
    let y: i32 = row as i32 + dy;
    let x: i32 = col as i32 + dx;
    if y >= 0 && y < height as i32 && x >= 0 && x < width as i32 {
        let yu: usize = y as usize;
        let xu: usize = x as usize;
        let slen: usize = src.len();
        proof {
            assert(yu * stride <= (height - 1) * stride) by (nonlinear_arith) requires yu <= height - 1;
        }
        assert(yu * stride + xu < slen);
        let diff: i32 = src[yu * stride + xu] as i32 - center;
        let c: i32 = constrain(diff, strength, damping);
        assert(-255 <= c <= 255);
        weight * c
    } else {
        0
    }
}

/// One filtered pixel: [`cdef_px`].
fn cdef_pixel(src: &[u8], stride: usize, dir: u8, pri_strength: i32, sec_strength: i32, damping: i32, width: usize,
    height: usize, row: usize, col: usize) -> (p: u8)
    requires
        row < height, col < width, height <= 0x7fff_0000, width <= 0x7fff_0000,
        (height - 1) * stride + width <= src@.len(),
        pri_strength > 0 ==> constrain_ok(pri_strength, damping),
        sec_strength > 0 ==> constrain_ok(sec_strength, damping),
    ensures p == cdef_px(src@, stride, dir, pri_strength, sec_strength, damping, width, height, row as int, col as int),
{
    proof {
        lemma_offsets_small();
        assert(row * stride <= (height - 1) * stride) by (nonlinear_arith) requires row <= height - 1;
    }
    let d: usize = dir as usize % 8;
    let slen: usize = src.len();
    assert(row * stride + col < slen);
    let center: i32 = src[row * stride + col] as i32;
    let mut sum: i32 = 0;
    if pri_strength > 0 {
        let o0: [i32; 2] = CDEF_DIR_OFFSETS[d][0];
        let o1: [i32; 2] = CDEF_DIR_OFFSETS[d][1];
        let a: i32 = tap_value(src, stride, width, height, row, col, o0[0], o0[1], center, pri_strength, damping, 4);
        let b: i32 = tap_value(src, stride, width, height, row, col, -o0[0], -o0[1], center, pri_strength, damping, 4);
        let c: i32 = tap_value(src, stride, width, height, row, col, o1[0], o1[1], center, pri_strength, damping, 2);
        let e: i32 = tap_value(src, stride, width, height, row, col, -o1[0], -o1[1], center, pri_strength, damping, 2);
        sum = a + b + c + e;
    }
    if sec_strength > 0 {
        let s1: [i32; 2] = CDEF_DIR_OFFSETS[(d + 2) % 8][0];
        let s2: [i32; 2] = CDEF_DIR_OFFSETS[(d + 6) % 8][0];
        let a: i32 = tap_value(src, stride, width, height, row, col, s1[0], s1[1], center, sec_strength, damping, 2);
        let b: i32 = tap_value(src, stride, width, height, row, col, -s1[0], -s1[1], center, sec_strength, damping, 2);
        let c: i32 = tap_value(src, stride, width, height, row, col, s2[0], s2[1], center, sec_strength, damping, 2);
        let e: i32 = tap_value(src, stride, width, height, row, col, -s2[0], -s2[1], center, sec_strength, damping, 2);
        sum = sum + a + b + c + e;
    }
    let t: i64 = sum as i64 + 8;
    proof { lemma_i64_shr(t, 4); vstd::arithmetic::power2::lemma2_to64(); }
    let result: i64 = center as i64 + (t >> 4);
    if result < 0 { 0 } else if result > 255 { 255 } else { result as u8 }
}

/// Filter the `width` x `height` block of `src` into `dst`: every pixel is
/// [`cdef_px`].
pub fn cdef_filter_block(src: &[u8], src_stride: usize, dst: &mut [u8], dst_stride: usize, dir: u8,
    pri_strength: i32, sec_strength: i32, damping: i32, width: usize, height: usize)
    requires
        height <= 0x7fff_0000, width <= 0x7fff_0000,
        block_fits(old(dst)@.len(), dst_stride as nat, width as nat, height as nat),
        block_fits(src@.len(), src_stride as nat, width as nat, height as nat),
        pri_strength > 0 ==> constrain_ok(pri_strength, damping),
        sec_strength > 0 ==> constrain_ok(sec_strength, damping),
    ensures
        block_rows_written(final(dst)@, old(dst)@, dst_stride as nat, width as nat, height as nat,
            |r: int, c: int| cdef_px(src@, src_stride, dir, pri_strength, sec_strength, damping, width, height, r, c)),
        width <= dst_stride ==> block_written(final(dst)@, old(dst)@, dst_stride as nat, width as nat, height as nat,
            |r: int, c: int| cdef_px(src@, src_stride, dir, pri_strength, sec_strength, damping, width, height, r, c)),
{
    let ghost val = |r: int, c: int| cdef_px(src@, src_stride, dir, pri_strength, sec_strength, damping, width, height,
        r, c);
    let dlen: usize = dst.len();
    let mut r: usize = 0;
    while r < height
        invariant
            r <= height, dlen == dst@.len(), height <= 0x7fff_0000, width <= 0x7fff_0000,
            block_fits(old(dst)@.len(), dst_stride as nat, width as nat, height as nat),
            block_fits(src@.len(), src_stride as nat, width as nat, height as nat),
            pri_strength > 0 ==> constrain_ok(pri_strength, damping),
            sec_strength > 0 ==> constrain_ok(sec_strength, damping),
            val == (|r: int, c: int| cdef_px(src@, src_stride, dir, pri_strength, sec_strength, damping, width, height,
                r, c)),
            dst@.len() == old(dst)@.len(),
            forall|i: int| 0 <= i < old(dst)@.len() ==>
                #[trigger] dst@[i] == rows_state(old(dst)@, dst_stride as nat, width as nat, val, r as int, i),
        decreases height - r,
    {
        let mut c: usize = 0;
        while c < width
            invariant
                r < height, c <= width, dlen == dst@.len(), height <= 0x7fff_0000,
                width <= 0x7fff_0000,
                block_fits(old(dst)@.len(), dst_stride as nat, width as nat, height as nat),
                block_fits(src@.len(), src_stride as nat, width as nat, height as nat),
                pri_strength > 0 ==> constrain_ok(pri_strength, damping),
                sec_strength > 0 ==> constrain_ok(sec_strength, damping),
                val == (|r: int, c: int| cdef_px(src@, src_stride, dir, pri_strength, sec_strength, damping, width,
                    height, r, c)),
                dst@.len() == old(dst)@.len(),
                forall|i: int| 0 <= i < old(dst)@.len() ==> #[trigger] dst@[i]
                    == row_partial(old(dst)@, dst_stride as nat, width as nat, val, r as int, c as int, i),
            decreases width - c,
        {
            proof {
                let dl = dst@.len();
                assert(r * dst_stride + c < dl) by (nonlinear_arith)
                    requires r < height, c < width, (height - 1) * dst_stride + width <= dl;
            }
            let v: u8 = cdef_pixel(src, src_stride, dir, pri_strength, sec_strength, damping, width, height, r, c);
            let ghost before = dst@;
            dst[r * dst_stride + c] = v;
            proof {
                assert(v == val(r as int, c as int));
                lemma_rows_write(dst@, before, old(dst)@, dst_stride as nat, width as nat, val, r as int, c as int);
            }
            c = c + 1;
        }
        proof { lemma_rows_done(dst@, old(dst)@, dst_stride as nat, width as nat, val, r as int); }
        r = r + 1;
    }
    proof {
        if width <= dst_stride {
            lemma_rows_block(dst@, old(dst)@, dst_stride as nat, width as nat, height as nat, val);
        }
    }
}

/// With both strengths zero the filter is a copy of the block.
pub proof fn lemma_cdef_zero_strength_copies(src: Seq<u8>, stride: usize, dir: u8, damping: i32, width: usize,
    height: usize, row: int, col: int)
    requires 0 <= row < height, 0 <= col < width, 0 <= row * stride + col < src.len(),
    ensures cdef_px(src, stride, dir, 0, 0, damping, width, height, row, col) == src[row * stride + col],
{
}

/// A flat block stays flat: every tap sees a zero difference, so every pixel keeps
/// its value, whatever the direction and strengths.
pub proof fn lemma_cdef_flat_unchanged(src: Seq<u8>, v: u8, stride: usize, dir: u8, pri: i32, sec: i32, damping: i32,
    width: usize, height: usize, row: int, col: int)
    requires
        forall|i: int| 0 <= i < src.len() ==> #[trigger] src[i] == v,
        0 <= row < height, 0 <= col < width, (height - 1) * stride + width <= src.len(),
    ensures cdef_px(src, stride, dir, pri, sec, damping, width, height, row, col) == v,
{
    assert forall|dy: int, dx: int, s: i32, w: int| #[trigger] cdef_tap(src, stride, width, height, row, col, dy, dx, s,
        damping, w) == 0 by {
        let y = row + dy;
        let x = col + dx;
        if 0 <= y < height && 0 <= x < width {
            assert(y * stride <= (height - 1) * stride) by (nonlinear_arith) requires y <= height - 1, stride >= 0;
            assert(y * stride >= 0) by (nonlinear_arith) requires y >= 0, stride >= 0;
            assert(row * stride <= (height - 1) * stride) by (nonlinear_arith) requires row <= height - 1, stride >= 0;
            assert(row * stride >= 0) by (nonlinear_arith) requires row >= 0, stride >= 0;
            assert(src[y * stride + x] == v && src[row * stride + col] == v);
        }
    }
    assert(row * stride <= (height - 1) * stride) by (nonlinear_arith) requires row <= height - 1, stride >= 0;
    assert(row * stride >= 0) by (nonlinear_arith) requires row >= 0, stride >= 0;
}

} // verus!
