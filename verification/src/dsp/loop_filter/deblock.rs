//! Deblocking: 4-, 8- and 14-tap filters across block edges, applied line by line,
//! and the choice of filter size and strength.
use vstd::prelude::*;
use crate::dsp::superres::clampi;
use crate::dsp::fwd_txfm::lemma_i64_shr;

verus! {

/// `|v|`.
pub open spec fn abs_i(v: int) -> int {
    if v >= 0 { v } else { -v }
}

/// A sample clipped to 8 bits.
pub open spec fn px8(v: int) -> u8 {
    clampi(v, 0, 255) as u8
}

/// The 4-tap filter across the edge in front of position `b`, the line running in
/// steps of `step`: `p1, p0 | q0, q1` at `b - 2 step, b - step, b, b + step`. The
/// correction `((q0 - p0) * 4 + p1 - q1 + 4) >> 3`, clamped to `threshold`, moves
/// `p0` up and `q0` down.
pub open spec fn lf4(p: Seq<u8>, b: int, step: int, threshold: int) -> Seq<u8> {
    let p1 = p[b - 2 * step] as int;
    let p0 = p[b - step] as int;
    let q0 = p[b] as int;
    let q1 = p[b + step] as int;
    let d = clampi(((q0 - p0) * 4 + (p1 - q1) + 4) / 8, -threshold, threshold);
    p.update(b - step, px8(p0 + d)).update(b, px8(q0 - d))
}

/// Whether the 8- and 14-tap filters leave the edge alone:
/// `2 |p0 - q0| + |p1 - q1| / 2 > threshold`.
pub open spec fn edge_not_flat(p0: int, p1: int, q0: int, q1: int, threshold: int) -> bool {
    abs_i(p0 - q0) * 2 + abs_i(p1 - q1) / 2 > threshold
}

/// The six new samples `p2..q2` of the 8-tap filter: rounded weighted averages of
/// `p3..q3` (weights summing to 8).
pub open spec fn lf8_taps(p3: int, p2: int, p1: int, p0: int, q0: int, q1: int, q2: int, q3: int) -> Seq<u8> {
    seq![px8((3 * p3 + 2 * p2 + p1 + p0 + q0 + 4) / 8), px8((2 * p3 + p2 + 2 * p1 + p0 + q0 + q1 + 4) / 8),
        px8((p3 + p2 + p1 + 2 * p0 + q0 + q1 + q2 + 4) / 8), px8((p2 + p1 + p0 + 2 * q0 + q1 + q2 + q3 + 4) / 8),
        px8((p1 + p0 + q0 + 2 * q1 + q2 + 2 * q3 + 4) / 8), px8((p0 + q0 + q1 + 2 * q2 + 3 * q3 + 4) / 8)]
}

/// The 8-tap filter across the edge in front of `b` (samples `p3..p0 | q0..q3`,
/// the line running in steps of `step`): unless the edge is not flat, the six
/// samples `p2..q2` become [`lf8_taps`], written in order from `p2` to `q2`.
pub open spec fn lf8(p: Seq<u8>, b: int, step: int, threshold: int) -> Seq<u8> {
    let t = lf8_taps(p[b - 4 * step] as int, p[b - 3 * step] as int, p[b - 2 * step] as int, p[b - step] as int,
        p[b] as int, p[b + step] as int, p[b + 2 * step] as int, p[b + 3 * step] as int);
    if edge_not_flat(p[b - step] as int, p[b - 2 * step] as int, p[b] as int, p[b + step] as int, threshold) {
        p
    } else {
        p.update(b - 3 * step, t[0]).update(b - 2 * step, t[1]).update(b - step, t[2]).update(b, t[3])
            .update(b + step, t[4]).update(b + 2 * step, t[5])
    }
}

/// Rounded mean of thirteen samples.
pub open spec fn avg13(s: int) -> u8 {
    px8((s + 6) / 13)
}

/// The twelve new samples `p5..q5` of the 14-tap filter: rounded means of thirteen,
/// the window sliding across the edge with `p6` and `q6` repeated at the ends.
pub open spec fn lf14_taps(x: Seq<int>) -> Seq<u8> {
    let (p6, p5, p4, p3, p2, p1, p0) = (x[0], x[1], x[2], x[3], x[4], x[5], x[6]);
    let (q0, q1, q2, q3, q4, q5, q6) = (x[7], x[8], x[9], x[10], x[11], x[12], x[13]);
    let inner = p5 + p4 + p3 + p2 + p1 + p0 + q0;
    seq![avg13(6 * p6 + inner), avg13(5 * p6 + inner + q1), avg13(4 * p6 + inner + q1 + q2),
        avg13(3 * p6 + inner + q1 + q2 + q3), avg13(2 * p6 + inner + q1 + q2 + q3 + q4),
        avg13(p6 + inner + q1 + q2 + q3 + q4 + q5), avg13(inner + q1 + q2 + q3 + q4 + q5 + q6),
        avg13(p4 + p3 + p2 + p1 + p0 + q0 + q1 + q2 + q3 + q4 + q5 + 2 * q6),
        avg13(p3 + p2 + p1 + p0 + q0 + q1 + q2 + q3 + q4 + q5 + 3 * q6),
        avg13(p2 + p1 + p0 + q0 + q1 + q2 + q3 + q4 + q5 + 4 * q6),
        avg13(p1 + p0 + q0 + q1 + q2 + q3 + q4 + q5 + 5 * q6),
        avg13(p0 + q0 + q1 + q2 + q3 + q4 + q5 + 6 * q6)]
}

/// The fourteen samples `p6..q6` around the vertical edge in front of `b`.
pub open spec fn window14(p: Seq<u8>, b: int) -> Seq<int> {
    Seq::new(14, |k: int| p[b - 7 + k] as int)
}

/// The 14-tap filter across the vertical edge in front of `b` (samples `p6..p0 |
/// q0..q6` on one row): unless the edge is not flat, the twelve samples `p5..q5`
/// become [`lf14_taps`].
#[verifier::opaque]
pub open spec fn lf14(p: Seq<u8>, b: int, threshold: int) -> Seq<u8> {
    let t = lf14_taps(window14(p, b));
    if edge_not_flat(p[b - 1] as int, p[b - 2] as int, p[b] as int, p[b + 1] as int, threshold) {
        p
    } else {
        p.update(b - 6, t[0]).update(b - 5, t[1]).update(b - 4, t[2]).update(b - 3, t[3]).update(b - 2, t[4])
            .update(b - 1, t[5]).update(b, t[6]).update(b + 1, t[7]).update(b + 2, t[8]).update(b + 3, t[9])
            .update(b + 4, t[10]).update(b + 5, t[11])
    }
}

/// Rows `r..height` of a vertical edge at `edge_col` through the 4-tap filter.
pub open spec fn vert4_rows(p: Seq<u8>, stride: usize, threshold: int, edge_col: usize, height: usize, r: int)
    -> Seq<u8>
    decreases height - r,
{
    if r >= height { p } else {
        vert4_rows(lf4(p, r * stride + edge_col, 1, threshold), stride, threshold, edge_col, height, r + 1)
    }
}

/// Columns `c..width` of a horizontal edge at `edge_row` through the 4-tap filter.
pub open spec fn horz4_cols(p: Seq<u8>, stride: usize, threshold: int, edge_row: usize, width: usize, c: int)
    -> Seq<u8>
    decreases width - c,
{
    if c >= width { p } else {
        horz4_cols(lf4(p, edge_row * stride + c, stride as int, threshold), stride, threshold, edge_row, width, c + 1)
    }
}

/// Rows `r..height` of a vertical edge through the 8-tap filter, stopping at the first
/// row whose window reaches past the buffer.
pub open spec fn vert8_rows(p: Seq<u8>, stride: usize, threshold: int, edge_col: usize, height: usize, r: int)
    -> Seq<u8>
    decreases height - r,
{
    if r >= height || r * stride + edge_col + 4 > p.len() { p } else {
        vert8_rows(lf8(p, r * stride + edge_col, 1, threshold), stride, threshold, edge_col, height, r + 1)
    }
}

/// Columns `c..width` of a horizontal edge through the 8-tap filter, stopping at the
/// first column whose window reaches the end of the buffer.
pub open spec fn horz8_cols(p: Seq<u8>, stride: usize, threshold: int, edge_row: usize, width: usize, c: int)
    -> Seq<u8>
    decreases width - c,
{
    if c >= width || (edge_row + 3) * stride + c >= p.len() { p } else {
        horz8_cols(lf8(p, edge_row * stride + c, stride as int, threshold), stride, threshold, edge_row, width, c + 1)
    }
}

/// Rows `r..height` of a vertical edge through the 14-tap filter, stopping at the
/// first row whose window reaches past the buffer.
pub open spec fn vert14_rows(p: Seq<u8>, stride: usize, threshold: int, edge_col: usize, height: usize, r: int)
    -> Seq<u8>
    decreases height - r,
{
    if r >= height || r * stride + edge_col + 7 > p.len() { p } else {
        vert14_rows(lf14(p, r * stride + edge_col, threshold), stride, threshold, edge_col, height, r + 1)
    }
}

fn clip8(v: i64) -> (r: u8)
    ensures r == px8(v as int),
{
    if v < 0 { 0 } else if v > 255 { 255 } else { v as u8 }
}

/// The 4-tap filter at `b`: [`lf4`].
fn filter4_at(pixels: &mut [u8], b: usize, step: usize, threshold: i32)
    requires b >= 2 * step, b + step < old(pixels)@.len(), threshold >= 0,
    ensures final(pixels)@ == lf4(old(pixels)@, b as int, step as int, threshold as int),
{
    let p1: i64 = pixels[b - 2 * step] as i64;
    let p0: i64 = pixels[b - step] as i64;
    let q0: i64 = pixels[b] as i64;
    let q1: i64 = pixels[b + step] as i64;
    let t: i64 = (q0 - p0) * 4 + (p1 - q1) + 4;
    proof { lemma_i64_shr(t, 3); vstd::arithmetic::power2::lemma2_to64(); }
    let raw: i64 = t >> 3;
    let th: i64 = threshold as i64;
    let delta: i64 = if raw < -th { -th } else if raw > th { th } else { raw };
    pixels[b - step] = clip8(p0 + delta);
    pixels[b] = clip8(q0 - delta);
}

/// Apply the 4-tap filter to the vertical edge between columns `edge_col - 1` and
/// `edge_col` of the first `height` rows; nothing when `strength` is 0.
pub fn deblock_vert(pixels: &mut [u8], stride: usize, strength: i32, threshold: i32, edge_col: usize, height: usize)
    requires
        strength != 0 && height > 0 ==> edge_col >= 2 && threshold >= 0
            && (height - 1) * stride + edge_col + 1 < old(pixels)@.len(),
    ensures
        final(pixels)@ == if strength == 0 { old(pixels)@ } else {
            vert4_rows(old(pixels)@, stride, threshold as int, edge_col, height, 0) },
{
    if strength == 0 {
        return;
    }
    let len: usize = pixels.len();
    let mut row: usize = 0;
    while row < height
        invariant
            len == pixels@.len(),
            row <= height, edge_col >= 2 || height == 0, threshold >= 0 || height == 0,
            height > 0 ==> (height - 1) * stride + edge_col + 1 < old(pixels)@.len(),
            pixels@.len() == old(pixels)@.len(),
            vert4_rows(pixels@, stride, threshold as int, edge_col, height, row as int)
                == vert4_rows(old(pixels)@, stride, threshold as int, edge_col, height, 0),
        decreases height - row,
    {
        assert(row * stride <= (height - 1) * stride) by (nonlinear_arith) requires row < height;
        let base: usize = row * stride;
        filter4_at(pixels, base + edge_col, 1, threshold);
        row = row + 1;
    }
}

/// Apply the 4-tap filter to the horizontal edge between rows `edge_row - 1` and
/// `edge_row` of the first `width` columns; nothing when `strength` is 0.
pub fn deblock_horz(pixels: &mut [u8], stride: usize, strength: i32, threshold: i32, edge_row: usize, width: usize)
    requires
        strength != 0 && width > 0 ==> edge_row >= 2 && threshold >= 0
            && (edge_row + 1) * stride + width - 1 < old(pixels)@.len(),
    ensures
        final(pixels)@ == if strength == 0 { old(pixels)@ } else {
            horz4_cols(old(pixels)@, stride, threshold as int, edge_row, width, 0) },
{
    if strength == 0 {
        return;
    }
    let len: usize = pixels.len();
    let mut col: usize = 0;
    while col < width
        invariant
            len == pixels@.len(),
            col <= width, edge_row >= 2 || width == 0, threshold >= 0 || width == 0,
            width > 0 ==> (edge_row + 1) * stride + width - 1 < old(pixels)@.len(),
            pixels@.len() == old(pixels)@.len(),
            horz4_cols(pixels@, stride, threshold as int, edge_row, width, col as int)
                == horz4_cols(old(pixels)@, stride, threshold as int, edge_row, width, 0),
        decreases width - col,
    {
        proof {
            assert((edge_row + 1) * stride == edge_row * stride + stride) by (nonlinear_arith);
            assert(edge_row * stride >= 2 * stride) by (nonlinear_arith) requires edge_row >= 2;
        }
        filter4_at(pixels, edge_row * stride + col, stride, threshold);
        col = col + 1;
    }
}

/// `px8(s / d)` of a non-negative sum.
fn rounded_avg(s: i64, d: i64) -> (r: u8)
    requires 0 <= s <= 0x10000, d == 8 || d == 13,
    ensures r == px8(s as int / d as int),
{
    clip8(s / d)
}

/// [`lf8_taps`] of eight samples.
fn lf8_values(p3: i64, p2: i64, p1: i64, p0: i64, q0: i64, q1: i64, q2: i64, q3: i64) -> (r: (u8, u8, u8, u8, u8, u8))
    requires
        0 <= p3 <= 255, 0 <= p2 <= 255, 0 <= p1 <= 255, 0 <= p0 <= 255,
        0 <= q0 <= 255, 0 <= q1 <= 255, 0 <= q2 <= 255, 0 <= q3 <= 255,
    ensures
        ({ let t = lf8_taps(p3 as int, p2 as int, p1 as int, p0 as int, q0 as int, q1 as int, q2 as int, q3 as int);
            r.0 == t[0] && r.1 == t[1] && r.2 == t[2] && r.3 == t[3] && r.4 == t[4] && r.5 == t[5] }),
{
    let n0: u8 = rounded_avg(3 * p3 + 2 * p2 + p1 + p0 + q0 + 4, 8);
    let n1: u8 = rounded_avg(2 * p3 + p2 + 2 * p1 + p0 + q0 + q1 + 4, 8);
    let n2: u8 = rounded_avg(p3 + p2 + p1 + 2 * p0 + q0 + q1 + q2 + 4, 8);
    let n3: u8 = rounded_avg(p2 + p1 + p0 + 2 * q0 + q1 + q2 + q3 + 4, 8);
    let n4: u8 = rounded_avg(p1 + p0 + q0 + 2 * q1 + q2 + 2 * q3 + 4, 8);
    let n5: u8 = rounded_avg(p0 + q0 + q1 + 2 * q2 + 3 * q3 + 4, 8);
    (n0, n1, n2, n3, n4, n5)
}

/// The 8-tap filter at `b`: [`lf8`].
fn filter8_at(pixels: &mut [u8], b: usize, step: usize, threshold: i32)
    requires b >= 4 * step, b + 3 * step < old(pixels)@.len(),
    ensures final(pixels)@ == lf8(old(pixels)@, b as int, step as int, threshold as int),
{
    let p3: i64 = pixels[b - 4 * step] as i64;
    let p2: i64 = pixels[b - 3 * step] as i64;
    let p1: i64 = pixels[b - 2 * step] as i64;
    let p0: i64 = pixels[b - step] as i64;
    let q0: i64 = pixels[b] as i64;
    let q1: i64 = pixels[b + step] as i64;
    let q2: i64 = pixels[b + 2 * step] as i64;
    let q3: i64 = pixels[b + 3 * step] as i64;
    let d0: i64 = if p0 >= q0 { p0 - q0 } else { q0 - p0 };
    let d1: i64 = if p1 >= q1 { p1 - q1 } else { q1 - p1 };
    if d0 * 2 + d1 / 2 > threshold as i64 {
        return;
    }
    let (n0, n1, n2, n3, n4, n5) = lf8_values(p3, p2, p1, p0, q0, q1, q2, q3);
    pixels[b - 3 * step] = n0;
    pixels[b - 2 * step] = n1;
    pixels[b - step] = n2;
    pixels[b] = n3;
    pixels[b + step] = n4;
    pixels[b + 2 * step] = n5;
}

/// Apply the 8-tap filter to the vertical edge at `edge_col` row by row, skipping rows
/// where the edge is not flat and stopping at the first row that leaves the buffer;
/// nothing when `strength` is 0 or `edge_col < 4`.
pub fn deblock_vert_wide(pixels: &mut [u8], stride: usize, strength: i32, threshold: i32, edge_col: usize,
    height: usize)
    requires
        height > 0 ==> (height - 1) * stride + edge_col + 4 <= usize::MAX,
    ensures
        final(pixels)@ == if strength == 0 || edge_col < 4 { old(pixels)@ } else {
            vert8_rows(old(pixels)@, stride, threshold as int, edge_col, height, 0) },
{
    if strength == 0 || edge_col < 4 {
        return;
    }
    let len: usize = pixels.len();
    let mut row: usize = 0;
    while row < height
        invariant
            row <= height, edge_col >= 4, len == pixels@.len(), pixels@.len() == old(pixels)@.len(),
            height > 0 ==> (height - 1) * stride + edge_col + 4 <= usize::MAX,
            vert8_rows(pixels@, stride, threshold as int, edge_col, height, row as int)
                == vert8_rows(old(pixels)@, stride, threshold as int, edge_col, height, 0),
        ensures
            pixels@ == vert8_rows(old(pixels)@, stride, threshold as int, edge_col, height, 0),
        decreases height - row,
    {
        assert(row * stride <= (height - 1) * stride) by (nonlinear_arith) requires row < height;
        let base: usize = row * stride;
        if base + edge_col + 4 > len {
            break;
        }
        filter8_at(pixels, base + edge_col, 1, threshold);
        row = row + 1;
    }
}

/// Apply the 8-tap filter to the horizontal edge at `edge_row` column by column,
/// skipping columns where the edge is not flat and stopping at the first column whose
/// window reaches the end of the buffer; nothing when `strength` is 0 or `edge_row < 4`.
pub fn deblock_horz_wide(pixels: &mut [u8], stride: usize, strength: i32, threshold: i32, edge_row: usize,
    width: usize)
    requires
        width > 0 && edge_row >= 4 ==> edge_row + 3 <= usize::MAX && (edge_row + 3) * stride + width <= usize::MAX,
    ensures
        final(pixels)@ == if strength == 0 || edge_row < 4 { old(pixels)@ } else {
            horz8_cols(old(pixels)@, stride, threshold as int, edge_row, width, 0) },
{
    if strength == 0 || edge_row < 4 {
        return;
    }
    let len: usize = pixels.len();
    let mut col: usize = 0;
    while col < width
        invariant
            col <= width, edge_row >= 4, len == pixels@.len(), pixels@.len() == old(pixels)@.len(),
            width > 0 ==> edge_row + 3 <= usize::MAX && (edge_row + 3) * stride + width <= usize::MAX,
            horz8_cols(pixels@, stride, threshold as int, edge_row, width, col as int)
                == horz8_cols(old(pixels)@, stride, threshold as int, edge_row, width, 0),
        ensures
            pixels@ == horz8_cols(old(pixels)@, stride, threshold as int, edge_row, width, 0),
        decreases width - col,
    {
        proof {
            assert((edge_row + 3) * stride == edge_row * stride + 3 * stride) by (nonlinear_arith);
            assert(edge_row * stride >= 4 * stride) by (nonlinear_arith) requires edge_row >= 4;
        }
        if (edge_row + 3) * stride + col >= len {
            break;
        }
        filter8_at(pixels, edge_row * stride + col, stride, threshold);
        col = col + 1;
    }
}

/// [`lf14_taps`] of the fourteen samples read into `x`.
#[verifier::rlimit(40)]
fn lf14_values(x: &Vec<i64>) -> (r: Vec<u8>)
    requires x@.len() == 14, forall|k: int| 0 <= k < 14 ==> 0 <= #[trigger] x@[k] <= 255,
    ensures r@ == lf14_taps(x@.map_values(|v: i64| v as int)),
{
    let (p6, p5, p4, p3, p2, p1, p0) = (x[0], x[1], x[2], x[3], x[4], x[5], x[6]);
    let (q0, q1, q2, q3, q4, q5, q6) = (x[7], x[8], x[9], x[10], x[11], x[12], x[13]);
    let inner: i64 = p5 + p4 + p3 + p2 + p1 + p0 + q0;
    let mut r: Vec<u8> = Vec::new();
    r.push(rounded_avg(6 * p6 + inner + 6, 13));
    r.push(rounded_avg(5 * p6 + inner + q1 + 6, 13));
    r.push(rounded_avg(4 * p6 + inner + q1 + q2 + 6, 13));
    r.push(rounded_avg(3 * p6 + inner + q1 + q2 + q3 + 6, 13));
    r.push(rounded_avg(2 * p6 + inner + q1 + q2 + q3 + q4 + 6, 13));
    r.push(rounded_avg(p6 + inner + q1 + q2 + q3 + q4 + q5 + 6, 13));
    r.push(rounded_avg(inner + q1 + q2 + q3 + q4 + q5 + q6 + 6, 13));
    r.push(rounded_avg(p4 + p3 + p2 + p1 + p0 + q0 + q1 + q2 + q3 + q4 + q5 + 2 * q6 + 6, 13));
    r.push(rounded_avg(p3 + p2 + p1 + p0 + q0 + q1 + q2 + q3 + q4 + q5 + 3 * q6 + 6, 13));
    r.push(rounded_avg(p2 + p1 + p0 + q0 + q1 + q2 + q3 + q4 + q5 + 4 * q6 + 6, 13));
    r.push(rounded_avg(p1 + p0 + q0 + q1 + q2 + q3 + q4 + q5 + 5 * q6 + 6, 13));
    r.push(rounded_avg(p0 + q0 + q1 + q2 + q3 + q4 + q5 + 6 * q6 + 6, 13));
    assert(r@ =~= lf14_taps(x@.map_values(|v: i64| v as int)));
    r
}

/// The 14-tap filter at `b`: [`lf14`].
#[verifier::rlimit(40)]
fn filter14_at(pixels: &mut [u8], b: usize, threshold: i32)
    requires b >= 7, b + 6 < old(pixels)@.len(),
    ensures
        final(pixels)@ == lf14(old(pixels)@, b as int, threshold as int),
        final(pixels)@.len() == old(pixels)@.len(),
{
    let len: usize = pixels.len();
    let mut x: Vec<i64> = Vec::new();
    let mut k: usize = 0;
    while k < 14
        invariant
            k <= 14, b >= 7, b + 6 < pixels@.len(), x@.len() == k, len == pixels@.len(),
            forall|j: int| 0 <= j < k ==> #[trigger] x@[j] == pixels@[b - 7 + j] as int,
        decreases 14 - k,
    {
        x.push(pixels[b - 7 + k] as i64);
        k = k + 1;
    }
    let ghost o = pixels@;
    assert(x@.map_values(|v: i64| v as int) =~= window14(o, b as int));
    let p1: i64 = x[5];
    let p0: i64 = x[6];
    let q0: i64 = x[7];
    let q1: i64 = x[8];
    let d0: i64 = if p0 >= q0 { p0 - q0 } else { q0 - p0 };
    let d1: i64 = if p1 >= q1 { p1 - q1 } else { q1 - p1 };
    if d0 * 2 + d1 / 2 > threshold as i64 {
        proof { reveal(lf14); }
        return;
    }
    let t: Vec<u8> = lf14_values(&x);
    let mut j: usize = 0;
    while j < 12
        invariant
            j <= 12, b >= 7, b + 6 < o.len(), t@.len() == 12, pixels@.len() == o.len(), len == o.len(),
            forall|i: int| 0 <= i < o.len() && !(b - 6 <= i < b - 6 + j) ==> #[trigger] pixels@[i] == o[i],
            forall|i: int| 0 <= i < j ==> #[trigger] pixels@[b - 6 + i] == t@[i],
        decreases 12 - j,
    {
        pixels[b - 6 + j] = t[j];
        j = j + 1;
    }
    proof {
        reveal(lf14);
        let tt = lf14_taps(window14(o, b as int));
        assert(t@ == tt);
        let chain = o.update(b - 6, tt[0]).update(b - 5, tt[1]).update(b - 4, tt[2]).update(b - 3, tt[3])
            .update(b - 2, tt[4]).update(b - 1, tt[5]).update(b as int, tt[6]).update(b + 1, tt[7])
            .update(b + 2, tt[8]).update(b + 3, tt[9]).update(b + 4, tt[10]).update(b + 5, tt[11]);
        assert(pixels@ =~= chain) by {
            assert forall|i: int| 0 <= i < o.len() implies pixels@[i] == chain[i] by {
                if b - 6 <= i < b + 6 {
                    assert(pixels@[b - 6 + (i - (b - 6))] == t@[i - (b - 6)]);
                }
            }
        }
    }
}

/// Apply the 14-tap filter to the vertical edge at `edge_col` row by row, skipping
/// rows where the edge is not flat and stopping at the first row that leaves the
/// buffer; nothing when `strength` is 0 or `edge_col < 7`.
pub fn deblock_vert_14tap(pixels: &mut [u8], stride: usize, strength: i32, threshold: i32, edge_col: usize,
    height: usize)
    requires
        height > 0 ==> (height - 1) * stride + edge_col + 7 <= usize::MAX,
    ensures
        final(pixels)@ == if strength == 0 || edge_col < 7 { old(pixels)@ } else {
            vert14_rows(old(pixels)@, stride, threshold as int, edge_col, height, 0) },
{
    if strength == 0 || edge_col < 7 {
        return;
    }
    let len: usize = pixels.len();
    let mut row: usize = 0;
    while row < height
        invariant
            row <= height, edge_col >= 7, len == pixels@.len(), pixels@.len() == old(pixels)@.len(),
            height > 0 ==> (height - 1) * stride + edge_col + 7 <= usize::MAX,
            vert14_rows(pixels@, stride, threshold as int, edge_col, height, row as int)
                == vert14_rows(old(pixels)@, stride, threshold as int, edge_col, height, 0),
        ensures
            pixels@ == vert14_rows(old(pixels)@, stride, threshold as int, edge_col, height, 0),
        decreases height - row,
    {
        assert(row * stride <= (height - 1) * stride) by (nonlinear_arith) requires row < height;
        let base: usize = row * stride;
        if base + edge_col + 7 > len {
            break;
        }
        filter14_at(pixels, base + edge_col, threshold);
        row = row + 1;
    }
}

/// Deblocking level of a quantizer: the quantizer up to 15, then rising by two per
/// step to 47 at 31, then by one to 79 at 63; 63 above. The threshold is
/// `min(2 * level + 4, 127)`.
pub open spec fn spec_deblock_level(qp: u8) -> int {
    if qp <= 15 { qp as int } else if qp <= 31 { 15 + (qp - 15) * 2 } else if qp <= 63 { 47 + (qp - 31) } else { 63 }
}

/// Filter level and threshold for a quantizer (see [`spec_deblock_level`]).
pub fn derive_deblock_strength(qp: u8) -> (r: (i32, i32))
    ensures
        r.0 == spec_deblock_level(qp),
        r.1 == (if 2 * spec_deblock_level(qp) + 4 < 127 { 2 * spec_deblock_level(qp) + 4 } else { 127 }),
{
    let level: i32 = if qp <= 15 {
        qp as i32
    } else if qp <= 31 {
        15 + (qp as i32 - 15) * 2
    } else if qp <= 63 {
        47 + (qp as i32 - 31)
    } else {
        63
    };
    let t: i32 = level * 2 + 4;
    let threshold: i32 = if t < 127 { t } else { 127 };
    (level, threshold)
}

/// Filter size for an edge: 14 taps on superblock edges from quantizer 20, else 8 on
/// superblock edges or from quantizer 10, else 4.
pub fn select_deblock_filter_size(is_sb_boundary: bool, qp: u8) -> (r: u8)
    ensures r == (if is_sb_boundary && qp >= 20 { 14u8 } else if is_sb_boundary || qp >= 10 { 8u8 } else { 4u8 }),
{
    if is_sb_boundary && qp >= 20 {
        14
    } else if is_sb_boundary || qp >= 10 {
        8
    } else {
        4
    }
}

/// Every sample of `p` is `v`.
pub open spec fn all_equal(p: Seq<u8>, v: u8) -> bool {
    forall|i: int| 0 <= i < p.len() ==> #[trigger] p[i] == v
}

/// Deblocking law: on a flat picture (every sample the same) every filter changes
/// nothing, whatever the edge, strength and (non-negative) threshold, on every edge
/// the filters accept.
pub proof fn lemma_deblock_flat_unchanged(p: Seq<u8>, v: u8, stride: usize, threshold: int, edge: usize, n: usize)
    requires all_equal(p, v), threshold >= 0,
    ensures
        n > 0 ==> edge >= 2 && (n - 1) * stride + edge + 1 < p.len() ==> vert4_rows(p, stride, threshold, edge, n, 0) == p,
        n > 0 ==> edge >= 2 && (edge + 1) * stride + n - 1 < p.len() ==> horz4_cols(p, stride, threshold, edge, n, 0) == p,
        edge >= 4 ==> vert8_rows(p, stride, threshold, edge, n, 0) == p,
        edge >= 4 ==> horz8_cols(p, stride, threshold, edge, n, 0) == p,
        edge >= 7 ==> vert14_rows(p, stride, threshold, edge, n, 0) == p,
{
    if n > 0 && edge >= 2 && (n - 1) * stride + edge + 1 < p.len() {
        lemma_flat_vert4(p, v, stride, threshold, edge, n, 0);
    }
    if n > 0 && edge >= 2 && (edge + 1) * stride + n - 1 < p.len() {
        lemma_flat_horz4(p, v, stride, threshold, edge, n, 0);
    }
    if edge >= 4 {
        lemma_flat_vert8(p, v, stride, threshold, edge, n, 0);
        lemma_flat_horz8(p, v, stride, threshold, edge, n, 0);
    }
    if edge >= 7 {
        lemma_flat_vert14(p, v, stride, threshold, edge, n, 0);
    }
}

proof fn lemma_lf4_flat(p: Seq<u8>, v: u8, b: int, step: int, threshold: int)
    requires all_equal(p, v), threshold >= 0, step >= 0, b - 2 * step >= 0, b + step < p.len(),
    ensures lf4(p, b, step, threshold) == p,
{
    assert(((v - v) * 4 + (v - v) + 4) / 8 == 0);
    assert(lf4(p, b, step, threshold) =~= p);
}

proof fn lemma_lf8_flat(p: Seq<u8>, v: u8, b: int, step: int, threshold: int)
    requires all_equal(p, v), step >= 0, b - 4 * step >= 0, b + 3 * step < p.len(),
    ensures lf8(p, b, step, threshold) == p,
{
    let x = v as int;
    assert((8 * x + 4) / 8 == x);
    assert(lf8(p, b, step, threshold) =~= p);
}

proof fn lemma_lf14_flat(p: Seq<u8>, v: u8, b: int, threshold: int)
    requires all_equal(p, v), b >= 7, b + 6 < p.len(),
    ensures lf14(p, b, threshold) == p,
{
    reveal(lf14);
    let x = v as int;
    assert((13 * x + 6) / 13 == x);
    assert(lf14(p, b, threshold) =~= p);
}

proof fn lemma_flat_vert4(p: Seq<u8>, v: u8, stride: usize, threshold: int, edge: usize, n: usize, k: int)
    requires all_equal(p, v), threshold >= 0, k >= 0, edge >= 2, n > 0, (n - 1) * stride + edge + 1 < p.len(),
    ensures vert4_rows(p, stride, threshold, edge, n, k) == p,
    decreases n - k,
{
    if k < n {
        assert(k * stride <= (n - 1) * stride) by (nonlinear_arith) requires k < n, stride >= 0;
        assert(k * stride >= 0) by (nonlinear_arith) requires k >= 0, stride >= 0;
        lemma_lf4_flat(p, v, k * stride + edge, 1, threshold);
        lemma_flat_vert4(p, v, stride, threshold, edge, n, k + 1);
    }
}

proof fn lemma_flat_horz4(p: Seq<u8>, v: u8, stride: usize, threshold: int, edge: usize, n: usize, k: int)
    requires all_equal(p, v), threshold >= 0, k >= 0, edge >= 2, n > 0, (edge + 1) * stride + n - 1 < p.len(),
    ensures horz4_cols(p, stride, threshold, edge, n, k) == p,
    decreases n - k,
{
    if k < n {
        assert((edge + 1) * stride == edge * stride + stride) by (nonlinear_arith);
        assert(edge * stride >= 2 * stride) by (nonlinear_arith) requires edge >= 2, stride >= 0;
        lemma_lf4_flat(p, v, edge * stride + k, stride as int, threshold);
        lemma_flat_horz4(p, v, stride, threshold, edge, n, k + 1);
    }
}

proof fn lemma_flat_vert8(p: Seq<u8>, v: u8, stride: usize, threshold: int, edge: usize, n: usize, k: int)
    requires all_equal(p, v), k >= 0, edge >= 4,
    ensures vert8_rows(p, stride, threshold, edge, n, k) == p,
    decreases n - k,
{
    if k < n && k * stride + edge + 4 <= p.len() {
        assert(k * stride >= 0) by (nonlinear_arith) requires k >= 0, stride >= 0;
        lemma_lf8_flat(p, v, k * stride + edge, 1, threshold);
        lemma_flat_vert8(p, v, stride, threshold, edge, n, k + 1);
    }
}

proof fn lemma_flat_horz8(p: Seq<u8>, v: u8, stride: usize, threshold: int, edge: usize, n: usize, k: int)
    requires all_equal(p, v), k >= 0, edge >= 4,
    ensures horz8_cols(p, stride, threshold, edge, n, k) == p,
    decreases n - k,
{
    if k < n && (edge + 3) * stride + k < p.len() {
        assert((edge + 3) * stride == edge * stride + 3 * stride) by (nonlinear_arith);
        assert(edge * stride >= 4 * stride) by (nonlinear_arith) requires edge >= 4, stride >= 0;
        lemma_lf8_flat(p, v, edge * stride + k, stride as int, threshold);
        lemma_flat_horz8(p, v, stride, threshold, edge, n, k + 1);
    }
}

proof fn lemma_flat_vert14(p: Seq<u8>, v: u8, stride: usize, threshold: int, edge: usize, n: usize, k: int)
    requires all_equal(p, v), k >= 0, edge >= 7,
    ensures vert14_rows(p, stride, threshold, edge, n, k) == p,
    decreases n - k,
{
    if k < n && k * stride + edge + 7 <= p.len() {
        assert(k * stride >= 0) by (nonlinear_arith) requires k >= 0, stride >= 0;
        lemma_lf14_flat(p, v, k * stride + edge, threshold);
        lemma_flat_vert14(p, v, stride, threshold, edge, n, k + 1);
    }
}

} // verus!
