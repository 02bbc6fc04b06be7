//! Block variance and sum of squared errors.
use vstd::prelude::*;
use crate::dsp::sad::lemma_row_offset;

verus! {

/// Sum of a sequence.
pub open spec fn seq_sum(s: Seq<int>) -> int
    decreases s.len(),
{
    if s.len() == 0 { 0 } else { seq_sum(s.drop_last()) + s.last() }
}

/// Sum of the squares of a sequence.
pub open spec fn seq_sum_sq(s: Seq<int>) -> int
    decreases s.len(),
{
    if s.len() == 0 { 0 } else { seq_sum_sq(s.drop_last()) + s.last() * s.last() }
}

/// The `w` samples of the row at `start`.
pub open spec fn row_samples(src: Seq<u8>, start: int, w: int) -> Seq<int> {
    Seq::new(w as nat, |c: int| src[start + c] as int)
}

/// The samples of the first `h` rows of a `w`-wide block, row by row.
pub open spec fn block_samples(src: Seq<u8>, stride: usize, w: int, h: int) -> Seq<int>
    decreases h,
{
    if h <= 0 { Seq::empty() } else { block_samples(src, stride, w, h - 1) + row_samples(src, (h - 1) * stride, w) }
}

/// `n * sum(x^2) - sum(x)^2` of the block (n times the variance), and the mean rounded down.
pub open spec fn block_variance(src: Seq<u8>, stride: usize, w: int, h: int) -> (int, int) {
    let s = block_samples(src, stride, w, h);
    (s.len() * seq_sum_sq(s) - seq_sum(s) * seq_sum(s), seq_sum(s) / (s.len() as int))
}

proof fn lemma_sums_push(s: Seq<int>, v: int)
    ensures seq_sum(s.push(v)) == seq_sum(s) + v, seq_sum_sq(s.push(v)) == seq_sum_sq(s) + v * v,
{
    assert(s.push(v).drop_last() =~= s);
}

proof fn lemma_sums_bounds(s: Seq<int>)
    requires forall|i: int| 0 <= i < s.len() ==> 0 <= #[trigger] s[i] <= 255,
    ensures 0 <= seq_sum(s) <= 255 * s.len(), 0 <= seq_sum_sq(s) <= 65025 * s.len(),
    decreases s.len(),
{
    if s.len() > 0 {
        lemma_sums_bounds(s.drop_last());
        let v = s.last();
        assert(0 <= v * v <= 65025) by (nonlinear_arith) requires 0 <= v <= 255;
    }
}

/// For every `x`: `sum((s_i - x)^2) >= 0`, written out.
proof fn lemma_spread_nonneg(s: Seq<int>, x: int)
    ensures seq_sum_sq(s) - 2 * x * seq_sum(s) + s.len() * x * x >= 0,
    decreases s.len(),
{
    if s.len() > 0 {
        let t = s.drop_last();
        let v = s.last();
        lemma_spread_nonneg(t, x);
        assert(v * v - 2 * x * v + x * x >= 0) by (nonlinear_arith) {
            assert(v * v - 2 * x * v + x * x == (v - x) * (v - x));
        }
        assert(seq_sum_sq(s) - 2 * x * seq_sum(s) + s.len() * x * x
            == (seq_sum_sq(t) - 2 * x * seq_sum(t) + t.len() * x * x) + (v * v - 2 * x * v + x * x))
            by (nonlinear_arith)
            requires seq_sum_sq(s) == seq_sum_sq(t) + v * v, seq_sum(s) == seq_sum(t) + v, s.len() == t.len() + 1;
    }
}

/// The variance law: `n * sum(x^2) >= sum(x)^2` for every sequence of `n` samples,
/// so the block variance is never negative.
pub proof fn lemma_variance_nonneg(s: Seq<int>)
    ensures s.len() * seq_sum_sq(s) - seq_sum(s) * seq_sum(s) >= 0,
    decreases s.len(),
{
    if s.len() > 0 {
        let t = s.drop_last();
        let v = s.last();
        lemma_variance_nonneg(t);
        lemma_spread_nonneg(t, v);
        let (n, a, b) = (t.len() as int, seq_sum(t), seq_sum_sq(t));
        assert((n + 1) * (b + v * v) - (a + v) * (a + v) == (n * b - a * a) + (b - 2 * v * a + n * v * v))
            by (nonlinear_arith);
    }
}

/// A block whose samples are all equal has variance zero.
pub proof fn lemma_uniform_variance_zero(s: Seq<int>, v: int)
    requires forall|i: int| 0 <= i < s.len() ==> #[trigger] s[i] == v,
    ensures seq_sum(s) == s.len() * v, seq_sum_sq(s) == s.len() * v * v,
        s.len() * seq_sum_sq(s) - seq_sum(s) * seq_sum(s) == 0,
    decreases s.len(),
{
    if s.len() > 0 {
        let t = s.drop_last();
        lemma_uniform_variance_zero(t, v);
        assert(seq_sum(s) == s.len() * v) by (nonlinear_arith)
            requires seq_sum(s) == seq_sum(t) + v, seq_sum(t) == t.len() * v, s.len() == t.len() + 1;
        assert(seq_sum_sq(s) == s.len() * v * v) by (nonlinear_arith)
            requires seq_sum_sq(s) == seq_sum_sq(t) + v * v, seq_sum_sq(t) == t.len() * v * v, s.len() == t.len() + 1;
    }
    assert(s.len() * (s.len() * v * v) - (s.len() * v) * (s.len() * v) == 0) by (nonlinear_arith);
}

proof fn lemma_block_samples_len(src: Seq<u8>, stride: usize, w: int, h: int)
    requires w >= 0, h >= 0,
    ensures block_samples(src, stride, w, h).len() == w * h,
        forall|i: int| 0 <= i < w * h ==> 0 <= #[trigger] block_samples(src, stride, w, h)[i] <= 255,
    decreases h,
{
    if h > 0 {
        lemma_block_samples_len(src, stride, w, h - 1);
        assert(w * (h - 1) + w == w * h) by (nonlinear_arith);
        let a = block_samples(src, stride, w, h - 1);
        let b = row_samples(src, (h - 1) * stride, w);
        assert forall|i: int| 0 <= i < w * h implies 0 <= #[trigger] block_samples(src, stride, w, h)[i] <= 255 by {
            if i < a.len() { assert((a + b)[i] == a[i]); } else { assert((a + b)[i] == b[i - a.len()]); }
        }
    } else {
        assert(w * h == 0) by (nonlinear_arith) requires h == 0;
    }
}

/// Variance of the `width` x `height` block: `n * sum(x^2) - sum(x)^2` (n times the
/// variance) and the mean rounded down, as [`block_variance`] says.
pub fn variance(src: &[u8], src_stride: usize, width: usize, height: usize) -> (r: (u64, u32))
    requires
        width * height > 0, width * height <= usize::MAX,
        (height - 1) * src_stride + width <= src@.len(),
        width * height * width * height * 65025 <= u64::MAX,
    ensures
        r.0 == block_variance(src@, src_stride, width as int, height as int).0,
        r.1 == block_variance(src@, src_stride, width as int, height as int).1,
{
    let slen: usize = src.len();
    let ghost mut seen: Seq<int> = Seq::empty();
    let mut sum: u64 = 0;
    let mut sum_sq: u64 = 0;
    let mut row: usize = 0;
    proof {
        assert(width * height <= width * height * width * height) by (nonlinear_arith) requires width * height > 0;
        assert(width > 0 && height > 0) by (nonlinear_arith) requires width * height > 0, width >= 0, height >= 0;
    }
    while row < height
        invariant
            row <= height, slen == src@.len(), width > 0, height > 0,
            (height - 1) * src_stride + width <= src@.len(),
            width * height * width * height * 65025 <= u64::MAX,
            seen == block_samples(src@, src_stride, width as int, row as int),
            seen.len() == width * row, width * row <= width * height,
            forall|i: int| 0 <= i < seen.len() ==> 0 <= #[trigger] seen[i] <= 255,
            sum == seq_sum(seen), sum_sq == seq_sum_sq(seen),
        decreases height - row,
    {
        proof {
            lemma_row_offset(row as int, 0, src_stride as int, width as int, height as int, slen as int);
            assert(width * (row + 1) <= width * height) by (nonlinear_arith) requires row < height, width > 0;
            assert(width * (row + 1) == width * row + width) by (nonlinear_arith);
        }
        let offset: usize = row * src_stride;
        let ghost start = seen;
        let mut col: usize = 0;
        while col < width
            invariant
                row < height, col <= width, slen == src@.len(), width > 0,
                offset + width <= src@.len(), offset == row * src_stride,
                width * height * width * height * 65025 <= u64::MAX,
                width * row + width <= width * height, width * height > 0,
                start.len() == width * row,
                seen == start + row_samples(src@, offset as int, col as int),
                seen.len() == width * row + col,
                forall|i: int| 0 <= i < seen.len() ==> 0 <= #[trigger] seen[i] <= 255,
                sum == seq_sum(seen), sum_sq == seq_sum_sq(seen),
            decreases width - col,
        {
            proof {
                lemma_sums_bounds(seen);
                assert(width * height <= width * height * width * height) by (nonlinear_arith)
                    requires width * height > 0;
            }
            let v: u64 = src[offset + col] as u64;
            proof {
                assert(v * v <= 65025) by (nonlinear_arith) requires v <= 255;
                assert(65025 * seen.len() + 65025 <= 65025 * (width * height)) by (nonlinear_arith)
                    requires seen.len() < width * height;
                assert(255 * seen.len() + 255 <= 65025 * (width * height)) by (nonlinear_arith)
                    requires seen.len() < width * height;
                assert(65025 * (width * height) <= width * height * width * height * 65025) by (nonlinear_arith)
                    requires width * height > 0;
                lemma_sums_push(seen, v as int);
                assert(row_samples(src@, offset as int, col as int + 1)
                    =~= row_samples(src@, offset as int, col as int).push(v as int));
                seen = seen.push(v as int);
            }
            sum = sum + v;
            sum_sq = sum_sq + v * v;
            col = col + 1;
        }
        proof {
            assert(seen =~= block_samples(src@, src_stride, width as int, row as int + 1));
        }
        row = row + 1;
    }
    let n: u64 = (width * height) as u64;
    proof {
        lemma_sums_bounds(seen);
        lemma_variance_nonneg(seen);
        let (ss, s1) = (sum_sq as int, sum as int);
        assert(ss * n <= 65025 * n * n) by (nonlinear_arith) requires ss <= 65025 * n, n >= 0;
        assert(65025 * n * n <= u64::MAX) by (nonlinear_arith)
            requires n == width * height, width * height * width * height * 65025 <= u64::MAX;
        assert(s1 * s1 <= ss * n) by (nonlinear_arith)
            requires n * ss - s1 * s1 >= 0;
        assert(n * ss == ss * n) by (nonlinear_arith);
    }
    let var: u64 = sum_sq * n - sum * sum;
    let q: u64 = sum / n;
    proof {
        assert(seen =~= block_samples(src@, src_stride, width as int, height as int));
        assert(seen.len() == n);
        assert(q <= 255) by (nonlinear_arith) requires q == sum / n, sum <= 255 * n, n > 0;
    }
    let mean: u32 = q as u32;
    (var, mean)
}

/// Sum of squared differences of the first `w` samples of two rows.
pub open spec fn row_sq_diff(src: Seq<u8>, so: int, rf: Seq<u8>, ro: int, w: int) -> int
    decreases w,
{
    if w <= 0 {
        0
    } else {
        row_sq_diff(src, so, rf, ro, w - 1) + (src[so + w - 1] - rf[ro + w - 1]) * (src[so + w - 1] - rf[ro + w - 1])
    }
}

/// Sum of squared differences of the first `h` rows of two `w`-wide blocks.
pub open spec fn block_sse(src: Seq<u8>, src_stride: usize, rf: Seq<u8>, ref_stride: usize, w: int, h: int) -> int
    decreases h,
{
    if h <= 0 {
        0
    } else {
        block_sse(src, src_stride, rf, ref_stride, w, h - 1)
            + row_sq_diff(src, (h - 1) * src_stride, rf, (h - 1) * ref_stride, w)
    }
}

proof fn lemma_row_sq_diff_bounds(src: Seq<u8>, so: int, rf: Seq<u8>, ro: int, w: int)
    requires w >= 0,
    ensures 0 <= row_sq_diff(src, so, rf, ro, w) <= 65025 * w,
    decreases w,
{
    if w > 0 {
        lemma_row_sq_diff_bounds(src, so, rf, ro, w - 1);
        let d = src[so + w - 1] - rf[ro + w - 1];
        assert(0 <= d * d <= 65025) by (nonlinear_arith) requires -255 <= d <= 255;
    }
}

/// Sum of squared differences of the `width` x `height` blocks: [`block_sse`].
pub fn sse(src: &[u8], src_stride: usize, ref_: &[u8], ref_stride: usize, width: usize, height: usize) -> (r: u64)
    requires
        crate::dsp::sad::blocks_fit(src@.len() as int, src_stride, ref_@.len() as int, ref_stride, width, height),
        width * height * 65025 <= u64::MAX,
    ensures r == block_sse(src@, src_stride, ref_@, ref_stride, width as int, height as int),
{
    let slen: usize = src.len();
    let rlen: usize = ref_.len();
    let mut total: u64 = 0;
    let mut row: usize = 0;
    while row < height
        invariant
            row <= height, slen == src@.len(), rlen == ref_@.len(),
            crate::dsp::sad::blocks_fit(src@.len() as int, src_stride, ref_@.len() as int, ref_stride, width, height),
            width * height * 65025 <= u64::MAX,
            total == block_sse(src@, src_stride, ref_@, ref_stride, width as int, row as int),
            total <= 65025 * width * row,
        decreases height - row,
    {
        proof {
            if width > 0 {
                lemma_row_offset(row as int, 0, src_stride as int, width as int, height as int, slen as int);
                lemma_row_offset(row as int, 0, ref_stride as int, width as int, height as int, rlen as int);
            }
            assert(row * src_stride <= (height - 1) * src_stride) by (nonlinear_arith) requires row < height;
            assert(row * ref_stride <= (height - 1) * ref_stride) by (nonlinear_arith) requires row < height;
            assert(65025 * width * (row + 1) <= width * height * 65025) by (nonlinear_arith) requires row < height;
            assert(65025 * width * (row + 1) == 65025 * width * row + 65025 * width) by (nonlinear_arith);
        }
        let s_off: usize = row * src_stride;
        let r_off: usize = row * ref_stride;
        let ghost base = total as int;
        let mut col: usize = 0;
        while col < width
            invariant
                row < height, col <= width, slen == src@.len(), rlen == ref_@.len(),
                width > 0 ==> s_off + width <= src@.len() && r_off + width <= ref_@.len(),
                s_off == row * src_stride, r_off == row * ref_stride,
                base == block_sse(src@, src_stride, ref_@, ref_stride, width as int, row as int),
                base <= 65025 * width * row,
                65025 * width * row + 65025 * width <= u64::MAX,
                total == base + row_sq_diff(src@, s_off as int, ref_@, r_off as int, col as int),
            decreases width - col,
        {
            proof { lemma_row_sq_diff_bounds(src@, s_off as int, ref_@, r_off as int, col as int + 1); }
            let diff: i32 = src[s_off + col] as i32 - ref_[r_off + col] as i32;
            assert(0 <= diff * diff <= 65025) by (nonlinear_arith) requires -255 <= diff <= 255;
            total = total + (diff * diff) as u64;
            col = col + 1;
        }
        proof { lemma_row_sq_diff_bounds(src@, s_off as int, ref_@, r_off as int, width as int); }
        row = row + 1;
    }
    total
}

} // verus!
