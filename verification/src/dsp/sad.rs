//! Sum of absolute differences between two blocks.
use vstd::prelude::*;

verus! {

/// `|a - b|`.
pub open spec fn abs_diff_int(a: int, b: int) -> int {
    if a >= b { a - b } else { b - a }
}

/// SAD of the first `w` samples of the rows at `so` in `src` and `ro` in `rf`.
pub open spec fn row_abs_diff(src: Seq<u8>, so: int, rf: Seq<u8>, ro: int, w: int) -> int
    decreases w,
{
    if w <= 0 { 0 } else { row_abs_diff(src, so, rf, ro, w - 1) + abs_diff_int(src[so + w - 1] as int, rf[ro + w - 1] as int) }
}

/// SAD of the first `h` rows of two `w`-wide blocks.
pub open spec fn block_sad(src: Seq<u8>, src_stride: usize, rf: Seq<u8>, ref_stride: usize, w: int, h: int) -> int
    decreases h,
{
    if h <= 0 {
        0
    } else {
        block_sad(src, src_stride, rf, ref_stride, w, h - 1)
            + row_abs_diff(src, (h - 1) * src_stride, rf, (h - 1) * ref_stride, w)
    }
}

/// Both `width` x `height` blocks lie in their buffers.
pub open spec fn blocks_fit(src_len: int, src_stride: usize, ref_len: int, ref_stride: usize, width: usize,
    height: usize) -> bool {
    &&& height > 0 ==> (height - 1) * src_stride <= usize::MAX && (height - 1) * ref_stride <= usize::MAX
    &&& width > 0 && height > 0 ==> (height - 1) * src_stride + width <= src_len
        && (height - 1) * ref_stride + width <= ref_len
}

proof fn lemma_row_abs_diff_bounds(src: Seq<u8>, so: int, rf: Seq<u8>, ro: int, w: int)
    requires w >= 0,
    ensures 0 <= row_abs_diff(src, so, rf, ro, w) <= 255 * w,
    decreases w,
{
    if w > 0 {
        lemma_row_abs_diff_bounds(src, so, rf, ro, w - 1);
    }
}

/// The offset of sample `c` of row `r` lies inside a block that fits its buffer.
pub proof fn lemma_row_offset(r: int, c: int, stride: int, w: int, h: int, len: int)
    requires 0 <= r < h, 0 <= c < w, stride >= 0, (h - 1) * stride + w <= len,
    ensures 0 <= r * stride, r * stride + c < len, r * stride + w <= len,
{
    assert(r * stride <= (h - 1) * stride) by (nonlinear_arith) requires r <= h - 1, stride >= 0;
    assert(r * stride >= 0) by (nonlinear_arith) requires r >= 0, stride >= 0;
}

/// SAD of the `width` x `height` blocks of `src` and `ref_`: [`block_sad`].
pub fn sad(src: &[u8], src_stride: usize, ref_: &[u8], ref_stride: usize, width: usize, height: usize) -> (r: u32)
    requires
        blocks_fit(src@.len() as int, src_stride, ref_@.len() as int, ref_stride, width, height),
        width * height * 255 <= u32::MAX,
    ensures r == block_sad(src@, src_stride, ref_@, ref_stride, width as int, height as int),
{
    let slen: usize = src.len();
    let rlen: usize = ref_.len();
    let mut sum: u32 = 0;
    let mut row: usize = 0;
    while row < height
        invariant
            row <= height, slen == src@.len(), rlen == ref_@.len(),
            blocks_fit(src@.len() as int, src_stride, ref_@.len() as int, ref_stride, width, height),
            width * height * 255 <= u32::MAX,
            sum == block_sad(src@, src_stride, ref_@, ref_stride, width as int, row as int),
            sum <= 255 * width * row,
        decreases height - row,
    {
        proof {
            if width > 0 {
                lemma_row_offset(row as int, 0, src_stride as int, width as int, height as int, slen as int);
                lemma_row_offset(row as int, 0, ref_stride as int, width as int, height as int, rlen as int);
            }
            assert(row * src_stride <= (height - 1) * src_stride) by (nonlinear_arith) requires row < height;
            assert(row * ref_stride <= (height - 1) * ref_stride) by (nonlinear_arith) requires row < height;
            if width == 0 {
                assert(255 * width * (row + 1) == 0) by (nonlinear_arith) requires width == 0;
            }
            assert(255 * width * (row + 1) <= width * height * 255) by (nonlinear_arith)
                requires row < height;
            assert(255 * width * (row + 1) == 255 * width * row + 255 * width) by (nonlinear_arith);
        }
        let src_row: usize = row * src_stride;
        let ref_row: usize = row * ref_stride;
        let ghost base = sum as int;
        let mut col: usize = 0;
        while col < width
            invariant
                row < height, col <= width, slen == src@.len(), rlen == ref_@.len(),
                width > 0 ==> src_row + width <= src@.len() && ref_row + width <= ref_@.len(),
                src_row == row * src_stride, ref_row == row * ref_stride,
                base == block_sad(src@, src_stride, ref_@, ref_stride, width as int, row as int),
                base <= 255 * width * row,
                255 * width * row + 255 * width <= u32::MAX,
                sum == base + row_abs_diff(src@, src_row as int, ref_@, ref_row as int, col as int),
            decreases width - col,
        {
            proof { lemma_row_abs_diff_bounds(src@, src_row as int, ref_@, ref_row as int, col as int); }
            let s: i32 = src[src_row + col] as i32;
            let t: i32 = ref_[ref_row + col] as i32;
            let d: u32 = if s >= t { (s - t) as u32 } else { (t - s) as u32 };
            sum = sum + d;
            col = col + 1;
        }
        proof { lemma_row_abs_diff_bounds(src@, src_row as int, ref_@, ref_row as int, width as int); }
        row = row + 1;
    }
    sum
}

/// SAD of two 8x8 blocks.
pub fn sad_8x8(src: &[u8], src_stride: usize, ref_: &[u8], ref_stride: usize) -> (r: u32)
    requires blocks_fit(src@.len() as int, src_stride, ref_@.len() as int, ref_stride, 8, 8),
    ensures r == block_sad(src@, src_stride, ref_@, ref_stride, 8, 8),
{
    sad(src, src_stride, ref_, ref_stride, 8, 8)
}

/// SAD of two 16x16 blocks.
pub fn sad_16x16(src: &[u8], src_stride: usize, ref_: &[u8], ref_stride: usize) -> (r: u32)
    requires blocks_fit(src@.len() as int, src_stride, ref_@.len() as int, ref_stride, 16, 16),
    ensures r == block_sad(src@, src_stride, ref_@, ref_stride, 16, 16),
{
    sad(src, src_stride, ref_, ref_stride, 16, 16)
}

/// SAD of two 32x32 blocks.
pub fn sad_32x32(src: &[u8], src_stride: usize, ref_: &[u8], ref_stride: usize) -> (r: u32)
    requires blocks_fit(src@.len() as int, src_stride, ref_@.len() as int, ref_stride, 32, 32),
    ensures r == block_sad(src@, src_stride, ref_@, ref_stride, 32, 32),
{
    sad(src, src_stride, ref_, ref_stride, 32, 32)
}

/// SAD of two 64x64 blocks.
pub fn sad_64x64(src: &[u8], src_stride: usize, ref_: &[u8], ref_stride: usize) -> (r: u32)
    requires blocks_fit(src@.len() as int, src_stride, ref_@.len() as int, ref_stride, 64, 64),
    ensures r == block_sad(src@, src_stride, ref_@, ref_stride, 64, 64),
{
    sad(src, src_stride, ref_, ref_stride, 64, 64)
}

/// SAD is a distance: it is zero when the two blocks hold the same samples, and it is
/// symmetric in the two blocks.
pub proof fn lemma_sad_identity_symmetry(src: Seq<u8>, src_stride: usize, rf: Seq<u8>, ref_stride: usize, w: int,
    h: int)
    ensures
        block_sad(src, src_stride, src, src_stride, w, h) == 0,
        block_sad(src, src_stride, rf, ref_stride, w, h) == block_sad(rf, ref_stride, src, src_stride, w, h),
    decreases h,
{
    if h > 0 {
        lemma_sad_identity_symmetry(src, src_stride, rf, ref_stride, w, h - 1);
        lemma_row_zero_symm(src, (h - 1) * src_stride, rf, (h - 1) * ref_stride, w);
    }
}

proof fn lemma_row_zero_symm(src: Seq<u8>, so: int, rf: Seq<u8>, ro: int, w: int)
    ensures
        row_abs_diff(src, so, src, so, w) == 0,
        row_abs_diff(src, so, rf, ro, w) == row_abs_diff(rf, ro, src, so, w),
    decreases w,
{
    if w > 0 {
        lemma_row_zero_symm(src, so, rf, ro, w - 1);
    }
}

} // verus!
