//! Super-resolution: the 8-tap, 16-phase horizontal upscaling filter that restores a
//! frame coded at reduced width.
use vstd::prelude::*;

verus! {

/// The upscaling filter: 8 taps for each of 16 sub-pixel phases (each phase sums to 128).
pub const SUPERRES_FILTER: [[i16; 8]; 16] = [
    [0, 0, 0, 128, 0, 0, 0, 0],
    [0, 0, -1, 128, 2, -1, 0, 0],
    [0, 0, -3, 127, 5, -2, 1, 0],
    [0, 0, -4, 126, 8, -3, 1, 0],
    [0, -1, -5, 125, 11, -4, 2, 0],
    [0, -1, -6, 123, 15, -6, 3, 0],
    [0, -1, -7, 121, 18, -7, 4, 0],
    [0, -1, -7, 118, 22, -8, 4, 0],
    [0, -2, -8, 116, 25, -9, 5, 1],
    [0, -2, -8, 113, 29, -10, 6, 0],
    [0, -2, -8, 110, 32, -11, 7, 0],
    [0, -2, -9, 107, 36, -12, 8, 0],
    [0, -2, -9, 103, 40, -13, 9, 0],
    [0, -2, -9, 100, 43, -13, 9, 0],
    [0, -3, -9, 96, 47, -14, 10, 1],
    [0, -3, -9, 93, 50, -14, 10, 1],
];

/// `v` clamped to `[lo, hi]`.
pub open spec fn clampi(v: int, lo: int, hi: int) -> int {
    if v < lo { lo } else if v > hi { hi } else { v }
}

/// Q14 step between output pixels: `(src_width << 14) / dst_width`.
pub open spec fn superres_scale(src_width: usize, dst_width: usize) -> int {
    (src_width * 16384) / (dst_width as int)
}

/// Sum of the first `k` taps at source position `pos` (in Q14) of the row at `off`.
pub open spec fn superres_taps(src: Seq<u8>, off: int, src_width: usize, pos: int, k: int) -> int
    decreases k,
{
    if k <= 0 {
        0
    } else {
        let phase = (pos / 1024) % 16;
        let idx = clampi(pos / 16384 + (k - 1) - 3, 0, src_width - 1);
        superres_taps(src, off, src_width, pos, k - 1) + src[off + idx] * SUPERRES_FILTER[phase][k - 1]
    }
}

/// Output pixel `c` of an upscaled row: the filtered source, rounded and clipped.
pub open spec fn superres_px(src: Seq<u8>, off: int, src_width: usize, dst_width: usize, c: int) -> int {
    let pos = c * superres_scale(src_width, dst_width);
    clampi((superres_taps(src, off, src_width, pos, 8) + 64) / 128, 0, 255)
}

/// The filter taps are small.
proof fn lemma_superres_taps_small()
    ensures forall|p: int, i: int| 0 <= p < 16 && 0 <= i < 8 ==> -14 <= #[trigger] SUPERRES_FILTER[p][i] <= 128,
{
}

proof fn lemma_taps_bounds(src: Seq<u8>, off: int, src_width: usize, pos: int, k: int)
    requires 0 <= k <= 8, pos >= 0,
    ensures -14 * 255 * k <= superres_taps(src, off, src_width, pos, k) <= 128 * 255 * k,
    decreases k,
{
    if k > 0 {
        lemma_taps_bounds(src, off, src_width, pos, k - 1);
        lemma_superres_taps_small();
        let phase = (pos / 1024) % 16;
        let idx = clampi(pos / 16384 + (k - 1) - 3, 0, src_width - 1);
        let t = SUPERRES_FILTER[phase][k - 1];
        let v = src[off + idx];
        assert(-14 <= t <= 128);
        assert(-14 * 255 <= v * t <= 128 * 255) by (nonlinear_arith) requires 0 <= v <= 255, -14 <= t <= 128;
        assert(superres_taps(src, off, src_width, pos, k) == superres_taps(src, off, src_width, pos, k - 1) + v * t);
        assert(-14 * 255 * (k - 1) - 14 * 255 == -14 * 255 * k) by (nonlinear_arith);
        assert(128 * 255 * (k - 1) + 128 * 255 == 128 * 255 * k) by (nonlinear_arith);
    }
}

/// Upscale the row at `src_off` into the row at `dst_off`.
fn upscale_row_at(src: &[u8], src_off: usize, src_width: usize, dst: &mut [u8], dst_off: usize, dst_width: usize)
    requires
        src_width > 0, dst_width > 0,
        src_width <= 0x7fff_ffff,
        src_off + src_width <= src@.len(),
        dst_off + dst_width <= old(dst)@.len(),
        (dst_width - 1) * superres_scale(src_width, dst_width) < 0x4000_0000_0000,
    ensures
        final(dst)@.len() == old(dst)@.len(),
        forall|c: int| 0 <= c < dst_width ==>
            final(dst)@[dst_off + c] == #[trigger] superres_px(src@, src_off as int, src_width, dst_width, c),
        forall|i: int| 0 <= i < old(dst)@.len() && !(dst_off <= i < dst_off + dst_width) ==>
            #[trigger] final(dst)@[i] == old(dst)@[i],
{
    proof {
        vstd::arithmetic::power2::lemma2_to64();
        vstd::arithmetic::power2::lemma2_to64_rest();
        vstd::bits::lemma_u64_shl_is_mul(src_width as u64, 14);
        assert(superres_scale(src_width, dst_width) <= src_width * 16384) by (nonlinear_arith)
            requires dst_width > 0, superres_scale(src_width, dst_width) == (src_width * 16384) / (dst_width as int);
    }
    let scale: u64 = ((src_width as u64) << 14) / dst_width as u64;
    let slen: usize = src.len();
    let dlen: usize = dst.len();
    let mut c: usize = 0;
    while c < dst_width
        invariant
            c <= dst_width, src_width > 0, src_width <= 0x7fff_ffff, slen == src@.len(), dlen == dst@.len(),
            scale == superres_scale(src_width, dst_width),
            src_off + src_width <= src@.len(),
            dst_off + dst_width <= old(dst)@.len(),
            (dst_width - 1) * scale < 0x4000_0000_0000,
            dst@.len() == old(dst)@.len(),
            forall|k: int| 0 <= k < c ==> dst@[dst_off + k] == #[trigger] superres_px(src@, src_off as int, src_width,
                dst_width, k),
            forall|i: int| 0 <= i < old(dst)@.len() && !(dst_off <= i < dst_off + c) ==>
                #[trigger] dst@[i] == old(dst)@[i],
        decreases dst_width - c,
    {
        proof {
            assert(c * scale <= (dst_width - 1) * scale) by (nonlinear_arith) requires c < dst_width, scale >= 0;
        }
        let src_pos: u64 = c as u64 * scale;
        proof {
            vstd::bits::lemma_u64_shr_is_div(src_pos, 14);
            vstd::bits::lemma_u64_shr_is_div(src_pos, 10);
            vstd::bits::lemma_u64_low_bits_mask_is_mod(src_pos >> 10, 4);
            vstd::arithmetic::power2::lemma2_to64();
            assert(vstd::bits::low_bits_mask(4) == 15) by {
                vstd::arithmetic::power2::lemma2_to64();
            }
        }
        let src_int: i64 = (src_pos >> 14) as i64;
        let sub_pel: usize = ((src_pos >> 10) & 0xF) as usize;
        let ghost pos = src_pos as int;
        assert(sub_pel == (pos / 1024) % 16);
        assert(src_int == pos / 16384);
        let mut sum: i32 = 0;
        let mut k: usize = 0;
        while k < 8
            invariant
                k <= 8, src_width > 0, src_width <= 0x7fff_ffff, slen == src@.len(),
                src_off + src_width <= src@.len(),
                pos >= 0, src_int == pos / 16384, 0 <= src_int < 0x1000_0000_0000, sub_pel == (pos / 1024) % 16,
                sum == superres_taps(src@, src_off as int, src_width, pos, k as int),
                -14 * 255 * k <= sum <= 128 * 255 * k,
            decreases 8 - k,
        {
            proof {
                lemma_taps_bounds(src@, src_off as int, src_width, pos, k as int + 1);
            }
            let raw: i64 = src_int + k as i64 - 3;
            let idx: usize = if raw < 0 { 0 } else if raw > src_width as i64 - 1 { src_width - 1 } else { raw as usize };
            proof {
                lemma_superres_taps_small();
                assert(-14 <= SUPERRES_FILTER[sub_pel as int][k as int] <= 128);
            }
            let v: i32 = src[src_off + idx] as i32;
            let t: i32 = SUPERRES_FILTER[sub_pel][k] as i32;
            proof {
                assert(-14 * 255 <= v * t <= 128 * 255) by (nonlinear_arith) requires 0 <= v <= 255, -14 <= t <= 128;
                assert(idx == clampi(pos / 16384 + k - 3, 0, src_width - 1));
                assert(superres_taps(src@, src_off as int, src_width, pos, k as int + 1)
                    == sum + v * t);
            }
            sum = sum + v * t;
            k = k + 1;
        }
        proof {
            lemma_taps_bounds(src@, src_off as int, src_width, pos, 8);
        }
        let t: i64 = sum as i64 + 64;
        proof {
            crate::dsp::fwd_txfm::lemma_i64_shr(t, 7);
            vstd::arithmetic::power2::lemma2_to64();
        }
        let v: i64 = t >> 7;
        let p: u8 = if v < 0 { 0 } else if v > 255 { 255 } else { v as u8 };
        dst[dst_off + c] = p;
        c = c + 1;
    }
}

/// The Q14 step never carries a pixel position past `src_width << 14`.
proof fn lemma_scale_bound(src_width: usize, dst_width: usize)
    requires src_width <= 0x7fff_ffff, dst_width > 0,
    ensures
        superres_scale(src_width, dst_width) >= 0,
        (dst_width - 1) * superres_scale(src_width, dst_width) < 0x4000_0000_0000,
{
    let s = superres_scale(src_width, dst_width);
    let n = src_width * 16384;
    vstd::arithmetic::div_mod::lemma_fundamental_div_mod(n, dst_width as int);
    assert(s * dst_width <= n) by (nonlinear_arith)
        requires s == n / (dst_width as int), n >= 0, dst_width > 0, n == dst_width * (n / (dst_width as int)) + n % (dst_width as int), n % (dst_width as int) >= 0;
    assert(s >= 0) by (nonlinear_arith) requires s == n / (dst_width as int), n >= 0, dst_width > 0;
    assert((dst_width - 1) * s <= dst_width * s) by (nonlinear_arith) requires s >= 0, dst_width > 0;
}

/// Upscale one row of `src_width` pixels to `dst_width` pixels.
///
/// With either width zero nothing is written.
pub fn superres_upscale_row(src: &[u8], src_width: usize, dst: &mut [u8], dst_width: usize)
    requires
        src_width <= 0x7fff_ffff,
        src_width > 0 && dst_width > 0 ==> src_width <= src@.len() && dst_width <= old(dst)@.len(),
    ensures
        final(dst)@.len() == old(dst)@.len(),
        forall|c: int| 0 <= c < dst_width && src_width > 0 ==>
            final(dst)@[c] == #[trigger] superres_px(src@, 0, src_width, dst_width, c),
        forall|i: int| 0 <= i < old(dst)@.len() && !(src_width > 0 && i < dst_width) ==>
            #[trigger] final(dst)@[i] == old(dst)@[i],
{
    if src_width == 0 || dst_width == 0 {
        return;
    }
    proof {
        lemma_scale_bound(src_width, dst_width);
    }
    upscale_row_at(src, 0, src_width, dst, 0, dst_width);
}

/// Whether row `r` of a plane with the given stride and width holds position `i`.
pub open spec fn row_covers(i: int, stride: int, width: int, r: int) -> bool {
    r * stride <= i < r * stride + width
}

proof fn lemma_row_step(r: int, q: int, stride: int, c: int)
    requires 0 <= q < r, 0 <= c < stride,
    ensures q * stride + c < r * stride,
{
    assert((q + 1) * stride <= r * stride) by (nonlinear_arith) requires q + 1 <= r, stride >= 0;
    assert((q + 1) * stride == q * stride + stride) by (nonlinear_arith);
}

proof fn lemma_row_within(r: int, height: int, stride: int, extent: int, len: int)
    requires 0 <= r < height, stride >= 0, (height - 1) * stride + extent <= len,
    ensures r * stride + extent <= len, r * stride >= 0,
{
    assert(r * stride <= (height - 1) * stride) by (nonlinear_arith) requires r <= height - 1, stride >= 0;
    assert(r * stride >= 0) by (nonlinear_arith) requires r >= 0, stride >= 0;
}

/// Upscale `height` rows of a plane. Where rows of `dst` overlap, a later row's pixels
/// stand over an earlier row's.
pub fn superres_upscale(
    src: &[u8],
    src_stride: usize,
    src_width: usize,
    dst: &mut [u8],
    dst_stride: usize,
    dst_width: usize,
    height: usize,
)
    requires
        src_width <= 0x7fff_ffff,
        height > 0 ==> (height - 1) * src_stride <= src@.len() && (height - 1) * dst_stride <= old(dst)@.len(),
        height > 0 && src_width > 0 && dst_width > 0 ==>
            (height - 1) * src_stride + src_width <= src@.len()
            && (height - 1) * dst_stride + dst_width <= old(dst)@.len(),
    ensures
        final(dst)@.len() == old(dst)@.len(),
        forall|r: int, c: int| 0 <= r < height && 0 <= c < dst_width && src_width > 0
            && (c < dst_stride || r == height - 1) ==>
            final(dst)@[#[trigger] (r * dst_stride + c)] == superres_px(src@, r * src_stride, src_width, dst_width, c),
        forall|i: int| 0 <= i < old(dst)@.len()
            && (src_width == 0 || forall|r: int| 0 <= r < height ==> !#[trigger] row_covers(i, dst_stride as int,
            dst_width as int, r)) ==> #[trigger] final(dst)@[i] == old(dst)@[i],
{
    if src_width == 0 || dst_width == 0 {
        return;
    }
    proof {
        lemma_scale_bound(src_width, dst_width);
    }
    let slen: usize = src.len();
    let mut r: usize = 0;
    while r < height
        invariant
            r <= height, src_width > 0, dst_width > 0, src_width <= 0x7fff_ffff, slen == src@.len(),
            (dst_width - 1) * superres_scale(src_width, dst_width) < 0x4000_0000_0000,
            height > 0 ==> (height - 1) * src_stride + src_width <= src@.len()
                && (height - 1) * dst_stride + dst_width <= old(dst)@.len(),
            dst@.len() == old(dst)@.len(),
            forall|q: int, c: int| 0 <= q < r && 0 <= c < dst_width && (c < dst_stride || q == r - 1) ==>
                dst@[#[trigger] (q * dst_stride + c)] == superres_px(src@, q * src_stride, src_width, dst_width, c),
            forall|i: int| 0 <= i < old(dst)@.len()
                && (forall|q: int| 0 <= q < r ==> !#[trigger] row_covers(i, dst_stride as int, dst_width as int, q))
                ==> #[trigger] dst@[i] == old(dst)@[i],
        decreases height - r,
    {
        proof {
            lemma_row_within(r as int, height as int, src_stride as int, src_width as int, src@.len() as int);
            lemma_row_within(r as int, height as int, dst_stride as int, dst_width as int, old(dst)@.len() as int);
        }
        let dlen: usize = dst.len();
        assert(r * dst_stride + dst_width <= dlen);
        let src_off: usize = r * src_stride;
        let dst_off: usize = r * dst_stride;
        let ghost before = dst@;
        upscale_row_at(src, src_off, src_width, dst, dst_off, dst_width);
        proof {
            assert forall|q: int, c: int| 0 <= q < r + 1 && 0 <= c < dst_width && (c < dst_stride || q == r) implies
                dst@[#[trigger] (q * dst_stride + c)] == superres_px(src@, q * src_stride, src_width, dst_width, c) by {
                if q < r {
                    lemma_row_step(r as int, q, dst_stride as int, c);
                    lemma_row_within(q, height as int, dst_stride as int, dst_width as int, dst@.len() as int);
                    assert(before[q * dst_stride + c] == superres_px(src@, q * src_stride, src_width, dst_width, c));
                } else {
                    assert(dst@[dst_off + c] == superres_px(src@, src_off as int, src_width, dst_width, c));
                }
            }
            assert forall|i: int| 0 <= i < old(dst)@.len()
                && (forall|q: int| 0 <= q < r + 1 ==> !#[trigger] row_covers(i, dst_stride as int, dst_width as int, q))
                implies #[trigger] dst@[i] == old(dst)@[i] by {
                assert(!row_covers(i, dst_stride as int, dst_width as int, r as int));
                assert forall|q: int| 0 <= q < r implies !#[trigger] row_covers(i, dst_stride as int, dst_width as int, q) by {
                    assert(0 <= q < r + 1);
                }
                assert(before[i] == old(dst)@[i]);
            }
        }
        r = r + 1;
    }
}

} // verus!
