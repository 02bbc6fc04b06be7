//! Wiener restoration: a separable 7-tap symmetric filter with edge replication, and
//! the search for its coefficients.
use vstd::prelude::*;
use crate::dsp::superres::clampi;
use crate::dsp::copy::{block_fits, block_written, block_rows_written, rows_state, row_partial, lemma_rows_write, lemma_rows_done, lemma_rows_block};
use crate::dsp::fwd_txfm::{raster, lemma_i64_shr};

verus! {

/// The 7-tap symmetric kernel `[c2, c1, c0, 128 - 2 (c0 + c1 + c2), c0, c1, c2]`.
pub open spec fn wiener_kernel(c0: int, c1: int, c2: int) -> Seq<int> {
    seq![c2, c1, c0, 128 - 2 * (c0 + c1 + c2), c0, c1, c2]
}

/// The center tap of [`wiener_kernel`] is computable in 16 bits.
pub open spec fn kernel_ok(c: [i16; 3]) -> bool {
    let s = c[0] + c[1] + c[2];
    &&& i16::MIN <= c[0] + c[1] <= i16::MAX
    &&& i16::MIN <= 2 * s && 2 * s <= i16::MAX
    &&& i16::MIN <= 128 - 2 * s <= i16::MAX
}

/// The full kernel of three coefficients.
pub fn build_wiener_kernel(coeffs: [i16; 3]) -> (r: [i16; 7])
    requires kernel_ok(coeffs),
    ensures forall|k: int| 0 <= k < 7 ==> #[trigger] r[k] == wiener_kernel(coeffs[0] as int, coeffs[1] as int,
        coeffs[2] as int)[k],
{
    let center: i16 = 128 - 2 * (coeffs[0] + coeffs[1] + coeffs[2]);
    [coeffs[2], coeffs[1], coeffs[0], center, coeffs[0], coeffs[1], coeffs[2]]
}

/// Sample of the picture at `(y, x)`, both clamped into the `w` x `h` picture.
pub open spec fn rpx(src: Seq<u8>, stride: usize, w: usize, h: usize, y: int, x: int) -> int {
    src[clampi(y, 0, h - 1) * stride + clampi(x, 0, w - 1)] as int
}

/// First `k` horizontal taps at column `c` of padded row `r` (source row `r - 3`).
pub open spec fn wh_sum(src: Seq<u8>, stride: usize, w: usize, h: usize, hk: Seq<int>, r: int, c: int, k: int) -> int
    decreases k,
{
    if k <= 0 { 0 } else { wh_sum(src, stride, w, h, hk, r, c, k - 1) + rpx(src, stride, w, h, r - 3, c + k - 4) * hk[k - 1] }
}

/// The intermediate (horizontally filtered) value at padded row `r`, column `c`:
/// rounded from Q7 and wrapped to 16 bits.
pub open spec fn wtmp(src: Seq<u8>, stride: usize, w: usize, h: usize, hk: Seq<int>, r: int, c: int) -> i16 {
    ((wh_sum(src, stride, w, h, hk, r, c, 7) + 64) / 128) as i16
}

/// First `k` vertical taps of output `(r, c)` over the intermediate rows `r..r + 7`.
pub open spec fn wv_sum(src: Seq<u8>, stride: usize, w: usize, h: usize, hk: Seq<int>, vk: Seq<int>, r: int, c: int,
    k: int) -> int
    decreases k,
{
    if k <= 0 { 0 } else {
        wv_sum(src, stride, w, h, hk, vk, r, c, k - 1) + wtmp(src, stride, w, h, hk, r + k - 1, c) * vk[k - 1]
    }
}

/// The restored pixel `(r, c)`.
pub open spec fn wiener_px(src: Seq<u8>, stride: usize, w: usize, h: usize, hk: Seq<int>, vk: Seq<int>, r: int,
    c: int) -> u8 {
    clampi((wv_sum(src, stride, w, h, hk, vk, r, c, 7) + 64) / 128, 0, 255) as u8
}

/// Every vertical partial sum, and the rounded total, stay within 32 bits.
pub open spec fn wiener_fits(src: Seq<u8>, stride: usize, w: usize, h: usize, hk: Seq<int>, vk: Seq<int>) -> bool {
    forall|r: int, c: int, k: int| 0 <= r < h && 0 <= c < w && 0 <= k <= 7 ==>
        i32::MIN <= #[trigger] wv_sum(src, stride, w, h, hk, vk, r, c, k) <= i32::MAX - 64
}

proof fn lemma_rpx_index(src: Seq<u8>, stride: usize, w: usize, h: usize, y: int, x: int)
    requires w >= 1, h >= 1, (h - 1) * stride + w <= src.len(),
    ensures 0 <= clampi(y, 0, h - 1) * stride + clampi(x, 0, w - 1) < src.len(),
{
    let cy = clampi(y, 0, h - 1);
    assert(cy * stride <= (h - 1) * stride) by (nonlinear_arith) requires cy <= h - 1;
    assert(cy * stride >= 0) by (nonlinear_arith) requires cy >= 0;
}

proof fn lemma_wh_sum_bounds(src: Seq<u8>, stride: usize, w: usize, h: usize, hk: Seq<int>, r: int, c: int, k: int)
    requires 0 <= k <= 7, forall|j: int| 0 <= j < 7 ==> -32768 <= #[trigger] hk[j] <= 32767,
    ensures -8355840 * k <= wh_sum(src, stride, w, h, hk, r, c, k) <= 8355840 * k,
    decreases k,
{
    if k > 0 {
        lemma_wh_sum_bounds(src, stride, w, h, hk, r, c, k - 1);
        let v = rpx(src, stride, w, h, r - 3, c + k - 4);
        let t = hk[k - 1];
        assert(-32768 <= t <= 32767);
        assert(0 <= v <= 255);
        assert(-8355840 <= v * t <= 8355840) by (nonlinear_arith) requires 0 <= v <= 255, -32768 <= t <= 32767;
        assert(wh_sum(src, stride, w, h, hk, r, c, k) == wh_sum(src, stride, w, h, hk, r, c, k - 1) + v * t);
    }
}

/// The intermediate rows, `w * (h + 6)` values row by row: [`wtmp`].
fn wiener_rows(src: &[u8], src_stride: usize, width: usize, height: usize, hk: &[i16; 7]) -> (tmp: Vec<i16>)
    requires
        width >= 1, 1 <= height <= 0x7fff_0000, width <= 0x7fff_0000, width * (height + 6) <= usize::MAX,
        (height - 1) * src_stride + width <= src@.len(),
    ensures
        tmp@.len() == width * (height + 6),
        forall|r: int, c: int| 0 <= r < height + 6 && 0 <= c < width ==>
            tmp@[#[trigger] raster(r, c, width as int)] == wtmp(src@, src_stride, width, height,
                hk@.map_values(|v: i16| v as int), r, c),
{
    let ghost hks = hk@.map_values(|v: i16| v as int);
    let slen: usize = src.len();
    let mut tmp: Vec<i16> = Vec::new();
    let mut r: usize = 0;
    while r < height + 6
        invariant
            r <= height + 6, width >= 1, 1 <= height <= 0x7fff_0000, width <= 0x7fff_0000,
            width * (height + 6) <= usize::MAX, slen == src@.len(),
            (height - 1) * src_stride + width <= src@.len(),
            hks == hk@.map_values(|v: i16| v as int),
            tmp@.len() == r * width,
            forall|rr: int, c: int| 0 <= rr < r && 0 <= c < width ==>
                tmp@[#[trigger] raster(rr, c, width as int)] == wtmp(src@, src_stride, width, height, hks, rr, c),
        decreases height + 6 - r,
    {
        let sr: i64 = r as i64 - 3;
        let src_r: usize = if sr < 0 { 0 } else if sr > height as i64 - 1 { height - 1 } else { sr as usize };
        let mut c: usize = 0;
        while c < width
            invariant
                r < height + 6, c <= width, width >= 1, 1 <= height <= 0x7fff_0000, width <= 0x7fff_0000,
                width * (height + 6) <= usize::MAX, slen == src@.len(),
                (height - 1) * src_stride + width <= src@.len(),
                hks == hk@.map_values(|v: i16| v as int),
                src_r == clampi(r - 3, 0, height - 1),
                tmp@.len() == r * width + c,
                forall|rr: int, cc: int| 0 <= rr < height + 6 && 0 <= cc < width && (rr < r || (rr == r && cc < c)) ==>
                    tmp@[#[trigger] raster(rr, cc, width as int)] == wtmp(src@, src_stride, width, height, hks, rr, cc),
            decreases width - c,
        {
            let mut sum: i64 = 0;
            let mut k: usize = 0;
            while k < 7
                invariant
                    k <= 7, c < width, width >= 1, 1 <= height, slen == src@.len(), width <= 0x7fff_0000,
                    (height - 1) * src_stride + width <= src@.len(),
                    hks == hk@.map_values(|v: i16| v as int),
                    src_r == clampi(r - 3, 0, height - 1),
                    sum == wh_sum(src@, src_stride, width, height, hks, r as int, c as int, k as int),
                decreases 7 - k,
            {
                let sc: i64 = c as i64 + k as i64 - 3;
                let scu: usize = if sc < 0 { 0 } else if sc > width as i64 - 1 { width - 1 } else { sc as usize };
                proof {
                    lemma_rpx_index(src@, src_stride, width, height, r - 3, c + k - 3);
                    assert forall|j: int| 0 <= j < 7 implies -32768 <= #[trigger] hks[j] <= 32767 by {}
                    lemma_wh_sum_bounds(src@, src_stride, width, height, hks, r as int, c as int, k as int);
                    lemma_wh_sum_bounds(src@, src_stride, width, height, hks, r as int, c as int, k as int + 1);
                }
                let pv: i64 = src[src_r * src_stride + scu] as i64;
                let tv: i64 = hk[k] as i64;
                assert(pv == rpx(src@, src_stride, width, height, r - 3, c + (k + 1) - 4));
                assert(tv == hks[k as int]);
                sum = sum + pv * tv;
                k = k + 1;
            }
            proof {
                assert forall|j: int| 0 <= j < 7 implies -32768 <= #[trigger] hks[j] <= 32767 by {}
                lemma_wh_sum_bounds(src@, src_stride, width, height, hks, r as int, c as int, 7);
            }
            let t: i64 = sum + 64;
            proof { lemma_i64_shr(t, 7); vstd::arithmetic::power2::lemma2_to64(); }
            let v: i16 = #[verifier::truncate] ((t >> 7) as i16);
            let ghost before = tmp@;
            tmp.push(v);
            proof {
                assert(raster(r as int, c as int, width as int) == r * width + c);
                assert forall|rr: int, cc: int| 0 <= rr < height + 6 && 0 <= cc < width
                    && (rr < r || (rr == r && cc < c + 1)) implies
                    tmp@[#[trigger] raster(rr, cc, width as int)] == wtmp(src@, src_stride, width, height, hks, rr, cc) by {
                    if rr < r || cc < c {
                        assert(raster(rr, cc, width as int) < r * width + c) by (nonlinear_arith)
                            requires raster(rr, cc, width as int) == rr * width + cc, 0 <= cc < width,
                            rr < r || (rr == r && cc < c);
                        assert(tmp@[raster(rr, cc, width as int)] == before[raster(rr, cc, width as int)]);
                    }
                }
            }
            c = c + 1;
        }
        assert(tmp@.len() == (r + 1) * width) by (nonlinear_arith) requires tmp@.len() == r * width + width;
        r = r + 1;
    }
    assert((height + 6) * width == width * (height + 6)) by (nonlinear_arith);
    tmp
}

/// Filter the `width` x `height` block of `src` into `dst` with the kernels of
/// `h_coeffs` (horizontal) and `v_coeffs` (vertical): every pixel is [`wiener_px`].
pub fn wiener_filter(src: &[u8], src_stride: usize, dst: &mut [u8], dst_stride: usize, width: usize, height: usize,
    h_coeffs: [i16; 3], v_coeffs: [i16; 3])
    requires
        kernel_ok(h_coeffs), kernel_ok(v_coeffs),
        width <= 0x7fff_0000, height <= 0x7fff_0000, width * (height + 6) <= usize::MAX,
        width > 0 ==> height >= 1,
        block_fits(old(dst)@.len(), dst_stride as nat, width as nat, height as nat),
        width > 0 ==> (height - 1) * src_stride + width <= src@.len(),
        wiener_fits(src@, src_stride, width, height, wiener_kernel(h_coeffs[0] as int, h_coeffs[1] as int,
            h_coeffs[2] as int), wiener_kernel(v_coeffs[0] as int, v_coeffs[1] as int, v_coeffs[2] as int)),
    ensures
        block_rows_written(final(dst)@, old(dst)@, dst_stride as nat, width as nat, height as nat,
            |r: int, c: int| wiener_px(src@, src_stride, width, height,
                wiener_kernel(h_coeffs[0] as int, h_coeffs[1] as int, h_coeffs[2] as int),
                wiener_kernel(v_coeffs[0] as int, v_coeffs[1] as int, v_coeffs[2] as int), r, c)),
        width <= dst_stride ==> block_written(final(dst)@, old(dst)@, dst_stride as nat, width as nat, height as nat,
            |r: int, c: int| wiener_px(src@, src_stride, width, height,
                wiener_kernel(h_coeffs[0] as int, h_coeffs[1] as int, h_coeffs[2] as int),
                wiener_kernel(v_coeffs[0] as int, v_coeffs[1] as int, v_coeffs[2] as int), r, c)),
{
    let ghost hks = wiener_kernel(h_coeffs[0] as int, h_coeffs[1] as int, h_coeffs[2] as int);
    let ghost vks = wiener_kernel(v_coeffs[0] as int, v_coeffs[1] as int, v_coeffs[2] as int);
    let ghost val = |r: int, c: int| wiener_px(src@, src_stride, width, height, hks, vks, r, c);
    if width == 0 {
        return;
    }
    let h_tap: [i16; 7] = build_wiener_kernel(h_coeffs);
    let v_tap: [i16; 7] = build_wiener_kernel(v_coeffs);
    assert(h_tap@.map_values(|v: i16| v as int) =~= hks);
    let tmp: Vec<i16> = wiener_rows(src, src_stride, width, height, &h_tap);
    let tlen: usize = tmp.len();
    let dlen: usize = dst.len();
    let mut r: usize = 0;
    while r < height
        invariant
            r <= height, width >= 1, dlen == dst@.len(), height <= 0x7fff_0000,
            width <= 0x7fff_0000, width * (height + 6) <= usize::MAX,
            tmp@.len() == width * (height + 6), tlen == tmp@.len(),
            forall|rr: int, c: int| 0 <= rr < height + 6 && 0 <= c < width ==>
                tmp@[#[trigger] raster(rr, c, width as int)] == wtmp(src@, src_stride, width, height, hks, rr, c),
            forall|k: int| 0 <= k < 7 ==> #[trigger] v_tap[k] == vks[k],
            wiener_fits(src@, src_stride, width, height, hks, vks),
            block_fits(old(dst)@.len(), dst_stride as nat, width as nat, height as nat),
            val == (|r: int, c: int| wiener_px(src@, src_stride, width, height, hks, vks, r, c)),
            dst@.len() == old(dst)@.len(),
            forall|i: int| 0 <= i < old(dst)@.len() ==>
                #[trigger] dst@[i] == rows_state(old(dst)@, dst_stride as nat, width as nat, val, r as int, i),
        decreases height - r,
    {
        let mut c: usize = 0;
        while c < width
            invariant
                r < height, c <= width, width >= 1, dlen == dst@.len(), height <= 0x7fff_0000,
                width <= 0x7fff_0000, width * (height + 6) <= usize::MAX,
                tmp@.len() == width * (height + 6), tlen == tmp@.len(),
                forall|rr: int, c: int| 0 <= rr < height + 6 && 0 <= c < width ==>
                    tmp@[#[trigger] raster(rr, c, width as int)] == wtmp(src@, src_stride, width, height, hks, rr, c),
                forall|k: int| 0 <= k < 7 ==> #[trigger] v_tap[k] == vks[k],
                wiener_fits(src@, src_stride, width, height, hks, vks),
                block_fits(old(dst)@.len(), dst_stride as nat, width as nat, height as nat),
                val == (|r: int, c: int| wiener_px(src@, src_stride, width, height, hks, vks, r, c)),
                dst@.len() == old(dst)@.len(),
                forall|i: int| 0 <= i < old(dst)@.len() ==> #[trigger] dst@[i]
                    == row_partial(old(dst)@, dst_stride as nat, width as nat, val, r as int, c as int, i),
            decreases width - c,
        {
            let mut sum: i64 = 0;
            let mut k: usize = 0;
            while k < 7
                invariant
                    k <= 7, r < height, c < width, width >= 1, tmp@.len() == width * (height + 6), tlen == tmp@.len(),
                    height <= 0x7fff_0000,
                    forall|rr: int, c: int| 0 <= rr < height + 6 && 0 <= c < width ==>
                        tmp@[#[trigger] raster(rr, c, width as int)] == wtmp(src@, src_stride, width, height, hks, rr, c),
                    forall|k: int| 0 <= k < 7 ==> #[trigger] v_tap[k] == vks[k],
                    wiener_fits(src@, src_stride, width, height, hks, vks),
                    sum == wv_sum(src@, src_stride, width, height, hks, vks, r as int, c as int, k as int),
                decreases 7 - k,
            {
                proof {
                    assert((r + k) * width + c < width * (height + 6)) by (nonlinear_arith)
                        requires r + k < height + 6, c < width, width >= 1;
                    assert(raster((r + k) as int, c as int, width as int) == (r + k) * width + c);
                    assert(i32::MIN <= wv_sum(src@, src_stride, width, height, hks, vks, r as int, c as int, k + 1)
                        <= i32::MAX);
                    assert(i32::MIN <= sum <= i32::MAX);
                }
                assert((r + k) * width + c < tlen);
                let t: i64 = tmp[(r + k) * width + c] as i64;
                let vt: i64 = v_tap[k] as i64;
                assert(t == wtmp(src@, src_stride, width, height, hks, (r + k) as int, c as int));
                sum = sum + t * vt;
                k = k + 1;
            }
            let s: i64 = sum + 64;
            proof { lemma_i64_shr(s, 7); vstd::arithmetic::power2::lemma2_to64(); }
            let q: i64 = s >> 7;
            let v: u8 = if q < 0 { 0 } else if q > 255 { 255 } else { q as u8 };
            proof {
                let dl = dst@.len();
                assert(r * dst_stride + c < dl) by (nonlinear_arith)
                    requires r < height, c < width, (height - 1) * dst_stride + width <= dl;
            }
            let ghost before = dst@;
            dst[r * dst_stride + c] = v;
            proof {
                assert(v == val(r as int, c as int));
                lemma_rows_write(dst@, before, old(dst)@, dst_stride as nat, width as nat, val, r as int, c as int);
            }
            c = c + 1;
        }
        proof { lemma_rows_done(dst@, old(dst)@, dst_stride as nat, width as nat, val, r as int); }
        r = r + 1;
    }
    proof {
        if width <= dst_stride {
            lemma_rows_block(dst@, old(dst)@, dst_stride as nat, width as nat, height as nat, val);
        }
    }
}

/// With every coefficient of magnitude at most 128, no sum of the filter leaves 32 bits.
pub proof fn lemma_small_coeffs_fit(src: Seq<u8>, stride: usize, w: usize, h: usize, hc: [i16; 3], vc: [i16; 3])
    requires
        -128 <= hc[0] <= 128, -128 <= hc[1] <= 128, -128 <= hc[2] <= 128,
        -128 <= vc[0] <= 128, -128 <= vc[1] <= 128, -128 <= vc[2] <= 128,
    ensures
        wiener_fits(src, stride, w, h, wiener_kernel(hc[0] as int, hc[1] as int, hc[2] as int),
            wiener_kernel(vc[0] as int, vc[1] as int, vc[2] as int)),
{
    let hk = wiener_kernel(hc[0] as int, hc[1] as int, hc[2] as int);
    let vk = wiener_kernel(vc[0] as int, vc[1] as int, vc[2] as int);
    assert forall|r: int, c: int, k: int| 0 <= r < h && 0 <= c < w && 0 <= k <= 7 implies
        i32::MIN <= #[trigger] wv_sum(src, stride, w, h, hk, vk, r, c, k) <= i32::MAX - 64 by {
        lemma_wv_sum_small(src, stride, w, h, hk, vk, r, c, k);
    }
}

proof fn lemma_wh_sum_small(src: Seq<u8>, stride: usize, w: usize, h: usize, hk: Seq<int>, r: int, c: int, k: int)
    requires 0 <= k <= 7, forall|j: int| 0 <= j < 7 ==> -896 <= #[trigger] hk[j] <= 896,
    ensures -228480 * k <= wh_sum(src, stride, w, h, hk, r, c, k) <= 228480 * k,
    decreases k,
{
    if k > 0 {
        lemma_wh_sum_small(src, stride, w, h, hk, r, c, k - 1);
        let v = rpx(src, stride, w, h, r - 3, c + k - 4);
        let t = hk[k - 1];
        assert(-896 <= t <= 896);
        assert(0 <= v <= 255);
        assert(-228480 <= v * t <= 228480) by (nonlinear_arith) requires 0 <= v <= 255, -896 <= t <= 896;
        assert(wh_sum(src, stride, w, h, hk, r, c, k) == wh_sum(src, stride, w, h, hk, r, c, k - 1) + v * t);
    }
}

proof fn lemma_wv_sum_small(src: Seq<u8>, stride: usize, w: usize, h: usize, hk: Seq<int>, vk: Seq<int>, r: int,
    c: int, k: int)
    requires
        0 <= k <= 7, hk.len() == 7, vk.len() == 7,
        forall|j: int| 0 <= j < 7 ==> -896 <= #[trigger] hk[j] <= 896,
        forall|j: int| 0 <= j < 7 ==> -896 <= #[trigger] vk[j] <= 896,
    ensures -11196416 * k <= wv_sum(src, stride, w, h, hk, vk, r, c, k) <= 11196416 * k,
    decreases k,
{
    if k > 0 {
        lemma_wv_sum_small(src, stride, w, h, hk, vk, r, c, k - 1);
        lemma_wh_sum_small(src, stride, w, h, hk, r + k - 1, c, 7);
        let s = wh_sum(src, stride, w, h, hk, r + k - 1, c, 7);
        assert(-12496 <= (s + 64) / 128 <= 12496);
        let t = wtmp(src, stride, w, h, hk, r + k - 1, c);
        assert(t == (s + 64) / 128);
        let x = vk[k - 1];
        assert(-896 <= x <= 896);
        assert(-11196416 <= t * x <= 11196416) by (nonlinear_arith) requires -12496 <= t <= 12496, -896 <= x <= 896;
    }
}

/// The coefficient candidates, in search order: `c0` over `[0, 1, 2, 3, 4, 5, 6, 8]`,
/// then `c1` over `0..5`, then `c2` over `0..3`.
pub open spec fn wiener_cand(j: int) -> (int, int, int) {
    (seq![0int, 1, 2, 3, 4, 5, 6, 8][j / 15], (j / 3) % 5, j % 3)
}

/// Squared error between `source` and the restored `degraded` over the first `cols`
/// pixels of row `r`.
pub open spec fn restore_row_sse(source: Seq<u8>, src_stride: usize, degraded: Seq<u8>, deg_stride: usize, w: usize,
    h: usize, k: Seq<int>, r: int, cols: int) -> int
    decreases cols,
{
    if cols <= 0 {
        0
    } else {
        let d = source[r * src_stride + cols - 1] - wiener_px(degraded, deg_stride, w, h, k, k, r, cols - 1);
        restore_row_sse(source, src_stride, degraded, deg_stride, w, h, k, r, cols - 1) + d * d
    }
}

/// Squared error of the restored block over its first `rows` rows.
pub open spec fn restore_sse(source: Seq<u8>, src_stride: usize, degraded: Seq<u8>, deg_stride: usize, w: usize,
    h: usize, k: Seq<int>, rows: int) -> int
    decreases rows,
{
    if rows <= 0 {
        0
    } else {
        restore_sse(source, src_stride, degraded, deg_stride, w, h, k, rows - 1)
            + restore_row_sse(source, src_stride, degraded, deg_stride, w, h, k, rows - 1, w as int)
    }
}

/// The best of the first `n` candidates: index and error of the first with the least
/// error (candidates whose center tap leaves `0..=128` skipped); `(-1, u64::MAX)`
/// before any.
pub open spec fn wiener_best(source: Seq<u8>, src_stride: usize, degraded: Seq<u8>, deg_stride: usize, w: usize,
    h: usize, n: int) -> (int, int)
    decreases n,
{
    if n <= 0 {
        (-1, u64::MAX as int)
    } else {
        let p = wiener_best(source, src_stride, degraded, deg_stride, w, h, n - 1);
        let (c0, c1, c2) = wiener_cand(n - 1);
        let center = 128 - 2 * (c0 + c1 + c2);
        if !(0 <= center <= 128) {
            p
        } else {
            let e = restore_sse(source, src_stride, degraded, deg_stride, w, h, wiener_kernel(c0, c1, c2), h as int);
            if e < p.1 { (n - 1, e) } else { p }
        }
    }
}

proof fn lemma_restore_row_bounds(source: Seq<u8>, src_stride: usize, degraded: Seq<u8>, deg_stride: usize, w: usize,
    h: usize, k: Seq<int>, r: int, cols: int)
    requires cols >= 0,
    ensures 0 <= restore_row_sse(source, src_stride, degraded, deg_stride, w, h, k, r, cols) <= 65025 * cols,
    decreases cols,
{
    if cols > 0 {
        lemma_restore_row_bounds(source, src_stride, degraded, deg_stride, w, h, k, r, cols - 1);
        let d = source[r * src_stride + cols - 1] - wiener_px(degraded, deg_stride, w, h, k, k, r, cols - 1);
        assert(0 <= d * d <= 65025) by (nonlinear_arith) requires -255 <= d <= 255;
    }
}

/// Error of the restoration with symmetric coefficients `c` (written to `buf`).
fn candidate_sse(source: &[u8], src_stride: usize, degraded: &[u8], deg_stride: usize, width: usize, height: usize,
    c: [i16; 3], buf: &mut Vec<u8>) -> (e: u64)
    requires
        0 <= c[0] <= 8, 0 <= c[1] <= 4, 0 <= c[2] <= 2,
        width >= 1, 1 <= height <= 0x7fff_0000, width <= 0x7fff_0000, width * (height + 6) <= usize::MAX,
        old(buf)@.len() == width * height,
        (height - 1) * src_stride + width <= source@.len(),
        (height - 1) * deg_stride + width <= degraded@.len(),
        width * height * 65025 <= u64::MAX,
    ensures
        final(buf)@.len() == width * height,
        e == restore_sse(source@, src_stride, degraded@, deg_stride, width, height,
            wiener_kernel(c[0] as int, c[1] as int, c[2] as int), height as int),
{
    let ghost k = wiener_kernel(c[0] as int, c[1] as int, c[2] as int);
    proof {
        lemma_small_coeffs_fit(degraded@, deg_stride, width, height, c, c);
        assert((height - 1) * width + width <= width * height) by (nonlinear_arith) requires height >= 1;
    }
    wiener_filter(degraded, deg_stride, buf.as_mut_slice(), width, width, height, c, c);
    let slen: usize = source.len();
    let blen: usize = buf.len();
    let mut sse: u64 = 0;
    let mut r: usize = 0;
    while r < height
        invariant
            r <= height, width >= 1, height >= 1, slen == source@.len(), blen == buf@.len(),
            buf@.len() == width * height, (height - 1) * src_stride + width <= source@.len(),
            width * height * 65025 <= u64::MAX,
            forall|rr: int, cc: int| 0 <= rr < height && 0 <= cc < width ==>
                buf@[#[trigger] raster(rr, cc, width as int)] == wiener_px(degraded@, deg_stride, width, height, k, k,
                rr, cc),
            sse == restore_sse(source@, src_stride, degraded@, deg_stride, width, height, k, r as int),
            sse <= 65025 * width * r,
        decreases height - r,
    {
        proof {
            assert(r * src_stride <= (height - 1) * src_stride) by (nonlinear_arith) requires r < height;
            assert(65025 * width * (r + 1) <= width * height * 65025) by (nonlinear_arith) requires r < height;
            assert(65025 * width * (r + 1) == 65025 * width * r + 65025 * width) by (nonlinear_arith);
        }
        let ghost base = sse as int;
        let mut c2: usize = 0;
        while c2 < width
            invariant
                r < height, c2 <= width, width >= 1, slen == source@.len(), blen == buf@.len(),
                buf@.len() == width * height, (height - 1) * src_stride + width <= source@.len(),
                r * src_stride + width <= source@.len(),
                forall|rr: int, cc: int| 0 <= rr < height && 0 <= cc < width ==>
                    buf@[#[trigger] raster(rr, cc, width as int)] == wiener_px(degraded@, deg_stride, width, height, k,
                    k, rr, cc),
                base == restore_sse(source@, src_stride, degraded@, deg_stride, width, height, k, r as int),
                base <= 65025 * width * r, 65025 * width * r + 65025 * width <= u64::MAX,
                sse == base + restore_row_sse(source@, src_stride, degraded@, deg_stride, width, height, k, r as int,
                    c2 as int),
            decreases width - c2,
        {
            proof {
                lemma_restore_row_bounds(source@, src_stride, degraded@, deg_stride, width, height, k, r as int,
                    c2 as int);
                assert(r * width + c2 < width * height) by (nonlinear_arith) requires r < height, c2 < width;
                assert(raster(r as int, c2 as int, width as int) == r * width + c2);
            }
            let s: i64 = source[r * src_stride + c2] as i64;
            let d: i64 = buf[r * width + c2] as i64;
            assert(0 <= (s - d) * (s - d) <= 65025) by (nonlinear_arith) requires 0 <= s <= 255, 0 <= d <= 255;
            sse = sse + ((s - d) * (s - d)) as u64;
            c2 = c2 + 1;
        }
        proof {
            lemma_restore_row_bounds(source@, src_stride, degraded@, deg_stride, width, height, k, r as int,
                width as int);
        }
        r = r + 1;
    }
    sse
}

/// The coefficients (the same for both directions) among the candidates of
/// [`wiener_cand`] whose restoration of `degraded` is closest to `source` in squared
/// error, the first on ties: [`wiener_best`]. With an empty block all errors are 0
/// and the first candidate, all zeros, is returned.
pub fn optimize_wiener_coefficients(source: &[u8], src_stride: usize, degraded: &[u8], deg_stride: usize,
    width: usize, height: usize) -> (r: ([i16; 3], [i16; 3]))
    requires
        width <= 0x7fff_0000, height <= 0x7fff_0000, width * (height + 6) <= usize::MAX,
        width > 0 ==> height >= 1,
        width > 0 ==> (height - 1) * src_stride + width <= source@.len()
            && (height - 1) * deg_stride + width <= degraded@.len(),
        width * height * 65025 < u64::MAX,
    ensures
        ({
            let b = wiener_best(source@, src_stride, degraded@, deg_stride, width, height, 120);
            let (c0, c1, c2) = if b.0 < 0 { (0, 0, 0) } else { wiener_cand(b.0) };
            &&& r.0[0] == c0 && r.0[1] == c1 && r.0[2] == c2
            &&& r.1[0] == c0 && r.1[1] == c1 && r.1[2] == c2
        }),
{
    let search_vals: [i16; 8] = [0, 1, 2, 3, 4, 5, 6, 8];
    let mut best_sse: u64 = u64::MAX;
    let mut best_h: [i16; 3] = [0, 0, 0];
    let mut best_v: [i16; 3] = [0, 0, 0];
    let ghost mut best_idx: int = -1;
    assert(width * height <= width * (height + 6)) by (nonlinear_arith);
    let mut tmp_dst: Vec<u8> = vec![0u8; width * height];
    let mut i: usize = 0;
    while i < 8
        invariant
            i <= 8, width <= 0x7fff_0000, height <= 0x7fff_0000, width * (height + 6) <= usize::MAX,
            width > 0 ==> height >= 1,
            width > 0 ==> (height - 1) * src_stride + width <= source@.len()
                && (height - 1) * deg_stride + width <= degraded@.len(),
            width * height * 65025 < u64::MAX,
            tmp_dst@.len() == width * height,
            search_vals@ == seq![0i16, 1, 2, 3, 4, 5, 6, 8],
            (best_idx, best_sse as int) == wiener_best(source@, src_stride, degraded@, deg_stride, width, height,
                15 * i),
            best_idx < 0 ==> best_h@ == seq![0i16, 0, 0],
            best_idx >= 0 ==> best_h[0] == wiener_cand(best_idx).0 && best_h[1] == wiener_cand(best_idx).1
                && best_h[2] == wiener_cand(best_idx).2,
            best_v@ == best_h@,
        decreases 8 - i,
    {
        let c0: i16 = search_vals[i];
        let mut c1: i16 = 0;
        while c1 < 5
            invariant
                i < 8, 0 <= c1 <= 5, width <= 0x7fff_0000, height <= 0x7fff_0000, width * (height + 6) <= usize::MAX,
                width > 0 ==> height >= 1,
                width > 0 ==> (height - 1) * src_stride + width <= source@.len()
                    && (height - 1) * deg_stride + width <= degraded@.len(),
                width * height * 65025 < u64::MAX,
                tmp_dst@.len() == width * height,
                search_vals@ == seq![0i16, 1, 2, 3, 4, 5, 6, 8], c0 == search_vals@[i as int],
                (best_idx, best_sse as int) == wiener_best(source@, src_stride, degraded@, deg_stride, width, height,
                    15 * i + 3 * c1),
                best_idx < 0 ==> best_h@ == seq![0i16, 0, 0],
                best_idx >= 0 ==> best_h[0] == wiener_cand(best_idx).0 && best_h[1] == wiener_cand(best_idx).1
                    && best_h[2] == wiener_cand(best_idx).2,
                best_v@ == best_h@,
            decreases 5 - c1,
        {
            let mut c2: i16 = 0;
            while c2 < 3
                invariant
                    i < 8, 0 <= c1 < 5, 0 <= c2 <= 3, width <= 0x7fff_0000, height <= 0x7fff_0000,
                    width * (height + 6) <= usize::MAX,
                    width > 0 ==> height >= 1,
                    width > 0 ==> (height - 1) * src_stride + width <= source@.len()
                        && (height - 1) * deg_stride + width <= degraded@.len(),
                    width * height * 65025 < u64::MAX,
                    tmp_dst@.len() == width * height,
                    search_vals@ == seq![0i16, 1, 2, 3, 4, 5, 6, 8], c0 == search_vals@[i as int],
                    (best_idx, best_sse as int) == wiener_best(source@, src_stride, degraded@, deg_stride, width,
                        height, 15 * i + 3 * c1 + c2),
                    best_idx < 0 ==> best_h@ == seq![0i16, 0, 0],
                    best_idx >= 0 ==> best_h[0] == wiener_cand(best_idx).0 && best_h[1] == wiener_cand(best_idx).1
                        && best_h[2] == wiener_cand(best_idx).2,
                    best_v@ == best_h@,
                decreases 3 - c2,
            {
                let ghost j: int = 15 * i + 3 * c1 + c2;
                proof {
                    assert(j / 15 == i && (j / 3) % 5 == c1 && j % 3 == c2) by (nonlinear_arith)
                        requires j == 15 * i + 3 * c1 + c2, 0 <= c1 < 5, 0 <= c2 < 3, i >= 0;
                    assert(wiener_cand(j) == (c0 as int, c1 as int, c2 as int));
                }
                let h_coeffs: [i16; 3] = [c0, c1, c2];
                let center: i16 = 128 - 2 * (c0 + c1 + c2);
                if 0 <= center && center <= 128 {
                    let sse: u64 = if width == 0 {
                        0
                    } else {
                        candidate_sse(source, src_stride, degraded, deg_stride, width, height, h_coeffs, &mut tmp_dst)
                    };
                    proof {
                        if width == 0 {
                            assert(restore_sse(source@, src_stride, degraded@, deg_stride, width, height,
                                wiener_kernel(c0 as int, c1 as int, c2 as int), height as int) == 0) by {
                                lemma_restore_zero_width(source@, src_stride, degraded@, deg_stride, width, height,
                                    wiener_kernel(c0 as int, c1 as int, c2 as int), height as int);
                            }
                        }
                    }
                    if sse < best_sse {
                        best_sse = sse;
                        best_h = h_coeffs;
                        best_v = h_coeffs;
                        proof { best_idx = j; }
                    }
                }
                c2 = c2 + 1;
            }
            c1 = c1 + 1;
        }
        i = i + 1;
    }
    (best_h, best_v)
}

proof fn lemma_restore_zero_width(source: Seq<u8>, src_stride: usize, degraded: Seq<u8>, deg_stride: usize, w: usize,
    h: usize, k: Seq<int>, rows: int)
    requires w == 0,
    ensures restore_sse(source, src_stride, degraded, deg_stride, w, h, k, rows) == 0,
    decreases rows,
{
    if rows > 0 {
        lemma_restore_zero_width(source, src_stride, degraded, deg_stride, w, h, k, rows - 1);
    }
}

} // verus!
