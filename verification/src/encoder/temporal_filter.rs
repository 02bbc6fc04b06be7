//! Temporal filtering: a frame averaged with co-located samples of neighbouring
//! frames, each weighted by its similarity to the center sample; and the Laplacian
//! statistics behind the noise estimate.
use vstd::prelude::*;

verus! {

/// The filtered frame.
#[derive(Debug)]
pub struct TfResult {
    /// Filtered luma samples, row by row.
    pub filtered: Vec<u8>,
    /// Frame width.
    pub width: usize,
    /// Frame height.
    pub height: usize,
}

/// Weight of a reference sample `diff` away from the center sample: the full
/// `ref_weight` below 4, three quarters below 16, half below 32, a quarter below 64,
/// else nothing.
pub open spec fn tf_similarity(diff: int, ref_weight: int) -> int {
    if diff < 4 { ref_weight } else if diff < 16 { ref_weight * 3 / 4 } else if diff < 32 { ref_weight / 2 }
    else if diff < 64 { ref_weight / 4 } else { 0 }
}

/// `|a - b|`.
pub open spec fn tf_abs(v: int) -> int {
    if v >= 0 { v } else { -v }
}

/// Weight of reference `j` at sample `pos`.
pub open spec fn tf_w(center: Seq<u8>, refs: Seq<Seq<u8>>, ref_weight: int, pos: int, j: int) -> int {
    tf_similarity(tf_abs(center[pos] - refs[j][pos]), ref_weight)
}

/// Weighted sum and total weight at sample `pos` after the first `k` references: the
/// center sample with weight 16, then each reference with its similarity weight
/// (nothing at all when `ref_weight` is 0).
pub open spec fn tf_acc(center: Seq<u8>, refs: Seq<Seq<u8>>, ref_weight: int, pos: int, k: int) -> (int, int)
    decreases k,
{
    if k <= 0 {
        (16 * center[pos], 16)
    } else {
        let p = tf_acc(center, refs, ref_weight, pos, k - 1);
        if ref_weight == 0 {
            p
        } else {
            let w = tf_w(center, refs, ref_weight, pos, k - 1);
            (p.0 + refs[k - 1][pos] * w, p.1 + w)
        }
    }
}

/// The filtered sample at `pos`: the weighted mean, rounded.
pub open spec fn tf_px(center: Seq<u8>, refs: Seq<Seq<u8>>, ref_weight: int, pos: int) -> int {
    let a = tf_acc(center, refs, ref_weight, pos, refs.len() as int);
    (a.0 + a.1 / 2) / a.1
}

/// The frames as sequences of samples.
pub open spec fn frames_view(refs: Seq<&[u8]>) -> Seq<Seq<u8>> {
    refs.map_values(|f: &[u8]| f@)
}

proof fn lemma_tf_acc_bounds(center: Seq<u8>, refs: Seq<Seq<u8>>, ref_weight: int, pos: int, k: int)
    requires 0 <= ref_weight, 0 <= k <= refs.len(),
    ensures
        ({ let a = tf_acc(center, refs, ref_weight, pos, k);
            16 <= a.1 && 0 <= a.0 <= 255 * a.1 }),
    decreases k,
{
    if k > 0 {
        lemma_tf_acc_bounds(center, refs, ref_weight, pos, k - 1);
        if ref_weight != 0 {
            let w = tf_w(center, refs, ref_weight, pos, k - 1);
            let v = refs[k - 1][pos] as int;
            assert(0 <= w);
            assert(0 <= v * w <= 255 * w) by (nonlinear_arith) requires 0 <= v <= 255, 0 <= w;
        }
    }
}

proof fn lemma_tf_acc_mono(center: Seq<u8>, refs: Seq<Seq<u8>>, ref_weight: int, pos: int, k: int, n: int)
    requires 0 <= ref_weight, 0 <= k <= n <= refs.len(),
    ensures
        tf_acc(center, refs, ref_weight, pos, k).0 <= tf_acc(center, refs, ref_weight, pos, n).0,
        tf_acc(center, refs, ref_weight, pos, k).1 <= tf_acc(center, refs, ref_weight, pos, n).1,
    decreases n - k,
{
    if k < n {
        lemma_tf_acc_mono(center, refs, ref_weight, pos, k + 1, n);
        if ref_weight != 0 {
            let w = tf_w(center, refs, ref_weight, pos, k);
            let v = refs[k][pos] as int;
            assert(0 <= v * w) by (nonlinear_arith) requires 0 <= v, 0 <= w;
        }
    }
}

/// The sums of every sample stay within 16 bits, rounding included.
pub open spec fn tf_fits(center: Seq<u8>, refs: Seq<Seq<u8>>, ref_weight: int, width: usize, height: usize,
    stride: usize) -> bool {
    forall|r: int, c: int| 0 <= r < height && 0 <= c < width ==> {
        let a = #[trigger] tf_acc(center, refs, ref_weight, r * stride + c, refs.len() as int);
        a.0 + a.1 / 2 <= u16::MAX && a.1 <= u16::MAX
    }
}

/// Whether the 16-bit sums of the sample at `pos` stay in range (see [`tf_fits`]).
fn tf_sample_fits(center_frame: &[u8], ref_frames: &[&[u8]], ref_weight: u16, pos: usize) -> (r: bool)
    requires
        pos < center_frame@.len(),
        ref_weight > 0 ==> forall|j: int| 0 <= j < ref_frames@.len() ==> pos < (#[trigger] ref_frames@[j])@.len(),
    ensures
        r == ({
            let a = tf_acc(center_frame@, frames_view(ref_frames@), ref_weight as int, pos as int,
                ref_frames@.len() as int);
            a.0 + a.1 / 2 <= u16::MAX && a.1 <= u16::MAX
        }),
{
    let ghost refs = frames_view(ref_frames@);
    let ghost rw = ref_weight as int;
    let center_val: u64 = center_frame[pos] as u64;
    let mut acc: u64 = 16 * center_val;
    let mut wsum: u64 = 16;
    let nrefs: usize = ref_frames.len();
    let mut k: usize = 0;
    while k < nrefs
        invariant
            k <= nrefs, nrefs == ref_frames@.len(), refs == frames_view(ref_frames@), rw == ref_weight,
            pos < center_frame@.len(), center_val == center_frame@[pos as int],
            ref_weight > 0 ==> forall|j: int| 0 <= j < ref_frames@.len() ==> pos < (#[trigger] ref_frames@[j])@.len(),
            acc == tf_acc(center_frame@, refs, rw, pos as int, k as int).0,
            wsum == tf_acc(center_frame@, refs, rw, pos as int, k as int).1,
            acc + wsum / 2 <= u16::MAX, wsum <= u16::MAX,
        decreases nrefs - k,
    {
        if ref_weight != 0 {
            let rf: &[u8] = ref_frames[k];
            assert(refs[k as int] == rf@);
            let ref_val: u64 = rf[pos] as u64;
            let diff: u64 = if center_val >= ref_val { center_val - ref_val } else { ref_val - center_val };
            let rwv: u64 = ref_weight as u64;
            let sw: u64 = if diff < 4 {
                rwv
            } else if diff < 16 {
                rwv * 3 / 4
            } else if diff < 32 {
                rwv / 2
            } else if diff < 64 {
                rwv / 4
            } else {
                0
            };
            assert(sw == tf_w(center_frame@, refs, rw, pos as int, k as int));
            assert(sw <= 65535);
            assert(ref_val * sw <= 255 * 65535) by (nonlinear_arith) requires ref_val <= 255, sw <= 65535;
            acc = acc + ref_val * sw;
            wsum = wsum + sw;
        }
        if acc + wsum / 2 > 65535 || wsum > 65535 {
            proof {
                lemma_tf_acc_mono(center_frame@, refs, rw, pos as int, k + 1, refs.len() as int);
            }
            return false;
        }
        k = k + 1;
    }
    true
}

/// Whether the 16-bit sums of [`temporal_filter_weighted`] stay in range for these
/// frames and weight: exactly [`tf_fits`].
pub fn tf_weights_fit(center_frame: &[u8], ref_frames: &[&[u8]], width: usize, height: usize, stride: usize,
    ref_weight: u16) -> (r: bool)
    requires
        width > 0 && height > 0 ==> (height - 1) * stride + width <= center_frame@.len(),
        ref_weight > 0 && width > 0 && height > 0 ==> forall|j: int| 0 <= j < ref_frames@.len() ==>
            (height - 1) * stride + width <= (#[trigger] ref_frames@[j])@.len(),
    ensures r == tf_fits(center_frame@, frames_view(ref_frames@), ref_weight as int, width, height, stride),
{
    let ghost refs = frames_view(ref_frames@);
    let clen: usize = center_frame.len();
    let mut r: usize = 0;
    while r < height
        invariant
            r <= height, refs == frames_view(ref_frames@), clen == center_frame@.len(),
            width > 0 && height > 0 ==> (height - 1) * stride + width <= center_frame@.len(),
            ref_weight > 0 && width > 0 && height > 0 ==> forall|j: int| 0 <= j < ref_frames@.len() ==>
                (height - 1) * stride + width <= (#[trigger] ref_frames@[j])@.len(),
            forall|rr: int, cc: int| 0 <= rr < r && 0 <= cc < width ==> {
                let a = #[trigger] tf_acc(center_frame@, refs, ref_weight as int, rr * stride + cc, refs.len() as int);
                a.0 + a.1 / 2 <= u16::MAX && a.1 <= u16::MAX
            },
        decreases height - r,
    {
        let mut c: usize = 0;
        while c < width
            invariant
                r < height, c <= width, refs == frames_view(ref_frames@), clen == center_frame@.len(),
                width > 0 ==> (height - 1) * stride + width <= center_frame@.len(),
                ref_weight > 0 && width > 0 ==> forall|j: int| 0 <= j < ref_frames@.len() ==>
                    (height - 1) * stride + width <= (#[trigger] ref_frames@[j])@.len(),
                forall|rr: int, cc: int| 0 <= rr < height && 0 <= cc < width && (rr < r || (rr == r && cc < c)) ==> {
                    let a = #[trigger] tf_acc(center_frame@, refs, ref_weight as int, rr * stride + cc, refs.len() as int);
                    a.0 + a.1 / 2 <= u16::MAX && a.1 <= u16::MAX
                },
            decreases width - c,
        {
            proof {
                assert(r * stride <= (height - 1) * stride) by (nonlinear_arith) requires r < height;
            }
            let pos: usize = r * stride + c;
            let ok: bool = tf_sample_fits(center_frame, ref_frames, ref_weight, pos);
            if !ok {
                proof {
                    let a = tf_acc(center_frame@, refs, ref_weight as int, r * stride + c, refs.len() as int);
                    assert(!(a.0 + a.1 / 2 <= u16::MAX && a.1 <= u16::MAX));
                }
                return false;
            }
            c = c + 1;
        }
        r = r + 1;
    }
    true
}

/// Temporal filter with the reference weight already chosen: sample `(r, c)` of the
/// result (row-major, `width` wide) is [`tf_px`] of the frames at `r * stride + c`.
pub fn temporal_filter_weighted(center_frame: &[u8], ref_frames: &[&[u8]], width: usize, height: usize,
    stride: usize, ref_weight: u16) -> (res: TfResult)
    requires
        width * height <= usize::MAX,
        width > 0 && height > 0 ==> (height - 1) * stride + width <= center_frame@.len(),
        ref_weight > 0 && width > 0 && height > 0 ==> forall|j: int| 0 <= j < ref_frames@.len() ==>
            (height - 1) * stride + width <= (#[trigger] ref_frames@[j])@.len(),
        ref_frames@.len() > 0 ==> ref_weight <= 21845,
        tf_fits(center_frame@, frames_view(ref_frames@), ref_weight as int, width, height, stride),
    ensures
        res.width == width, res.height == height,
        res.filtered@.len() == width * height,
        forall|r: int, c: int| 0 <= r < height && 0 <= c < width ==>
            res.filtered@[#[trigger] (r * width + c)] == tf_px(center_frame@, frames_view(ref_frames@),
                ref_weight as int, r * stride + c),
{
    let ghost refs = frames_view(ref_frames@);
    let ghost rw = ref_weight as int;
    let n: usize = width * height;
    let clen: usize = center_frame.len();
    let mut filtered: Vec<u16> = Vec::new();
    let mut weight_sum: Vec<u16> = Vec::new();
    let mut r: usize = 0;
    while r < height
        invariant
            r <= height, n == width * height, clen == center_frame@.len(),
            width > 0 && height > 0 ==> (height - 1) * stride + width <= center_frame@.len(),
            filtered@.len() == r * width, weight_sum@.len() == r * width,
            forall|rr: int, cc: int| 0 <= rr < r && 0 <= cc < width ==>
                filtered@[#[trigger] (rr * width + cc)] == tf_acc(center_frame@, refs, rw, rr * stride + cc, 0).0
                && weight_sum@[rr * width + cc] == 16,
        decreases height - r,
    {
        let mut c: usize = 0;
        while c < width
            invariant
                r < height, c <= width, n == width * height, clen == center_frame@.len(),
                width > 0 ==> (height - 1) * stride + width <= center_frame@.len(),
                filtered@.len() == r * width + c, weight_sum@.len() == r * width + c,
                forall|rr: int, cc: int| 0 <= rr < height && 0 <= cc < width && (rr < r || (rr == r && cc < c)) ==>
                    filtered@[#[trigger] (rr * width + cc)] == tf_acc(center_frame@, refs, rw, rr * stride + cc, 0).0
                    && weight_sum@[rr * width + cc] == 16,
            decreases width - c,
        {
            proof {
                assert(r * stride <= (height - 1) * stride) by (nonlinear_arith) requires r < height;
                assert(r * width + c == filtered@.len());
            }
            let v: u16 = center_frame[r * stride + c] as u16;
            let ghost bf = filtered@;
            let ghost bw = weight_sum@;
            filtered.push(v * 16);
            weight_sum.push(16);
            proof {
                assert forall|rr: int, cc: int| 0 <= rr < height && 0 <= cc < width && (rr < r || (rr == r && cc < c + 1))
                    implies filtered@[#[trigger] (rr * width + cc)] == tf_acc(center_frame@, refs, rw, rr * stride + cc,
                    0).0 && weight_sum@[rr * width + cc] == 16 by {
                    if rr < r || cc < c {
                        assert(rr * width + cc < r * width + c) by (nonlinear_arith)
                            requires 0 <= cc < width, rr < r || (rr == r && cc < c);
                        assert(filtered@[rr * width + cc] == bf[rr * width + cc]);
                        assert(weight_sum@[rr * width + cc] == bw[rr * width + cc]);
                    }
                }
            }
            c = c + 1;
        }
        assert(filtered@.len() == (r + 1) * width) by (nonlinear_arith) requires filtered@.len() == r * width + width;
        r = r + 1;
    }
    assert(filtered@.len() == n) by (nonlinear_arith) requires filtered@.len() == height * width, n == width * height;
    let nrefs: usize = ref_frames.len();
    let mut k: usize = 0;
    while k < nrefs
        invariant
            k <= nrefs, nrefs == ref_frames@.len(), refs == frames_view(ref_frames@), rw == ref_weight,
            n == width * height, clen == center_frame@.len(),
            width > 0 && height > 0 ==> (height - 1) * stride + width <= center_frame@.len(),
            ref_weight > 0 && width > 0 && height > 0 ==> forall|j: int| 0 <= j < ref_frames@.len() ==>
                (height - 1) * stride + width <= (#[trigger] ref_frames@[j])@.len(),
            nrefs > 0 ==> ref_weight <= 21845,
            tf_fits(center_frame@, refs, rw, width, height, stride),
            filtered@.len() == n, weight_sum@.len() == n,
            forall|rr: int, cc: int| 0 <= rr < height && 0 <= cc < width ==> {
                let a = tf_acc(center_frame@, refs, rw, rr * stride + cc, k as int);
                &&& filtered@[#[trigger] (rr * width + cc)] == a.0
                &&& weight_sum@[rr * width + cc] == a.1
            },
        decreases nrefs - k,
    {
        if ref_weight != 0 {
            let rf: &[u8] = ref_frames[k];
            let rlen: usize = rf.len();
            let mut r: usize = 0;
            while r < height
                invariant
                    k < nrefs, r <= height, ref_weight > 0, ref_weight <= 21845, nrefs == ref_frames@.len(),
                    refs == frames_view(ref_frames@), rw == ref_weight, rf == ref_frames@[k as int], rlen == rf@.len(),
                    n == width * height, clen == center_frame@.len(),
                    width > 0 && height > 0 ==> (height - 1) * stride + width <= center_frame@.len()
                        && (height - 1) * stride + width <= rf@.len(),
                    tf_fits(center_frame@, refs, rw, width, height, stride),
                    filtered@.len() == n, weight_sum@.len() == n,
                    forall|rr: int, cc: int| 0 <= rr < height && 0 <= cc < width ==> {
                        let a = tf_acc(center_frame@, refs, rw, rr * stride + cc, if rr < r { k + 1 } else { k as int });
                        &&& filtered@[#[trigger] (rr * width + cc)] == a.0
                        &&& weight_sum@[rr * width + cc] == a.1
                    },
                decreases height - r,
            {
                let mut c: usize = 0;
                while c < width
                    invariant
                        k < nrefs, r < height, c <= width, ref_weight > 0, ref_weight <= 21845,
                        nrefs == ref_frames@.len(), refs == frames_view(ref_frames@), rw == ref_weight,
                        rf == ref_frames@[k as int], rlen == rf@.len(), n == width * height, clen == center_frame@.len(),
                        width > 0 ==> (height - 1) * stride + width <= center_frame@.len()
                            && (height - 1) * stride + width <= rf@.len(),
                        tf_fits(center_frame@, refs, rw, width, height, stride),
                        filtered@.len() == n, weight_sum@.len() == n,
                        forall|rr: int, cc: int| 0 <= rr < height && 0 <= cc < width ==> {
                            let a = tf_acc(center_frame@, refs, rw, rr * stride + cc,
                                if rr < r || (rr == r && cc < c) { k + 1 } else { k as int });
                            &&& filtered@[#[trigger] (rr * width + cc)] == a.0
                            &&& weight_sum@[rr * width + cc] == a.1
                        },
                    decreases width - c,
                {
                    let ghost pos = r * stride + c;
                    proof {
                        assert(r * stride <= (height - 1) * stride) by (nonlinear_arith) requires r < height;
                        assert(r * width + c < n) by (nonlinear_arith) requires r < height, c < width, n == width * height;
                        assert(refs[k as int] == rf@);
                        lemma_tf_acc_bounds(center_frame@, refs, rw, pos, k as int + 1);
                        lemma_tf_acc_mono(center_frame@, refs, rw, pos, k as int + 1, refs.len() as int);
                        assert(filtered@[r * width + c] == tf_acc(center_frame@, refs, rw, pos, k as int).0);
                    }
                    let idx: usize = r * width + c;
                    let center_val: i32 = center_frame[r * stride + c] as i32;
                    let ref_val: i32 = rf[r * stride + c] as i32;
                    let diff: i32 = if center_val >= ref_val { center_val - ref_val } else { ref_val - center_val };
                    let sw: u16 = if diff < 4 {
                        ref_weight
                    } else if diff < 16 {
                        ref_weight * 3 / 4
                    } else if diff < 32 {
                        ref_weight / 2
                    } else if diff < 64 {
                        ref_weight / 4
                    } else {
                        0
                    };
                    assert(sw == tf_w(center_frame@, refs, rw, pos, k as int));
                    let fv: u16 = filtered[idx];
                    let wv: u16 = weight_sum[idx];
                    let ghost bf = filtered@;
                    let ghost bw = weight_sum@;
                    filtered.set(idx, fv + ref_val as u16 * sw);
                    weight_sum.set(idx, wv + sw);
                    proof {
                        assert forall|rr: int, cc: int| 0 <= rr < height && 0 <= cc < width implies {
                            let a = tf_acc(center_frame@, refs, rw, rr * stride + cc,
                                if rr < r || (rr == r && cc < c + 1) { k + 1 } else { k as int });
                            &&& filtered@[#[trigger] (rr * width + cc)] == a.0
                            &&& weight_sum@[rr * width + cc] == a.1
                        } by {
                            if rr != r || cc != c {
                                assert(rr * width + cc != r * width + c) by (nonlinear_arith)
                                    requires 0 <= cc < width, 0 <= c < width, rr != r || cc != c;
                                assert(0 <= rr * width + cc < n) by (nonlinear_arith)
                                    requires 0 <= rr < height, 0 <= cc < width, n == width * height;
                                assert(filtered@[rr * width + cc] == bf[rr * width + cc]);
                                assert(weight_sum@[rr * width + cc] == bw[rr * width + cc]);
                            }
                        }
                    }
                    c = c + 1;
                }
                r = r + 1;
            }
        }
        k = k + 1;
    }
    let mut output: Vec<u8> = Vec::new();
    let mut i: usize = 0;
    while i < n
        invariant
            i <= n, n == width * height, filtered@.len() == n, weight_sum@.len() == n,
            refs == frames_view(ref_frames@), rw == ref_weight, nrefs == ref_frames@.len(),
            tf_fits(center_frame@, refs, rw, width, height, stride),
            forall|rr: int, cc: int| 0 <= rr < height && 0 <= cc < width ==> {
                let a = tf_acc(center_frame@, refs, rw, rr * stride + cc, nrefs as int);
                &&& filtered@[#[trigger] (rr * width + cc)] == a.0
                &&& weight_sum@[rr * width + cc] == a.1
            },
            output@.len() == i,
            forall|j: int| 0 <= j < i ==> #[trigger] output@[j] == tf_px(center_frame@, refs, rw,
                (j / width as int) * stride + j % (width as int)),
        decreases n - i,
    {
        let ghost rr = i as int / width as int;
        let ghost cc = i as int % width as int;
        proof {
            assert(width > 0) by (nonlinear_arith) requires i < n, n == width * height;
            assert(i == rr * width + cc && 0 <= cc < width && 0 <= rr < height) by (nonlinear_arith)
                requires rr == i as int / width as int, cc == i as int % width as int, width > 0, i < n,
                n == width * height;
            lemma_tf_acc_bounds(center_frame@, refs, rw, rr * stride + cc, nrefs as int);
            assert(refs.len() == nrefs);
            assert(filtered@[rr * width + cc] == tf_acc(center_frame@, refs, rw, rr * stride + cc, nrefs as int).0);
            let a = tf_acc(center_frame@, refs, rw, rr * stride + cc, refs.len() as int);
            assert(a.0 + a.1 / 2 <= u16::MAX && a.1 <= u16::MAX);
        }
        let f: u16 = filtered[i];
        let w: u16 = weight_sum[i];
        let q: u16 = (f + w / 2) / w;
        proof {
            let (fi, wi, qi) = (f as int, w as int, q as int);
            assert(qi <= 255) by (nonlinear_arith) requires qi == (fi + wi / 2) / wi, fi <= 255 * wi, wi >= 16;
        }
        output.push(q as u8);
        i = i + 1;
    }
    proof {
        assert forall|r: int, c: int| 0 <= r < height && 0 <= c < width implies
            output@[#[trigger] (r * width + c)] == tf_px(center_frame@, refs, rw, r * stride + c) by {
            assert((r * width + c) / (width as int) == r && (r * width + c) % (width as int) == c) by (nonlinear_arith)
                requires 0 <= c < width, 0 <= r;
            assert(r * width + c < n) by (nonlinear_arith) requires r < height, c < width, n == width * height;
        }
    }
    TfResult { filtered: output, width, height }
}

/// Sum of `|4 x - top - bottom - left - right|` over the interior samples of rows
/// `1..rows` (columns `1..width - 1`).
pub open spec fn laplacian_rows(frame: Seq<u8>, width: usize, stride: usize, rows: int) -> int
    decreases rows,
{
    if rows <= 1 { 0 } else { laplacian_rows(frame, width, stride, rows - 1) + laplacian_row(frame, stride, rows - 1, width - 1) }
}

/// Laplacian magnitudes of row `r`, columns `1..cols`.
pub open spec fn laplacian_row(frame: Seq<u8>, stride: usize, r: int, cols: int) -> int
    decreases cols,
{
    if cols <= 1 {
        0
    } else {
        let c = cols - 1;
        let v = 4 * frame[r * stride + c] - frame[(r - 1) * stride + c] - frame[(r + 1) * stride + c]
            - frame[r * stride + c - 1] - frame[r * stride + c + 1];
        laplacian_row(frame, stride, r, cols - 1) + tf_abs(v)
    }
}

proof fn lemma_laplacian_row_bounds(frame: Seq<u8>, stride: usize, r: int, cols: int)
    requires cols >= 1,
    ensures 0 <= laplacian_row(frame, stride, r, cols) <= 1020 * (cols - 1),
    decreases cols,
{
    if cols > 1 {
        lemma_laplacian_row_bounds(frame, stride, r, cols - 1);
    }
}

/// The noise statistics of a frame: the total Laplacian magnitude over the interior
/// samples and their number.
pub fn laplacian_stats(frame: &[u8], width: usize, height: usize, stride: usize) -> (r: (u64, u64))
    requires
        height >= 1, height >= 3 ==> width >= 1,
        height >= 3 && width >= 3 ==> (height - 1) * stride + width <= frame@.len(),
        height * width * 1020 <= u64::MAX,
    ensures
        r.0 == (if height >= 3 && width >= 3 { laplacian_rows(frame@, width, stride, height - 1) } else { 0 }),
        r.1 == (if height >= 3 && width >= 3 { (height - 2) * (width - 2) } else { 0 }),
{
    let flen: usize = frame.len();
    let mut sum: u64 = 0;
    let mut count: u64 = 0;
    let mut r: usize = 1;
    while r < height - 1
        invariant
            1 <= r, r <= (if height >= 2 { height - 1 } else { 1 }), height >= 1, height >= 3 ==> width >= 1,
            flen == frame@.len(),
            height >= 3 && width >= 3 ==> (height - 1) * stride + width <= frame@.len(),
            height * width * 1020 <= u64::MAX,
            width >= 3 ==> sum == laplacian_rows(frame@, width, stride, r as int),
            width < 3 ==> sum == 0,
            count == (r - 1) * (if width >= 2 { width - 2 } else { 0 }),
            sum <= 1020 * (r - 1) * width,
        decreases height - r,
    {
        let ghost base = sum as int;
        let mut c: usize = 1;
        proof {
            assert(1020 * (r - 1) * width + 1020 * width <= height * width * 1020) by (nonlinear_arith)
                requires r < height - 1, width >= 1;
            assert(1020 * (r - 1) * width + 1020 * width == 1020 * r * width) by (nonlinear_arith);
            assert((r - 1) * (if width >= 2 { width - 2 } else { 0 }) + (if width >= 2 { width - 2 } else { 0 })
                == r * (if width >= 2 { width - 2 } else { 0 })) by (nonlinear_arith);
            assert(r * (if width >= 2 { width - 2 } else { 0 }) <= height * width) by (nonlinear_arith)
                requires r < height, width >= 1;
        }
        while c < width - 1
            invariant
                1 <= r < height - 1, 1 <= c, c <= width - 1 || width < 2, width < 2 ==> c == 1, width >= 1,
                flen == frame@.len(), height * width * 1020 <= u64::MAX,
                height >= 3 && width >= 3 ==> (height - 1) * stride + width <= frame@.len(),
                base <= 1020 * (r - 1) * width, 1020 * r * width <= u64::MAX,
                width >= 3 ==> sum == base + laplacian_row(frame@, stride, r as int, c as int),
                width < 3 ==> sum == base,
                sum <= base + 1020 * (c - 1),
                (r - 1) * (if width >= 2 { width - 2 } else { 0 }) + (if width >= 2 { width - 2 } else { 0 })
                    == r * (if width >= 2 { width - 2 } else { 0 }),
                count == (r - 1) * (if width >= 2 { width - 2 } else { 0 }) + (c - 1),
                r * (if width >= 2 { width - 2 } else { 0 }) <= height * width,
            decreases width - c,
        {
            proof {
                assert((r + 1) * stride <= (height - 1) * stride) by (nonlinear_arith) requires r + 1 <= height - 1;
                assert((r + 1) * stride == r * stride + stride && (r - 1) * stride + stride == r * stride)
                    by (nonlinear_arith);
                lemma_laplacian_row_bounds(frame@, stride, r as int, c as int);
            }
            let center: i32 = frame[r * stride + c] as i32 * 4;
            let top: i32 = frame[(r - 1) * stride + c] as i32;
            let bottom: i32 = frame[(r + 1) * stride + c] as i32;
            let left: i32 = frame[r * stride + c - 1] as i32;
            let right: i32 = frame[r * stride + c + 1] as i32;
            let lap: i32 = center - top - bottom - left - right;
            let mag: u64 = if lap >= 0 { lap as u64 } else { (-lap) as u64 };
            proof {
                assert(mag <= 1020);
                if width >= 3 {
                    assert(laplacian_row(frame@, stride, r as int, c + 1) == laplacian_row(frame@, stride, r as int,
                        c as int) + mag);
                }
                assert(1020 * (r - 1) * width + 1020 * c <= 1020 * r * width) by (nonlinear_arith)
                    requires c < width, r >= 1;
                assert(count + 1 <= r * (if width >= 2 { width - 2 } else { 0 })) by (nonlinear_arith)
                    requires count == (r - 1) * (if width >= 2 { width - 2 } else { 0 }) + (c - 1), c < width - 1;
            }
            sum = sum + mag;
            count = count + 1;
            c = c + 1;
        }
        proof {
            if width >= 3 {
                lemma_laplacian_row_bounds(frame@, stride, r as int, width - 1);
            }
        }
        r = r + 1;
    }
    proof {
        if height < 3 {
            assert(count == 0);
        }
    }
    (sum, count)
}

} // verus!
