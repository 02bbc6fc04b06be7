//! Intra block copy: predicting a block by copying an already reconstructed region
//! of the same frame, the validity of such a copy, and a search for one.
use vstd::prelude::*;
use crate::dsp::copy::{block_fits, block_written, block_rows_written, rows_state, row_partial, lemma_rows_write, lemma_rows_done, lemma_rows_block};
use crate::dsp::fwd_txfm::{lemma_i64_shr};
use crate::types::motion::Mv;

verus! {

/// Full-pel part of a 1/8-pel vector component (rounded down).
pub open spec fn fullpel(v: i16) -> int {
    (v as int) / 8
}

/// The copy source of a block at `(block_x, block_y)` with vector `mv` lies in the
/// frame, does not reach below the current superblock row, and does not overlap the
/// block.
pub open spec fn spec_valid_intrabc(mv: Mv, block_x: i32, block_y: i32, block_w: i32, block_h: i32,
    frame_width: i32, frame_height: i32, sb_row: i32) -> bool {
    let src_x = block_x + fullpel(mv.x);
    let src_y = block_y + fullpel(mv.y);
    &&& src_x >= 0 && src_y >= 0 && src_x + block_w <= frame_width && src_y + block_h <= frame_height
    &&& src_y + block_h <= sb_row * 64 + 64
    &&& (src_x + block_w <= block_x || src_x >= block_x + block_w || src_y + block_h <= block_y
        || src_y >= block_y + block_h)
}

fn fullpel_exec(v: i16) -> (r: i32)
    ensures r == fullpel(v), -4096 <= r <= 4095,
{
    proof { lemma_i64_shr(v as i64, 3); vstd::arithmetic::power2::lemma2_to64(); }
    ((v as i64) >> 3) as i32
}

/// Whether `mv` is a valid intra block copy vector (see [`spec_valid_intrabc`]).
pub fn is_valid_intrabc_mv(mv: Mv, block_x: i32, block_y: i32, block_w: i32, block_h: i32, frame_width: i32,
    frame_height: i32, sb_row: i32) -> (r: bool)
    requires
        i32::MIN <= block_x - 4096 && block_x + 4095 + block_w <= i32::MAX && block_x + block_w <= i32::MAX,
        i32::MIN <= block_y - 4096 && block_y + 4095 + block_h <= i32::MAX && block_y + block_h <= i32::MAX,
        block_x + 4095 <= i32::MAX, i32::MIN <= block_x - 4096 + block_w && i32::MIN <= block_x + block_w,
        block_y + 4095 <= i32::MAX, i32::MIN <= block_y - 4096 + block_h && i32::MIN <= block_y + block_h,
        sb_row * 64 + 64 <= i32::MAX, i32::MIN <= sb_row * 64,
    ensures r == spec_valid_intrabc(mv, block_x, block_y, block_w, block_h, frame_width, frame_height, sb_row),
{
    let src_x: i32 = block_x + fullpel_exec(mv.x);
    let src_y: i32 = block_y + fullpel_exec(mv.y);
    if src_x < 0 || src_y < 0 || src_x + block_w > frame_width || src_y + block_h > frame_height {
        return false;
    }
    if src_y + block_h > sb_row * 64 + 64 {
        return false;
    }
    src_x + block_w <= block_x || src_x >= block_x + block_w || src_y + block_h <= block_y
        || src_y >= block_y + block_h
}

/// Intra block copy prediction: the `width` x `height` block of `dst` receives the
/// reconstructed region at the block position moved by the full-pel part of `mv`.
pub fn predict_intrabc(recon: &[u8], recon_stride: usize, dst: &mut [u8], dst_stride: usize, block_x: usize,
    block_y: usize, mv: Mv, width: usize, height: usize)
    requires
        block_x <= 0x7fff_0000, block_y <= 0x7fff_0000,
        block_y + fullpel(mv.y) + height <= usize::MAX,
        block_x + fullpel(mv.x) >= 0, block_y + fullpel(mv.y) >= 0,
        height > 0 ==> (block_y + fullpel(mv.y) + height - 1) * recon_stride + block_x + fullpel(mv.x) + width
            <= recon@.len(),
        block_fits(old(dst)@.len(), dst_stride as nat, width as nat, height as nat),
    ensures
        block_rows_written(final(dst)@, old(dst)@, dst_stride as nat, width as nat, height as nat,
            |r: int, c: int| recon@[(block_y + fullpel(mv.y) + r) * recon_stride + block_x + fullpel(mv.x) + c]),
        width <= dst_stride ==> block_written(final(dst)@, old(dst)@, dst_stride as nat, width as nat, height as nat,
            |r: int, c: int| recon@[(block_y + fullpel(mv.y) + r) * recon_stride + block_x + fullpel(mv.x) + c]),
{
    let src_x: usize = (block_x as i32 + fullpel_exec(mv.x)) as usize;
    let src_y: usize = (block_y as i32 + fullpel_exec(mv.y)) as usize;
    let ghost val = |r: int, c: int| recon@[(block_y + fullpel(mv.y) + r) * recon_stride + block_x + fullpel(mv.x) + c];
    let rlen: usize = recon.len();
    let dlen: usize = dst.len();
    let mut r: usize = 0;
    while r < height
        invariant
            r <= height, rlen == recon@.len(), dlen == dst@.len(),
            src_x == block_x + fullpel(mv.x), src_y == block_y + fullpel(mv.y),
            src_y + height <= usize::MAX,
            height > 0 ==> (src_y + height - 1) * recon_stride + src_x + width <= recon@.len(),
            block_fits(old(dst)@.len(), dst_stride as nat, width as nat, height as nat),
            val == (|r: int, c: int| recon@[(block_y + fullpel(mv.y) + r) * recon_stride + block_x + fullpel(mv.x) + c]),
            dst@.len() == old(dst)@.len(),
            forall|i: int| 0 <= i < old(dst)@.len() ==>
                #[trigger] dst@[i] == rows_state(old(dst)@, dst_stride as nat, width as nat, val, r as int, i),
        decreases height - r,
    {
        proof {
            assert((src_y + r) * recon_stride + src_x + width <= recon@.len()) by (nonlinear_arith)
                requires r < height, (src_y + height - 1) * recon_stride + src_x + width <= recon@.len();
        }
        let src_offset: usize = (src_y + r) * recon_stride + src_x;
        let mut c: usize = 0;
        while c < width
            invariant
                r < height, c <= width, rlen == recon@.len(), dlen == dst@.len(),
                src_offset == (src_y + r) * recon_stride + src_x,
                src_x == block_x + fullpel(mv.x), src_y == block_y + fullpel(mv.y),
                src_offset + width <= recon@.len(),
                block_fits(old(dst)@.len(), dst_stride as nat, width as nat, height as nat),
                val == (|r: int, c: int| recon@[(block_y + fullpel(mv.y) + r) * recon_stride + block_x + fullpel(mv.x) + c]),
                dst@.len() == old(dst)@.len(),
                forall|i: int| 0 <= i < old(dst)@.len() ==> #[trigger] dst@[i]
                    == row_partial(old(dst)@, dst_stride as nat, width as nat, val, r as int, c as int, i),
            decreases width - c,
        {
            proof {
                let dl = dst@.len();
                assert(r * dst_stride + c < dl) by (nonlinear_arith)
                    requires r < height, c < width, (height - 1) * dst_stride + width <= dl;
            }
            let v: u8 = recon[src_offset + c];
            let ghost before = dst@;
            dst[r * dst_stride + c] = v;
            proof {
                assert(v == val(r as int, c as int));
                lemma_rows_write(dst@, before, old(dst)@, dst_stride as nat, width as nat, val, r as int, c as int);
            }
            c = c + 1;
        }
        proof { lemma_rows_done(dst@, old(dst)@, dst_stride as nat, width as nat, val, r as int); }
        r = r + 1;
    }
    proof {
        if width <= dst_stride {
            lemma_rows_block(dst@, old(dst)@, dst_stride as nat, width as nat, height as nat, val);
        }
    }
}

/// Sum of the `w` pixels of `s` from `start`.
pub open spec fn pixel_row_sum(s: Seq<u8>, start: int, w: int) -> int
    decreases w,
{
    if w <= 0 { 0 } else { pixel_row_sum(s, start, w - 1) + s[start + w - 1] }
}

/// Sum of the pixels of the `w` x `h` block of `s` at `off`.
pub open spec fn pixel_block_sum(s: Seq<u8>, off: int, stride: int, w: int, h: int) -> int
    decreases h,
{
    if h <= 0 { 0 } else { pixel_block_sum(s, off, stride, w, h - 1) + pixel_row_sum(s, off + (h - 1) * stride, w) }
}

/// The block hash: the pixel sum, wrapped to 32 bits.
pub open spec fn block_hash(s: Seq<u8>, off: int, stride: int, w: int, h: int) -> int {
    pixel_block_sum(s, off, stride, w, h) % 0x1_0000_0000
}

/// Width of a search candidate at column `sx`, cut at the frame's right edge.
pub open spec fn ib_cand_w(block_w: usize, frame_width: usize, sx: int) -> int {
    if block_w <= frame_width - sx { block_w as int } else { frame_width - sx }
}

/// Height of a search candidate at row `sy`, cut at the frame's bottom edge.
pub open spec fn ib_cand_h(block_h: usize, frame_height: usize, sy: int) -> int {
    if block_h <= frame_height - sy { block_h as int } else { frame_height - sy }
}

/// The candidate positions: every eighth row above the block, every eighth column
/// left of `frame_width - block_w`.
pub open spec fn ib_on_grid(block_y: usize, block_w: usize, frame_width: usize, sy: int, sx: int) -> bool {
    &&& 0 <= sy < block_y && sy % 8 == 0
    &&& 0 <= sx && sx + block_w < frame_width && sx % 8 == 0
}

/// Scan order of the search: row by row, left to right.
pub open spec fn ib_before(sy2: int, sx2: int, sy: int, sx: int) -> bool {
    sy2 < sy || (sy2 == sy && sx2 < sx)
}

/// The candidate at `(sy, sx)` passes the hash test: its hash is within
/// `4 * block_w * block_h` of the source block's.
pub open spec fn ib_matches(src: Seq<u8>, src_stride: usize, recon: Seq<u8>, recon_stride: usize, block_w: usize,
    block_h: usize, frame_width: usize, frame_height: usize, sy: int, sx: int) -> bool {
    let ch = block_hash(recon, sy * recon_stride + sx, recon_stride as int, ib_cand_w(block_w, frame_width, sx),
        ib_cand_h(block_h, frame_height, sy));
    let sh = block_hash(src, 0, src_stride as int, block_w as int, block_h as int);
    let d = if ch >= sh { ch - sh } else { sh - ch };
    d <= block_w * block_h * 4
}

/// The candidate at `(sy, sx)` lies inside `recon`.
pub open spec fn ib_cand_fits(len: int, recon_stride: usize, block_w: usize, block_h: usize, frame_width: usize,
    frame_height: usize, sy: int, sx: int) -> bool {
    let w = ib_cand_w(block_w, frame_width, sx);
    let h = ib_cand_h(block_h, frame_height, sy);
    &&& sy <= frame_height
    &&& sy * recon_stride + sx <= len
    &&& (w > 0 && h > 0 ==> sy * recon_stride + sx + (h - 1) * recon_stride + w <= len)
}

proof fn lemma_wrap_step(hash: u32, total: int, v: u8)
    requires total >= 0, hash == total % 0x1_0000_0000,
    ensures hash.wrapping_add(v as u32) == (total + v) % 0x1_0000_0000,
{
    assert((total + v) % 0x1_0000_0000 == ((total % 0x1_0000_0000) + v) % 0x1_0000_0000) by {
        vstd::arithmetic::div_mod::lemma_add_mod_noop(total, v as int, 0x1_0000_0000);
        vstd::arithmetic::div_mod::lemma_small_mod(v as nat, 0x1_0000_0000);
    }
}

proof fn lemma_block_index(off: int, r: int, c: int, stride: int, w: int, h: int, len: int)
    requires 0 <= r < h, 0 <= c < w, stride >= 0, off >= 0, off + (h - 1) * stride + w <= len,
    ensures off + r * stride + c < len, r * stride >= 0,
{
    assert(r * stride <= (h - 1) * stride) by (nonlinear_arith) requires r <= h - 1, stride >= 0;
    assert(r * stride >= 0) by (nonlinear_arith) requires r >= 0, stride >= 0;
}

proof fn lemma_pixel_sums_nonneg(s: Seq<u8>, off: int, stride: int, w: int, h: int)
    ensures pixel_block_sum(s, off, stride, w, h) >= 0,
    decreases h,
{
    if h > 0 {
        lemma_pixel_sums_nonneg(s, off, stride, w, h - 1);
        lemma_row_sum_nonneg(s, off + (h - 1) * stride, w);
    }
}

proof fn lemma_row_sum_nonneg(s: Seq<u8>, start: int, w: int)
    ensures pixel_row_sum(s, start, w) >= 0,
    decreases w,
{
    if w > 0 {
        lemma_row_sum_nonneg(s, start, w - 1);
    }
}

/// The 32-bit wrapping pixel sum of the `w` x `h` block of `s` at `off`.
fn compute_block_hash(s: &[u8], off: usize, stride: usize, w: usize, h: usize) -> (hash: u32)
    requires w > 0 && h > 0 ==> off + (h - 1) * stride + w <= s@.len(),
    ensures hash == block_hash(s@, off as int, stride as int, w as int, h as int),
{
    let slen: usize = s.len();
    let mut hash: u32 = 0;
    let mut r: usize = 0;
    while r < h
        invariant
            r <= h, slen == s@.len(), w > 0 && h > 0 ==> off + (h - 1) * stride + w <= s@.len(),
            hash == block_hash(s@, off as int, stride as int, w as int, r as int),
        decreases h - r,
    {
        let ghost base = pixel_block_sum(s@, off as int, stride as int, w as int, r as int);
        proof { lemma_pixel_sums_nonneg(s@, off as int, stride as int, w as int, r as int); }
        let mut c: usize = 0;
        while c < w
            invariant
                r < h, c <= w, slen == s@.len(), w > 0 ==> off + (h - 1) * stride + w <= s@.len(),
                base >= 0, base == pixel_block_sum(s@, off as int, stride as int, w as int, r as int),
                hash == (base + pixel_row_sum(s@, off + r * stride, c as int)) % 0x1_0000_0000,
            decreases w - c,
        {
            proof {
                lemma_block_index(off as int, r as int, c as int, stride as int, w as int, h as int, slen as int);
                lemma_row_sum_nonneg(s@, off + r * stride, c as int);
            }
            let v: u8 = s[off + r * stride + c];
            proof {
                lemma_wrap_step(hash, base + pixel_row_sum(s@, off + r * stride, c as int), v);
            }
            hash = hash.wrapping_add(v as u32);
            c = c + 1;
        }
        r = r + 1;
    }
    hash
}

/// SAD of the `w` x `h` blocks of `src` (at 0) and `recon` (at `off`).
fn clipped_sad(src: &[u8], src_stride: usize, recon: &[u8], off: usize, recon_stride: usize, w: usize, h: usize)
    -> (sad: u32)
    requires
        w * h * 255 < u32::MAX,
        w > 0 && h > 0 ==> (h - 1) * src_stride + w <= src@.len() && off + (h - 1) * recon_stride + w <= recon@.len(),
    ensures sad <= w * h * 255,
{
    let slen: usize = src.len();
    let rlen: usize = recon.len();
    let mut sad: u32 = 0;
    let mut r: usize = 0;
    while r < h
        invariant
            r <= h, slen == src@.len(), rlen == recon@.len(), w * h * 255 < u32::MAX,
            w > 0 && h > 0 ==> (h - 1) * src_stride + w <= src@.len() && off + (h - 1) * recon_stride + w <= recon@.len(),
            sad <= r * w * 255,
        decreases h - r,
    {
        assert((r + 1) * w * 255 <= w * h * 255) by (nonlinear_arith) requires r < h, w >= 0;
        assert((r + 1) * w * 255 == r * w * 255 + w * 255) by (nonlinear_arith);
        let mut c: usize = 0;
        while c < w
            invariant
                r < h, c <= w, slen == src@.len(), rlen == recon@.len(),
                w > 0 ==> (h - 1) * src_stride + w <= src@.len() && off + (h - 1) * recon_stride + w <= recon@.len(),
                (r + 1) * w * 255 <= w * h * 255, w * h * 255 < u32::MAX,
                (r + 1) * w * 255 == r * w * 255 + w * 255,
                sad <= r * w * 255 + c * 255,
            decreases w - c,
        {
            proof {
                lemma_block_index(0, r as int, c as int, src_stride as int, w as int, h as int, slen as int);
                lemma_block_index(off as int, r as int, c as int, recon_stride as int, w as int, h as int, rlen as int);
            }
            let a: i32 = src[r * src_stride + c] as i32;
            let b: i32 = recon[off + r * recon_stride + c] as i32;
            let d: u32 = if a >= b { (a - b) as u32 } else { (b - a) as u32 };
            sad = sad + d;
            c = c + 1;
        }
        r = r + 1;
    }
    assert(h * w * 255 == w * h * 255) by (nonlinear_arith);
    sad
}

/// Hash-based intra block copy search. Candidates are visited row by row, every
/// eighth row above the block and every eighth column; the first whose hash passes
/// the test of [`ib_matches`] gives the vector to it, in 1/8 pel. With none, the
/// result is `None`.
pub fn hash_search_intrabc(
    src: &[u8],
    src_stride: usize,
    recon: &[u8],
    recon_stride: usize,
    block_x: usize,
    block_y: usize,
    block_w: usize,
    block_h: usize,
    frame_width: usize,
    frame_height: usize,
) -> (r: Option<Mv>)
    requires
        block_w * block_h * 255 < u32::MAX,
        block_x <= 0x0fff_ffff, block_y <= 0x0fff_ffff, frame_width <= 0x0fff_ffff,
        block_w > 0 && block_h > 0 ==> (block_h - 1) * src_stride + block_w <= src@.len(),
        forall|sy: int, sx: int| ib_on_grid(block_y, block_w, frame_width, sy, sx) ==>
            #[trigger] ib_cand_fits(recon@.len() as int, recon_stride, block_w, block_h, frame_width, frame_height, sy, sx),
    ensures
        match r {
            Some(mv) => exists|sy: int, sx: int| {
                &&& ib_on_grid(block_y, block_w, frame_width, sy, sx)
                &&& #[trigger] ib_matches(src@, src_stride, recon@, recon_stride, block_w, block_h, frame_width,
                    frame_height, sy, sx)
                &&& forall|sy2: int, sx2: int| ib_on_grid(block_y, block_w, frame_width, sy2, sx2)
                    && ib_before(sy2, sx2, sy, sx) ==> !#[trigger] ib_matches(src@, src_stride, recon@, recon_stride,
                    block_w, block_h, frame_width, frame_height, sy2, sx2)
                &&& mv.x == ((sx - block_x) * 8) as i16
                &&& mv.y == ((sy - block_y) * 8) as i16
            },
            None => forall|sy: int, sx: int| ib_on_grid(block_y, block_w, frame_width, sy, sx) ==>
                !#[trigger] ib_matches(src@, src_stride, recon@, recon_stride, block_w, block_h, frame_width,
                frame_height, sy, sx),
        },
{
    let src_hash: u32 = compute_block_hash(src, 0, src_stride, block_w, block_h);
    assert(block_w * block_h * 4 <= block_w * block_h * 255) by (nonlinear_arith)
        requires block_w * block_h >= 0;
    assert(block_w * block_h >= 0) by (nonlinear_arith);
    let best_sad: u32 = u32::MAX;
    let bw32: u32 = #[verifier::truncate] (block_w as u32);
    let bh32: u32 = #[verifier::truncate] (block_h as u32);
    proof {
        if block_w > 0 && block_h > 0 {
            assert(block_w <= block_w * block_h && block_h <= block_w * block_h) by (nonlinear_arith)
                requires block_w > 0, block_h > 0;
            assert(bw32 == block_w && bh32 == block_h);
            assert(bw32 * bh32 == block_w * block_h);
        } else if block_w == 0 {
            assert(bw32 == 0);
            assert(bw32 * bh32 == 0) by (nonlinear_arith) requires bw32 == 0;
        } else {
            assert(bh32 == 0);
            assert(bw32 * bh32 == 0) by (nonlinear_arith) requires bh32 == 0;
        }
    }
    let prod: u32 = bw32 * bh32;
    let thr: u32 = prod * 4;
    let rlen: usize = recon.len();
    let limit: usize = frame_width.saturating_sub(block_w);
    let mut sy: usize = 0;
    while sy < block_y
        invariant
            sy % 8 == 0, sy <= block_y + 7, block_y <= 0x0fff_ffff, block_x <= 0x0fff_ffff,
            frame_width <= 0x0fff_ffff, rlen == recon@.len(), limit == (if frame_width >= block_w { frame_width - block_w } else { 0 }),
            thr == block_w * block_h * 4, src_hash == block_hash(src@, 0, src_stride as int, block_w as int,
                block_h as int),
            block_w * block_h * 255 < u32::MAX, best_sad == u32::MAX,
            block_w > 0 && block_h > 0 ==> (block_h - 1) * src_stride + block_w <= src@.len(),
            forall|sy: int, sx: int| ib_on_grid(block_y, block_w, frame_width, sy, sx) ==>
                #[trigger] ib_cand_fits(recon@.len() as int, recon_stride, block_w, block_h, frame_width,
                frame_height, sy, sx),
            forall|sy2: int, sx2: int| ib_on_grid(block_y, block_w, frame_width, sy2, sx2) && sy2 < sy ==>
                !#[trigger] ib_matches(src@, src_stride, recon@, recon_stride, block_w, block_h, frame_width,
                frame_height, sy2, sx2),
        decreases block_y + 8 - sy,
    {
        let mut sx: usize = 0;
        while sx < limit
            invariant
                sy % 8 == 0, sy < block_y, sx % 8 == 0, sx <= limit + 7, block_y <= 0x0fff_ffff,
                block_x <= 0x0fff_ffff, frame_width <= 0x0fff_ffff, rlen == recon@.len(),
                limit == (if frame_width >= block_w { frame_width - block_w } else { 0 }),
                thr == block_w * block_h * 4, src_hash == block_hash(src@, 0, src_stride as int, block_w as int,
                    block_h as int),
                block_w * block_h * 255 < u32::MAX, best_sad == u32::MAX,
                block_w > 0 && block_h > 0 ==> (block_h - 1) * src_stride + block_w <= src@.len(),
                forall|sy: int, sx: int| ib_on_grid(block_y, block_w, frame_width, sy, sx) ==>
                    #[trigger] ib_cand_fits(recon@.len() as int, recon_stride, block_w, block_h, frame_width,
                    frame_height, sy, sx),
                forall|sy2: int, sx2: int| ib_on_grid(block_y, block_w, frame_width, sy2, sx2)
                    && ib_before(sy2, sx2, sy as int, sx as int) ==> !#[trigger] ib_matches(src@, src_stride, recon@,
                    recon_stride, block_w, block_h, frame_width, frame_height, sy2, sx2),
            decreases limit + 8 - sx,
        {
            assert(ib_on_grid(block_y, block_w, frame_width, sy as int, sx as int));
            assert(ib_cand_fits(recon@.len() as int, recon_stride, block_w, block_h, frame_width, frame_height,
                sy as int, sx as int));
            let cw: usize = if block_w <= frame_width - sx { block_w } else { frame_width - sx };
            let ch: usize = if block_h <= frame_height - sy { block_h } else { frame_height - sy };
            assert(sy * recon_stride + sx <= rlen);
            let off: usize = sy * recon_stride + sx;
            let cand_hash: u32 = compute_block_hash(recon, off, recon_stride, cw, ch);
            let diff: u32 = if cand_hash >= src_hash { cand_hash - src_hash } else { src_hash - cand_hash };
            if diff <= thr {
                proof {
                    assert(cw * ch * 255 <= block_w * block_h * 255) by (nonlinear_arith)
                        requires cw <= block_w, ch <= block_h;
                    if cw > 0 && ch > 0 {
                        assert((ch - 1) * src_stride <= (block_h - 1) * src_stride) by (nonlinear_arith)
                            requires ch <= block_h;
                    }
                }
                let sad: u32 = clipped_sad(src, src_stride, recon, off, recon_stride, cw, ch);
                if sad < best_sad {
                    let mv_x: i32 = (sx as i32 - block_x as i32) * 8;
                    let mv_y: i32 = (sy as i32 - block_y as i32) * 8;
                    proof {
                        assert(ib_matches(src@, src_stride, recon@, recon_stride, block_w, block_h, frame_width,
                            frame_height, sy as int, sx as int));
                        assert(mv_x == (sx - block_x) * 8 && mv_y == (sy - block_y) * 8);
                    }
                    return Some(Mv { x: #[verifier::truncate] (mv_x as i16), y: #[verifier::truncate] (mv_y as i16) });
                }
            }
            sx = sx + 8;
        }
        assert forall|sy2: int, sx2: int| ib_on_grid(block_y, block_w, frame_width, sy2, sx2) && sy2 < sy + 8
            implies !#[trigger] ib_matches(src@, src_stride, recon@, recon_stride, block_w, block_h, frame_width,
            frame_height, sy2, sx2) by {
            assert(ib_before(sy2, sx2, sy as int, sx as int));
        }
        sy = sy + 8;
    }
    if best_sad < prod * 2 {
        Some(Mv::zero())
    } else {
        None
    }
}

} // verus!
