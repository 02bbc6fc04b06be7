//! Frame-level stages of the encoding pipeline that run after the superblock loop:
//! the in-loop filters over the whole reconstruction (deblocking of every block
//! edge, CDEF on every complete 8x8 block, Wiener and self-guided restoration) and
//! the assembly of the frame's OBUs.
use vstd::prelude::*;
use crate::dsp::loop_filter::deblock::{
    deblock_horz, deblock_horz_wide, deblock_vert, deblock_vert_14tap, deblock_vert_wide, derive_deblock_strength,
    select_deblock_filter_size, spec_deblock_level, lf4, lf8, lf14, vert4_rows, horz4_cols, vert8_rows,
    horz8_cols, vert14_rows, all_equal, lemma_deblock_flat_unchanged,
};
use crate::entropy::obu::{
    append, build_tile_group_single, obu_bytes, seq_header_obu, srgb_desc, kf_header_bits, inter_header_bits,
    tile_group_header, write_inter_frame, write_key_frame_header_full, write_obu, write_sequence_header,
    write_sequence_header_full, write_temporal_delimiter, ObuType,
};
use crate::entropy::bitwriter::packed;
use crate::dsp::loop_filter::cdef::{
    cdef_find_dir, cdef_filter_block, cdef_px, best_dir, cdef_mean, constrain_ok, lemma_cdef_flat_unchanged,
};
use crate::dsp::copy::{block_written, in_block, block_fits};
use crate::dsp::fwd_txfm::{raster, lemma_raster_divmod};
use crate::dsp::loop_filter::restoration::{
    optimize_wiener_coefficients, wiener_filter, wiener_best, wiener_cand, wiener_kernel, wiener_px,
    lemma_small_coeffs_fit,
};
use crate::dsp::loop_filter::sgrproj::{sgrproj_filter, SgrprojParams, sgr_px, sgr_params_ok};
use crate::encoder::speed_config::SpeedConfig;
use crate::entropy::obu::with_trailing;

verus! {

/// Deblocking threshold of a quantizer: `min(2 * level + 4, 127)`.
pub open spec fn deblock_threshold(qp: u8) -> int {
    let l = spec_deblock_level(qp);
    if 2 * l + 4 < 127 { 2 * l + 4 } else { 127 }
}

/// Filter size of an edge (see `select_deblock_filter_size`).
pub open spec fn deblock_size(is_sb_edge: bool, qp: u8) -> u8 {
    if is_sb_edge && qp >= 20 { 14 } else if is_sb_edge || qp >= 10 { 8 } else { 4 }
}

/// The picture after filtering the vertical edge at column `8 * bx` over `h` rows: the
/// 14-tap filter on a superblock edge with seven samples on each side, else the
/// 8-tap filter where the size asks for it and four samples lie on each side, else
/// the 4-tap filter; nothing at strength 0.
pub open spec fn vert_edge_filtered(px: Seq<u8>, w: usize, h: usize, qp: u8, sb_size: usize, bx: nat) -> Seq<u8> {
    let edge = (8 * bx) as usize;
    let t = deblock_threshold(qp);
    let fs = deblock_size(edge % sb_size == 0, qp);
    if spec_deblock_level(qp) == 0 {
        px
    } else if fs == 14 && edge >= 7 && edge + 7 <= w {
        vert14_rows(px, w, t, edge, h, 0)
    } else if fs == 8 && edge >= 4 && edge + 4 <= w {
        vert8_rows(px, w, t, edge, h, 0)
    } else {
        vert4_rows(px, w, t, edge, h, 0)
    }
}

/// The picture after filtering the horizontal edge at row `8 * by` over `w` columns:
/// the 8-tap filter where the size asks for 8 or more taps and four rows lie on each
/// side, else the 4-tap filter; nothing at strength 0.
pub open spec fn horz_edge_filtered(px: Seq<u8>, w: usize, h: usize, qp: u8, sb_size: usize, by: nat) -> Seq<u8> {
    let edge = (8 * by) as usize;
    let t = deblock_threshold(qp);
    let fs = deblock_size(edge % sb_size == 0, qp);
    if spec_deblock_level(qp) == 0 {
        px
    } else if fs == 8 && edge >= 4 && edge + 4 <= h {
        horz8_cols(px, w, t, edge, w, 0)
    } else {
        horz4_cols(px, w, t, edge, w, 0)
    }
}

/// The picture after the vertical edges `1..k` (in steps of eight columns), left to right.
pub open spec fn vert_edges_upto(px: Seq<u8>, w: usize, h: usize, qp: u8, sb_size: usize, k: nat) -> Seq<u8>
    decreases k,
{
    if k <= 1 { px } else {
        vert_edge_filtered(vert_edges_upto(px, w, h, qp, sb_size, (k - 1) as nat), w, h, qp, sb_size, (k - 1) as nat)
    }
}

/// The picture after the horizontal edges `1..k` (in steps of eight rows), top to bottom.
pub open spec fn horz_edges_upto(px: Seq<u8>, w: usize, h: usize, qp: u8, sb_size: usize, k: nat) -> Seq<u8>
    decreases k,
{
    if k <= 1 { px } else {
        horz_edge_filtered(horz_edges_upto(px, w, h, qp, sb_size, (k - 1) as nat), w, h, qp, sb_size, (k - 1) as nat)
    }
}

/// The deblocked picture: every interior vertical edge on the 8-column grid, then every
/// interior horizontal edge on the 8-row grid.
pub open spec fn deblocked_frame(px: Seq<u8>, w: usize, h: usize, qp: u8, sb_size: usize) -> Seq<u8> {
    horz_edges_upto(vert_edges_upto(px, w, h, qp, sb_size, (w / 8) as nat), w, h, qp, sb_size, (h / 8) as nat)
}

/// The 4-tap filter keeps the picture's length.
proof fn lemma_vert4_len(p: Seq<u8>, stride: usize, t: int, edge: usize, height: usize, r: int)
    requires r >= 0, edge >= 1, height > r ==> (height - 1) * stride + edge < p.len(),
    ensures vert4_rows(p, stride, t, edge, height, r).len() == p.len(),
    decreases height - r,
{
    if r < height {
        let b = r * stride + edge;
        assert(r * stride <= (height - 1) * stride) by (nonlinear_arith) requires r <= height - 1, r >= 0;
        let q = lf4(p, b, 1, t);
        assert(q.len() == p.len());
        lemma_vert4_len(q, stride, t, edge, height, r + 1);
    }
}

/// The 4-tap filter keeps the picture's length.
proof fn lemma_horz4_len(p: Seq<u8>, stride: usize, t: int, edge: usize, width: usize, c: int)
    requires c >= 0, edge >= 1, width > c ==> edge * stride + width - 1 < p.len(),
    ensures horz4_cols(p, stride, t, edge, width, c).len() == p.len(),
    decreases width - c,
{
    if c < width {
        let b = edge * stride + c;
        assert(edge * stride >= stride) by (nonlinear_arith) requires edge >= 1;
        let q = lf4(p, b, stride as int, t);
        assert(q.len() == p.len());
        lemma_horz4_len(q, stride, t, edge, width, c + 1);
    }
}

/// The 8-tap filter keeps the picture's length.
proof fn lemma_vert8_len(p: Seq<u8>, stride: usize, t: int, edge: usize, height: usize, r: int)
    requires r >= 0, edge >= 4,
    ensures vert8_rows(p, stride, t, edge, height, r).len() == p.len(),
    decreases height - r,
{
    if !(r >= height || r * stride + edge + 4 > p.len()) {
        assert(r * stride >= 0) by (nonlinear_arith) requires r >= 0;
        let q = lf8(p, r * stride + edge, 1, t);
        assert(q.len() == p.len());
        lemma_vert8_len(q, stride, t, edge, height, r + 1);
    }
}

/// The 8-tap filter keeps the picture's length.
proof fn lemma_horz8_len(p: Seq<u8>, stride: usize, t: int, edge: usize, width: usize, c: int)
    requires c >= 0, edge >= 4,
    ensures horz8_cols(p, stride, t, edge, width, c).len() == p.len(),
    decreases width - c,
{
    if !(c >= width || (edge + 3) * stride + c >= p.len()) {
        let b = edge * stride + c;
        assert(edge * stride >= 4 * stride) by (nonlinear_arith) requires edge >= 4;
        assert((edge + 3) * stride == edge * stride + 3 * stride) by (nonlinear_arith);
        let q = lf8(p, b, stride as int, t);
        assert(q.len() == p.len());
        lemma_horz8_len(q, stride, t, edge, width, c + 1);
    }
}

/// The 14-tap filter keeps the picture's length.
proof fn lemma_vert14_len(p: Seq<u8>, stride: usize, t: int, edge: usize, height: usize, r: int)
    requires r >= 0, edge >= 7,
    ensures vert14_rows(p, stride, t, edge, height, r).len() == p.len(),
    decreases height - r,
{
    if !(r >= height || r * stride + edge + 7 > p.len()) {
        assert(r * stride >= 0) by (nonlinear_arith) requires r >= 0;
        let q = lf14(p, r * stride + edge, t);
        assert(q.len() == p.len()) by { reveal(lf14); }
        lemma_vert14_len(q, stride, t, edge, height, r + 1);
    }
}

/// Filtering keeps a flat picture flat.
proof fn lemma_edges_flat(px: Seq<u8>, v: u8, w: usize, h: usize, qp: u8, sb_size: usize, k: nat, vertical: bool)
    requires
        all_equal(px, v), px.len() == w * h, sb_size > 0,
        vertical ==> k <= w / 8,
        !vertical ==> k <= h / 8,
    ensures
        vertical ==> vert_edges_upto(px, w, h, qp, sb_size, k) == px,
        !vertical ==> horz_edges_upto(px, w, h, qp, sb_size, k) == px,
    decreases k,
{
    if k > 1 {
        lemma_edges_flat(px, v, w, h, qp, sb_size, (k - 1) as nat, vertical);
        let t = deblock_threshold(qp);
        let e = (8 * (k - 1)) as nat;
        if vertical {
            assert(e + 8 <= w) by (nonlinear_arith) requires e == 8 * (k - 1), k <= w / 8, k >= 2;
            if h > 0 {
                assert((h - 1) * w + e + 1 < w * h) by (nonlinear_arith) requires e + 8 <= w, h >= 1;
            }
            lemma_deblock_flat_unchanged(px, v, w, t, e as usize, h);
        } else {
            assert(e + 8 <= h) by (nonlinear_arith) requires e == 8 * (k - 1), k <= h / 8, k >= 2;
            if w > 0 {
                assert((e + 1) * w + w - 1 < w * h) by (nonlinear_arith) requires e + 8 <= h, w >= 1;
            }
            lemma_deblock_flat_unchanged(px, v, w, t, e as usize, w);
        }
    }
}

/// Deblocking law: a flat frame (every sample the same) comes out of the frame's
/// deblocking pass unchanged, whatever the quantizer.
pub proof fn lemma_deblock_frame_flat(px: Seq<u8>, v: u8, w: usize, h: usize, qp: u8, sb_size: usize)
    requires all_equal(px, v), px.len() == w * h, sb_size > 0,
    ensures deblocked_frame(px, w, h, qp, sb_size) == px,
{
    lemma_edges_flat(px, v, w, h, qp, sb_size, (w / 8) as nat, true);
    lemma_edges_flat(px, v, w, h, qp, sb_size, (h / 8) as nat, false);
}

/// Deblock the reconstruction of a `w` x `h` frame (row stride `w`) with the filters
/// that quantizer `qp` selects: all interior vertical edges on the 8-column grid left
/// to right, then all interior horizontal edges on the 8-row grid top to bottom. Edges
/// on the `sb_size` grid are superblock edges.
#[verifier::rlimit(40)]
pub fn deblock_frame(recon: &mut Vec<u8>, w: usize, h: usize, qp: u8, sb_size: usize)
    requires
        old(recon)@.len() == w * h,
        sb_size > 0,
    ensures
        final(recon)@ == deblocked_frame(old(recon)@, w, h, qp, sb_size),
        final(recon)@.len() == old(recon)@.len(),
{
    let (strength, threshold) = derive_deblock_strength(qp);
    let n: usize = recon.len();
    let ghost p0 = recon@;
    let nv: usize = w / 8;
    let mut bx: usize = 1;
    proof { assert(recon@ == vert_edges_upto(p0, w, h, qp, sb_size, 1)); }
    while bx < nv
        invariant
            1 <= bx, nv == w / 8,
            bx <= nv || nv == 0,
            nv == 0 ==> bx == 1,
            sb_size > 0,
            strength == spec_deblock_level(qp),
            threshold == deblock_threshold(qp),
            recon@.len() == w * h, w * h == n,
            recon@ == vert_edges_upto(p0, w, h, qp, sb_size, bx as nat),
        decreases nv - bx,
    {
        let edge_col: usize = bx * 8;
        let is_sb_edge: bool = edge_col % sb_size == 0;
        let fs: u8 = select_deblock_filter_size(is_sb_edge, qp);
        let ghost before = recon@;
        proof {
            assert(edge_col + 8 <= w) by (nonlinear_arith) requires edge_col == bx * 8, bx < nv, nv == w / 8;
            if h > 0 {
                assert((h - 1) * w + edge_col + 8 <= w * h) by (nonlinear_arith)
                    requires edge_col + 8 <= w, h >= 1;
            }
            assert(threshold >= 0);
        }
        if fs == 14 && edge_col >= 7 && edge_col + 7 <= w {
            deblock_vert_14tap(recon.as_mut_slice(), w, strength, threshold, edge_col, h);
            proof { if strength != 0 { lemma_vert14_len(before, w, threshold as int, edge_col, h, 0); } }
        } else if fs == 8 && edge_col >= 4 && edge_col + 4 <= w {
            deblock_vert_wide(recon.as_mut_slice(), w, strength, threshold, edge_col, h);
            proof { if strength != 0 { lemma_vert8_len(before, w, threshold as int, edge_col, h, 0); } }
        } else {
            deblock_vert(recon.as_mut_slice(), w, strength, threshold, edge_col, h);
            proof { if strength != 0 { lemma_vert4_len(before, w, threshold as int, edge_col, h, 0); } }
        }
        proof {
            assert(recon@ == vert_edge_filtered(before, w, h, qp, sb_size, bx as nat));
        }
        bx = bx + 1;
    }
    let ghost mid = recon@;
    proof {
        if nv >= 1 {
            assert(bx == nv);
        } else {
            assert(bx == 1);
            assert(vert_edges_upto(p0, w, h, qp, sb_size, 0) == p0);
            assert(vert_edges_upto(p0, w, h, qp, sb_size, 1) == p0);
        }
        assert(mid == vert_edges_upto(p0, w, h, qp, sb_size, nv as nat));
        assert(mid == horz_edges_upto(mid, w, h, qp, sb_size, 1));
    }
    let nh: usize = h / 8;
    let mut by: usize = 1;
    while by < nh
        invariant
            1 <= by, nh == h / 8,
            by <= nh || nh == 0,
            nh == 0 ==> by == 1,
            sb_size > 0,
            strength == spec_deblock_level(qp),
            threshold == deblock_threshold(qp),
            recon@.len() == w * h, w * h == n,
            recon@ == horz_edges_upto(mid, w, h, qp, sb_size, by as nat),
        decreases nh - by,
    {
        let edge_row: usize = by * 8;
        let is_sb_edge: bool = edge_row % sb_size == 0;
        let fs: u8 = select_deblock_filter_size(is_sb_edge, qp);
        let ghost before = recon@;
        proof {
            assert(edge_row + 8 <= h) by (nonlinear_arith) requires edge_row == by * 8, by < nh, nh == h / 8;
            if w > 0 {
                assert((edge_row + 4) * w <= w * h) by (nonlinear_arith) requires edge_row + 8 <= h;
                assert((edge_row + 3) * w + w == (edge_row + 4) * w) by (nonlinear_arith);
                assert((edge_row + 1) * w + w - 1 < w * h) by (nonlinear_arith) requires edge_row + 8 <= h, w >= 1;
            }
            assert(threshold >= 0);
        }
        if fs == 8 && edge_row >= 4 && edge_row + 4 <= h {
            deblock_horz_wide(recon.as_mut_slice(), w, strength, threshold, edge_row, w);
            proof { if strength != 0 { lemma_horz8_len(before, w, threshold as int, edge_row, w, 0); } }
        } else {
            deblock_horz(recon.as_mut_slice(), w, strength, threshold, edge_row, w);
            proof {
                if strength != 0 && w > 0 {
                    assert(edge_row * w + w - 1 < w * h) by (nonlinear_arith) requires edge_row + 8 <= h, w >= 1;
                    lemma_horz4_len(before, w, threshold as int, edge_row, w, 0);
                }
            }
        }
        proof {
            assert(recon@ == horz_edge_filtered(before, w, h, qp, sb_size, by as nat));
        }
        by = by + 1;
    }
    proof {
        if nh >= 1 {
            assert(by == nh);
        } else {
            assert(horz_edges_upto(mid, w, h, qp, sb_size, 0) == mid);
        }
    }
}


/// The OBUs of one coded frame. A key frame: a temporal delimiter, the sequence
/// header (the still-picture form for a single-frame stream, else the full form),
/// and a frame OBU holding the key-frame header and a single-tile group around
/// `tile_data`. Any other frame: one frame OBU holding the inter-frame header
/// (quantizer, refresh flags, order hint) and `tile_data`.
pub open spec fn frame_obus(is_key: bool, single_frame: bool, width: u32, height: u32, qp: u8,
    refresh_frame_flags: u8, order_hint: u8, tile_data: Seq<u8>) -> Seq<u8>
{
    if is_key {
        obu_bytes(2, Seq::empty()) + seq_header_obu(width, height, single_frame, 8, srgb_desc())
            + obu_bytes(6, packed(with_trailing(kf_header_bits(width, height, qp, single_frame)))
                + (tile_group_header() + tile_data))
    } else {
        obu_bytes(6, packed(with_trailing(inter_header_bits(qp, refresh_frame_flags, order_hint))) + tile_data)
    }
}

/// Assemble the OBUs of one coded frame (see [`frame_obus`]).
pub fn write_frame_obus(is_key: bool, single_frame: bool, width: u32, height: u32, qp: u8,
    refresh_frame_flags: u8, order_hint: u8, tile_data: &[u8]) -> (r: Vec<u8>)
    requires width >= 2, height >= 2,
    ensures r@ == frame_obus(is_key, single_frame, width, height, qp, refresh_frame_flags, order_hint, tile_data@),
{
    if is_key {
        let mut bs: Vec<u8> = Vec::new();
        let td = write_temporal_delimiter();
        append(&mut bs, td.as_slice());
        let sh = if single_frame {
            write_sequence_header(width, height)
        } else {
            write_sequence_header_full(width, height)
        };
        append(&mut bs, sh.as_slice());
        let fh = write_key_frame_header_full(width, height, qp, single_frame);
        let tg = build_tile_group_single(tile_data);
        let mut payload: Vec<u8> = Vec::new();
        append(&mut payload, fh.as_slice());
        append(&mut payload, tg.as_slice());
        let fo = write_obu(ObuType::Frame, payload.as_slice());
        append(&mut bs, fo.as_slice());
        proof {
            assert(bs@ =~= frame_obus(is_key, single_frame, width, height, qp, refresh_frame_flags, order_hint,
                tile_data@));
        }
        bs
    } else {
        write_inter_frame(qp, refresh_frame_flags, order_hint, tile_data)
    }
}


/// CDEF primary strength of a quantizer: `min(qp / 8, 15)`.
pub open spec fn cdef_pri(qp: u8) -> i32 { if qp / 8 < 15 { (qp / 8) as i32 } else { 15 } }

/// CDEF secondary strength of a quantizer: `min(qp / 16, 3)`.
pub open spec fn cdef_sec(qp: u8) -> i32 { if qp / 16 < 3 { (qp / 16) as i32 } else { 3 } }

/// CDEF damping of a quantizer: `3 + qp / 16`.
pub open spec fn cdef_damping(qp: u8) -> i32 { (3 + qp / 16) as i32 }

/// Sample `i` of the CDEF-filtered frame: inside a complete 8x8 block (on the 8-grid),
/// the block filtered along its dominant direction with the quantizer's strengths,
/// reading the unfiltered frame; elsewhere unchanged.
pub open spec fn cdef_frame_px(px: Seq<u8>, w: usize, h: usize, qp: u8, i: int) -> u8 {
    let r = i / (w as int);
    let c = i % (w as int);
    let y0 = (r / 8) * 8;
    let x0 = (c / 8) * 8;
    if x0 + 8 <= w && y0 + 8 <= h {
        let src = px.subrange(y0 * w + x0, px.len() as int);
        cdef_px(src, w, best_dir(src, w, cdef_mean(src, w), 8).0 as u8, cdef_pri(qp), cdef_sec(qp),
            cdef_damping(qp), 8, 8, r - y0, c - x0)
    } else {
        px[i]
    }
}

/// The CDEF-filtered frame.
pub open spec fn cdef_frame(px: Seq<u8>, w: usize, h: usize, qp: u8) -> Seq<u8> {
    Seq::new(px.len(), |i: int| cdef_frame_px(px, w, h, qp, i))
}

/// Sample `i` lies in an 8x8 block before block `(by, bx)` in raster order.
pub open spec fn cdef_done(i: int, w: usize, by: int, bx: int) -> bool {
    let rb = (i / (w as int)) / 8;
    let cb = (i % (w as int)) / 8;
    rb < by || (rb == by && cb < bx)
}

/// The filtered buffer after the blocks before `(by, bx)`.
pub open spec fn cdef_progress(f: Seq<u8>, px: Seq<u8>, w: usize, h: usize, qp: u8, by: int, bx: int) -> bool {
    &&& f.len() == px.len()
    &&& forall|i: int| 0 <= i < px.len() ==>
        #[trigger] f[i] == (if cdef_done(i, w, by, bx) { cdef_frame_px(px, w, h, qp, i) } else { px[i] })
}

/// Row and column of a sample, and the sample as a raster position.
proof fn lemma_rc(i: int, w: int)
    requires w > 0, i >= 0,
    ensures i == (i / w) * w + i % w, 0 <= i % w < w, i / w >= 0,
{
    vstd::arithmetic::div_mod::lemma_fundamental_div_mod(i, w);
    assert((i / w) * w == w * (i / w)) by (nonlinear_arith);
    assert(i / w >= 0) by (nonlinear_arith) requires i >= 0, w > 0;
}

/// Filtering block `(by, bx)` (complete or not) advances the progress by one block.
#[verifier::rlimit(60)]
proof fn lemma_cdef_block_step(f_old: Seq<u8>, f_new: Seq<u8>, px: Seq<u8>, w: usize, h: usize, qp: u8,
    by: int, bx: int)
    requires
        w > 0, px.len() == w * h, 0 <= by, 0 <= bx, bx * 8 < w,
        cdef_progress(f_old, px, w, h, qp, by, bx),
        f_new.len() == f_old.len(),
        !(bx * 8 + 8 <= w && by * 8 + 8 <= h) ==> f_new == f_old,
        bx * 8 + 8 <= w && by * 8 + 8 <= h ==> ({
            let off = (by * 8) * w + bx * 8;
            let src = px.subrange(off, px.len() as int);
            let val = |r: int, c: int| cdef_px(src, w, best_dir(src, w, cdef_mean(src, w), 8).0 as u8, cdef_pri(qp),
                cdef_sec(qp), cdef_damping(qp), 8, 8, r, c);
            &&& forall|i: int| 0 <= i < off ==> #[trigger] f_new[i] == f_old[i]
            &&& block_written(f_new.subrange(off, f_new.len() as int), f_old.subrange(off, f_old.len() as int),
                w as nat, 8, 8, val)
        }),
    ensures cdef_progress(f_new, px, w, h, qp, by, bx + 1),
{
    let wi = w as int;
    let full = bx * 8 + 8 <= w && by * 8 + 8 <= h;
    assert forall|i: int| 0 <= i < px.len() implies
        #[trigger] f_new[i] == (if cdef_done(i, w, by, bx + 1) { cdef_frame_px(px, w, h, qp, i) } else { px[i] }) by {
        lemma_rc(i, wi);
        let r = i / wi;
        let c = i % wi;
        let here = r / 8 == by && c / 8 == bx;
        assert(f_old[i] == (if cdef_done(i, w, by, bx) { cdef_frame_px(px, w, h, qp, i) } else { px[i] }));
        if !here {
            if full {
                let off = (by * 8) * wi + bx * 8;
                if i >= off {
                    let j = i - off;
                    if in_block(j, w as nat, 8, 8) {
                        let q = j / wi;
                        let m = j % wi;
                        lemma_rc(j, wi);
                        assert(i == (by * 8 + q) * wi + (bx * 8 + m)) by (nonlinear_arith)
                            requires i == off + j, j == q * wi + m, off == (by * 8) * wi + bx * 8;
                        lemma_raster_divmod(by * 8 + q, bx * 8 + m, wi);
                        assert(false);
                    }
                    assert(f_new.subrange(off, f_new.len() as int)[j] == f_old.subrange(off, f_old.len() as int)[j]);
                }
            }
        } else {
            assert(!cdef_done(i, w, by, bx));
            assert(f_old[i] == px[i]);
            if full {
                let off = (by * 8) * wi + bx * 8;
                let rr = r - by * 8;
                let cc = c - bx * 8;
                assert(0 <= rr < 8 && 0 <= cc < 8);
                assert(raster(rr, cc, wi) == i - off) by (nonlinear_arith)
                    requires i == r * wi + c, rr == r - by * 8, cc == c - bx * 8, off == (by * 8) * wi + bx * 8,
                        raster(rr, cc, wi) == rr * wi + cc;
                assert(i >= off);
                assert(f_new[i] == f_new.subrange(off, f_new.len() as int)[raster(rr, cc, wi)]);
            } else {
                assert(cdef_frame_px(px, w, h, qp, i) == px[i]);
            }
        }
    }
}

/// CDEF law: a flat frame (every sample the same) comes out of the CDEF pass
/// unchanged, whatever the quantizer.
pub proof fn lemma_cdef_frame_flat(px: Seq<u8>, v: u8, w: usize, h: usize, qp: u8)
    requires all_equal(px, v), px.len() == w * h,
    ensures cdef_frame(px, w, h, qp) == px,
{
    assert forall|i: int| 0 <= i < px.len() implies #[trigger] cdef_frame(px, w, h, qp)[i] == px[i] by {
        if w > 0 {
            let wi = w as int;
            lemma_rc(i, wi);
            let r = i / wi;
            let c = i % wi;
            let y0 = (r / 8) * 8;
            let x0 = (c / 8) * 8;
            if x0 + 8 <= w && y0 + 8 <= h {
                let off = y0 * wi + x0;
                let src = px.subrange(off, px.len() as int);
                assert(off + 7 * wi + 8 <= (y0 + 8) * wi) by (nonlinear_arith)
                    requires off == y0 * wi + x0, x0 + 8 <= wi;
                assert((y0 + 8) * wi <= h * wi) by (nonlinear_arith) requires y0 + 8 <= h, wi > 0;
                assert(h * wi == w * h) by (nonlinear_arith) requires wi == w;
                assert(off + 7 * wi + 8 <= px.len());
                assert(0 <= r - y0 < 8 && 0 <= c - x0 < 8) by (nonlinear_arith)
                    requires y0 == (r / 8) * 8, x0 == (c / 8) * 8, r >= 0, c >= 0;
                lemma_cdef_flat_unchanged(src, v, w, best_dir(src, w, cdef_mean(src, w), 8).0 as u8, cdef_pri(qp),
                    cdef_sec(qp), cdef_damping(qp), 8, 8, r - y0, c - x0);
            }
        }
    }
    assert(cdef_frame(px, w, h, qp) =~= px);
}

/// Apply CDEF to every complete 8x8 block of a `w` x `h` frame (row stride `w`),
/// reading the unfiltered frame: the direction of each block, then the filter with
/// primary strength `min(qp / 8, 15)`, secondary strength `min(qp / 16, 3)` and
/// damping `3 + qp / 16`. Incomplete blocks at the right and bottom stay as they are.
#[verifier::rlimit(60)]
pub fn cdef_frame_pass(recon: &Vec<u8>, w: usize, h: usize, qp: u8) -> (r: Vec<u8>)
    requires recon@.len() == w * h,
    ensures r@ == cdef_frame(recon@, w, h, qp),
{
    let n: usize = recon.len();
    let mut filtered: Vec<u8> = vstd::slice::slice_to_vec(recon.as_slice());
    if w == 0 {
        proof { assert(filtered@ =~= cdef_frame(recon@, w, h, qp)); }
        return filtered;
    }
    let pri: i32 = if qp / 8 < 15 { (qp / 8) as i32 } else { 15 };
    let sec: i32 = if qp / 16 < 3 { (qp / 16) as i32 } else { 3 };
    let damping: i32 = 3 + (qp / 16) as i32;
    proof {
        assert(constrain_ok(pri, damping)) by {
            crate::dsp::loop_filter::cdef::lemma_floor_log2_pos(pri as u32);
        }
        assert(constrain_ok(sec, damping)) by {
            crate::dsp::loop_filter::cdef::lemma_floor_log2_pos(sec as u32);
        }
    }
    let blocks_x: usize = w / 8 + (if w % 8 == 0 { 0 } else { 1 });
    let blocks_y: usize = h / 8 + (if h % 8 == 0 { 0 } else { 1 });
    proof {
        assert forall|i: int| 0 <= i < n implies #[trigger] filtered@[i]
            == (if cdef_done(i, w, 0, 0) { cdef_frame_px(recon@, w, h, qp, i) } else { recon@[i] }) by {
            lemma_rc(i, w as int);
        }
    }
    let mut by: usize = 0;
    while by < blocks_y
        invariant
            w > 0, n == w * h, recon@.len() == n,
            blocks_x == w / 8 + (if w % 8 == 0 { 0int } else { 1 }),
            blocks_y == h / 8 + (if h % 8 == 0 { 0int } else { 1 }),
            by <= blocks_y,
            pri == cdef_pri(qp), sec == cdef_sec(qp), damping == cdef_damping(qp),
            constrain_ok(pri, damping), constrain_ok(sec, damping),
            cdef_progress(filtered@, recon@, w, h, qp, by as int, 0),
        decreases blocks_y - by,
    {
        let mut bx: usize = 0;
        while bx < blocks_x
            invariant
                w > 0, n == w * h, recon@.len() == n,
                blocks_x == w / 8 + (if w % 8 == 0 { 0int } else { 1 }),
                blocks_y == h / 8 + (if h % 8 == 0 { 0int } else { 1 }),
                by < blocks_y, bx <= blocks_x,
                pri == cdef_pri(qp), sec == cdef_sec(qp), damping == cdef_damping(qp),
                constrain_ok(pri, damping), constrain_ok(sec, damping),
                cdef_progress(filtered@, recon@, w, h, qp, by as int, bx as int),
            decreases blocks_x - bx,
        {
            proof {
                assert(bx * 8 < w) by (nonlinear_arith)
                    requires bx < blocks_x, blocks_x == w / 8 + (if w % 8 == 0 { 0int } else { 1 }), w > 0;
                assert(by * 8 < h) by (nonlinear_arith)
                    requires by < blocks_y, blocks_y == h / 8 + (if h % 8 == 0 { 0int } else { 1 });
            }
            let x0: usize = bx * 8;
            let y0: usize = by * 8;
            let ghost f_old = filtered@;
            if w - x0 >= 8 && h - y0 >= 8 {
                proof {
                    assert(y0 * w + x0 + 7 * w + 8 <= n) by (nonlinear_arith)
                        requires x0 + 8 <= w, y0 + 8 <= h, n == w * h;
                }
                let off: usize = y0 * w + x0;
                let src: &[u8] = vstd::slice::slice_subrange(recon.as_slice(), off, n);
                let (dir, _var) = cdef_find_dir(src, w);
                let (head, dst) = filtered.as_mut_slice().split_at_mut(off);
                let ghost head_v = head@;
                let ghost dst_old = dst@;
                cdef_filter_block(src, w, dst, w, dir, pri, sec, damping, 8, 8);
                let ghost dst_new = dst@;
                proof {
                    assert(head_v == f_old.subrange(0, off as int));
                    assert(dst_old == f_old.subrange(off as int, n as int));
                }
                proof {
                    assert(filtered@ == head_v + dst_new);
                    assert(filtered@.subrange(off as int, n as int) =~= dst_new);
                    assert(forall|i: int| 0 <= i < off ==> #[trigger] filtered@[i] == f_old[i]);
                    assert(src@ == recon@.subrange(off as int, n as int));
                    assert(dir == best_dir(src@, w, cdef_mean(src@, w), 8).0 as u8);
                }
            }
            proof {
                lemma_cdef_block_step(f_old, filtered@, recon@, w, h, qp, by as int, bx as int);
            }
            bx = bx + 1;
        }
        proof {
            assert forall|i: int| 0 <= i < n implies cdef_done(i, w, by as int, bx as int)
                == cdef_done(i, w, by as int + 1, 0) by {
                lemma_rc(i, w as int);
                let c = i % (w as int);
                assert(c / 8 < blocks_x) by (nonlinear_arith)
                    requires 0 <= c < w, blocks_x == w / 8 + (if w % 8 == 0 { 0int } else { 1 });
            }
            assert forall|i: int| 0 <= i < n implies #[trigger] filtered@[i]
                == (if cdef_done(i, w, by as int + 1, 0) { cdef_frame_px(recon@, w, h, qp, i) } else { recon@[i] }) by {
                assert(filtered@[i] == (if cdef_done(i, w, by as int, bx as int) {
                    cdef_frame_px(recon@, w, h, qp, i) } else { recon@[i] }));
            }
        }
        by = by + 1;
    }
    proof {
        assert forall|i: int| 0 <= i < n implies #[trigger] filtered@[i] == cdef_frame(recon@, w, h, qp)[i] by {
            lemma_rc(i, w as int);
            let r = i / (w as int);
            assert(r < h) by (nonlinear_arith) requires i == r * w + i % (w as int), 0 <= i % (w as int), i < w * h, w > 0;
            assert(r / 8 < blocks_y) by (nonlinear_arith)
                requires 0 <= r < h, blocks_y == h / 8 + (if h % 8 == 0 { 0int } else { 1 });
            assert(cdef_done(i, w, blocks_y as int, 0));
        }
        assert(filtered@ =~= cdef_frame(recon@, w, h, qp));
    }
    filtered
}


/// A full-frame block write holds `val` at every sample.
proof fn lemma_full_frame_written(new: Seq<u8>, old: Seq<u8>, w: usize, h: usize, val: spec_fn(int, int) -> u8)
    requires w > 0, old.len() == w * h, block_written(new, old, w as nat, w as nat, h as nat, val),
    ensures new == Seq::new(old.len(), |i: int| val(i / (w as int), i % (w as int))),
{
    let wi = w as int;
    assert forall|i: int| 0 <= i < old.len() implies #[trigger] new[i] == val(i / wi, i % wi) by {
        lemma_rc(i, wi);
        let r = i / wi;
        assert(r < h) by (nonlinear_arith) requires i == r * wi + i % wi, 0 <= i % wi, i < w * h, wi == w, w > 0;
        assert(raster(r, i % wi, wi) == i);
    }
    assert(new =~= Seq::new(old.len(), |i: int| val(i / wi, i % wi)));
}

/// The Wiener coefficients chosen for the frame: the best symmetric candidate, or all
/// zero when none is admissible.
pub open spec fn wiener_choice(source: Seq<u8>, recon: Seq<u8>, w: usize, h: usize) -> (int, int, int) {
    let b = wiener_best(source, w, recon, w, w, h, 120);
    if b.0 < 0 { (0, 0, 0) } else { wiener_cand(b.0) }
}

/// The frame after Wiener restoration with the chosen coefficients in both directions.
pub open spec fn wiener_frame(source: Seq<u8>, recon: Seq<u8>, w: usize, h: usize) -> Seq<u8> {
    let (c0, c1, c2) = wiener_choice(source, recon, w, h);
    let k = wiener_kernel(c0, c1, c2);
    Seq::new(recon.len(), |i: int| wiener_px(recon, w, w, h, k, k, i / (w as int), i % (w as int)))
}

/// The best candidate index lies before the candidates searched.
proof fn lemma_wiener_best_range(source: Seq<u8>, recon: Seq<u8>, w: usize, h: usize, n: int)
    ensures -1 <= wiener_best(source, w, recon, w, w, h, n).0 < (if n > 0 { n } else { 0 }),
    decreases n,
{
    if n > 0 {
        lemma_wiener_best_range(source, recon, w, h, n - 1);
    }
}

/// Restore the frame with the Wiener filter whose symmetric coefficients best match
/// `source` (see [`wiener_frame`]).
#[verifier::rlimit(40)]
pub fn wiener_frame_pass(source: &[u8], recon: &Vec<u8>, w: usize, h: usize) -> (r: Vec<u8>)
    requires
        recon@.len() == w * h,
        w * h <= source@.len(),
        w <= 0x7fff_0000, h <= 0x7fff_0000, w * (h + 6) <= usize::MAX,
        w * h * 65025 < u64::MAX,
    ensures r@ == wiener_frame(source@, recon@, w, h),
{
    let mut restored: Vec<u8> = vstd::slice::slice_to_vec(recon.as_slice());
    if w == 0 || h == 0 {
        proof {
            assert(w * h == 0) by (nonlinear_arith) requires w == 0 || h == 0;
            assert(restored@ =~= wiener_frame(source@, recon@, w, h));
        }
        return restored;
    }
    proof {
        assert((h - 1) * w + w == w * h) by (nonlinear_arith);
    }
    let (hc, vc) = optimize_wiener_coefficients(source, w, recon.as_slice(), w, w, h);
    let ghost c = wiener_choice(source@, recon@, w, h);
    proof {
        lemma_wiener_best_range(source@, recon@, w, h, 120);
        let b = wiener_best(source@, w, recon@, w, w, h, 120);
        if b.0 >= 0 {
            assert(0 <= b.0 / 15 < 8);
            let vals = seq![0int, 1, 2, 3, 4, 5, 6, 8];
            assert(0 <= vals[b.0 / 15] <= 8);
        }
        assert(0 <= hc[0] <= 8 && 0 <= hc[1] <= 4 && 0 <= hc[2] <= 2);
        lemma_small_coeffs_fit(recon@, w, w, h, hc, vc);
    }
    wiener_filter(recon.as_slice(), w, restored.as_mut_slice(), w, w, h, hc, vc);
    proof {
        let k = wiener_kernel(hc[0] as int, hc[1] as int, hc[2] as int);
        assert(k == wiener_kernel(c.0, c.1, c.2));
        lemma_full_frame_written(restored@, recon@, w, h,
            |r: int, cc: int| wiener_px(recon@, w, w, h, k, k, r, cc));
        assert(restored@ =~= wiener_frame(source@, recon@, w, h));
    }
    restored
}

/// Self-guided restoration parameters of a quantizer: radii 2 and 1, strengths
/// `min(10 + qp / 2, 100)` and `min(5 + qp / 4, 50)`, equal projection weights 32.
pub open spec fn frame_sgr_params(qp: u8) -> SgrprojParams {
    SgrprojParams {
        r0: 2,
        r1: 1,
        s0: if 10 + qp / 2 < 100 { (10 + qp / 2) as i32 } else { 100 },
        s1: if 5 + qp / 4 < 50 { (5 + qp / 4) as i32 } else { 50 },
        xqd: [32, 32],
    }
}

/// The frame after self-guided restoration with the quantizer's parameters.
pub open spec fn sgr_frame(recon: Seq<u8>, w: usize, h: usize, qp: u8) -> Seq<u8> {
    Seq::new(recon.len(), |i: int| sgr_px(recon, w, w, h, frame_sgr_params(qp), i / (w as int), i % (w as int)))
}

/// The frame sizes the self-guided filter takes: its box sums stay inside 32 bits.
pub open spec fn sgr_frame_ok(w: usize, h: usize) -> bool {
    1 <= w && 1 <= h && 510 * (h + 4) * (w + 4) + 255 <= i32::MAX
}

/// Restore the frame with the self-guided filter (see [`sgr_frame`]).
#[verifier::rlimit(40)]
pub fn sgr_frame_pass(recon: &Vec<u8>, w: usize, h: usize, qp: u8) -> (r: Vec<u8>)
    requires recon@.len() == w * h, sgr_frame_ok(w, h),
    ensures r@ == sgr_frame(recon@, w, h, qp),
{
    let _n: usize = recon.len();
    let mut out: Vec<u8> = vstd::slice::slice_to_vec(recon.as_slice());
    let s0: i32 = if 10 + (qp / 2) as i32 <= 100 { 10 + (qp / 2) as i32 } else { 100 };
    let s1: i32 = if 5 + (qp / 4) as i32 <= 50 { 5 + (qp / 4) as i32 } else { 50 };
    let params = SgrprojParams { r0: 2, r1: 1, s0, s1, xqd: [32, 32] };
    proof {
        assert(params == frame_sgr_params(qp));
        assert(510 * (h + 2) * (w + 2) <= 510 * (h + 4) * (w + 4)) by (nonlinear_arith) requires w >= 1, h >= 1;
        assert(sgr_params_ok(w, h, params));
        assert((h - 1) * w + w == w * h) by (nonlinear_arith);
    }
    sgrproj_filter(recon.as_slice(), w, out.as_mut_slice(), w, w, h, &params);
    proof {
        lemma_full_frame_written(out@, recon@, w, h,
            |r: int, c: int| sgr_px(recon@, w, w, h, params, r, c));
        assert(out@ =~= sgr_frame(recon@, w, h, qp));
    }
    out
}

/// The in-loop filtered frame: deblocking, then CDEF when enabled, then Wiener
/// restoration when restoration is enabled, then self-guided restoration when
/// restoration is enabled at presets up to 6.
pub open spec fn loop_filtered_frame(source: Seq<u8>, recon: Seq<u8>, w: usize, h: usize, qp: u8, sb_size: usize,
    sc: SpeedConfig) -> Seq<u8>
{
    let a = deblocked_frame(recon, w, h, qp, sb_size);
    let b = if sc.enable_cdef { cdef_frame(a, w, h, qp) } else { a };
    let c = if sc.enable_restoration { wiener_frame(source, b, w, h) } else { b };
    if sc.enable_restoration && sc.preset <= 6 { sgr_frame(c, w, h, qp) } else { c }
}

/// Loop-filter law: the filters run in the fixed order deblocking, CDEF, Wiener,
/// self-guided. CDEF runs on the deblocked frame exactly when it is enabled, whatever
/// the restoration setting; Wiener restoration runs on the result exactly when
/// restoration is enabled, and the self-guided filter after it only at presets up
/// to 6.
pub proof fn lemma_loop_filter_order(source: Seq<u8>, recon: Seq<u8>, w: usize, h: usize, qp: u8, sb_size: usize,
    sc: SpeedConfig)
    ensures
        ({
            let deb = deblocked_frame(recon, w, h, qp, sb_size);
            let after_cdef = if sc.enable_cdef { cdef_frame(deb, w, h, qp) } else { deb };
            &&& !sc.enable_restoration ==> loop_filtered_frame(source, recon, w, h, qp, sb_size, sc) == after_cdef
            &&& sc.enable_restoration && sc.preset > 6 ==>
                loop_filtered_frame(source, recon, w, h, qp, sb_size, sc) == wiener_frame(source, after_cdef, w, h)
            &&& sc.enable_restoration && sc.preset <= 6 ==>
                loop_filtered_frame(source, recon, w, h, qp, sb_size, sc)
                    == sgr_frame(wiener_frame(source, after_cdef, w, h), w, h, qp)
        }),
{
}

/// Run the in-loop filters over the reconstruction of a `w` x `h` frame (row stride
/// `w`) as the speed configuration selects (see [`loop_filtered_frame`]); `source` is
/// the frame being coded, which the Wiener search matches.
pub fn loop_filter_frame(source: &[u8], recon: Vec<u8>, w: usize, h: usize, qp: u8, sb_size: usize,
    sc: &SpeedConfig) -> (r: Vec<u8>)
    requires
        recon@.len() == w * h,
        sb_size > 0,
        sc.enable_restoration ==> w * h <= source@.len() && w <= 0x7fff_0000 && h <= 0x7fff_0000
            && w * (h + 6) <= usize::MAX && w * h * 65025 < u64::MAX,
        sc.enable_restoration && sc.preset <= 6 ==> sgr_frame_ok(w, h),
    ensures
        r@ == loop_filtered_frame(source@, recon@, w, h, qp, sb_size, *sc),
        !sc.enable_restoration ==> r@ == (if sc.enable_cdef {
            cdef_frame(deblocked_frame(recon@, w, h, qp, sb_size), w, h, qp)
        } else {
            deblocked_frame(recon@, w, h, qp, sb_size)
        }),
{
    let mut frame = recon;
    deblock_frame(&mut frame, w, h, qp, sb_size);
    if sc.enable_cdef {
        frame = cdef_frame_pass(&frame, w, h, qp);
    }
    if sc.enable_restoration {
        frame = wiener_frame_pass(source, &frame, w, h);
    }
    if sc.enable_restoration && sc.preset <= 6 {
        frame = sgr_frame_pass(&frame, w, h, qp);
    }
    frame
}

} // verus!
