//! Building blocks shared by partition decisions: the search configuration, the
//! per-block decision records, spatial motion vector prediction, neighbour
//! extraction from the frame reconstruction and bilinear inter prediction.
use vstd::prelude::*;
use crate::dsp::intrabc::fullpel;
use crate::dsp::superres::clampi;
use crate::dsp::fwd_txfm::lemma_i64_shr;
use crate::encoder::perceptual::trunc_div;
use crate::encoder::speed_config::SpeedConfig;
use crate::types::motion::Mv;

verus! {

/// Smallest block size the partition search descends to.
pub const MIN_BLOCK_SIZE: usize = 4;

/// Which tools the partition search tries.
#[derive(Debug, Clone)]
pub struct PartitionSearchConfig {
    /// Number of intra candidates evaluated.
    pub max_intra_candidates: usize,
    /// Whether directional intra modes are tried.
    pub enable_directional: bool,
    /// Whether the T-shaped partitions are tried.
    pub enable_ext_partitions: bool,
    /// Whether the 4:1 partitions are tried.
    pub enable_4to1_partitions: bool,
    /// Whether ADST transform types are tried.
    pub enable_adst: bool,
    /// Whether the transform type is chosen by RD.
    pub rdo_tx_decision: bool,
    /// Whether filter-intra modes are tried.
    pub enable_filter_intra: bool,
}

impl PartitionSearchConfig {
    /// The configuration implied by a speed configuration: extended partitions up to
    /// preset 8, 4:1 partitions up to preset 6, the rest as the speed configuration says.
    pub fn from_speed_config(sc: &SpeedConfig) -> (r: Self)
        ensures
            r.max_intra_candidates == sc.max_intra_candidates,
            r.enable_directional == sc.enable_directional_modes,
            r.enable_ext_partitions == (sc.preset <= 8),
            r.enable_4to1_partitions == (sc.preset <= 6),
            r.enable_adst == sc.enable_adst,
            r.rdo_tx_decision == sc.rdo_tx_decision,
            r.enable_filter_intra == sc.enable_filter_intra,
    {
        PartitionSearchConfig {
            max_intra_candidates: sc.max_intra_candidates as usize,
            enable_directional: sc.enable_directional_modes,
            enable_ext_partitions: sc.preset <= 8,
            enable_4to1_partitions: sc.preset <= 6,
            enable_adst: sc.enable_adst,
            rdo_tx_decision: sc.rdo_tx_decision,
            enable_filter_intra: sc.enable_filter_intra,
        }
    }

    /// Everything enabled, thirteen intra candidates.
    pub fn full() -> (r: Self)
        ensures
            r.max_intra_candidates == 13, r.enable_directional, r.enable_ext_partitions, r.enable_4to1_partitions,
            r.enable_adst, r.rdo_tx_decision, r.enable_filter_intra,
    {
        PartitionSearchConfig {
            max_intra_candidates: 13,
            enable_directional: true,
            enable_ext_partitions: true,
            enable_4to1_partitions: true,
            enable_adst: true,
            rdo_tx_decision: true,
            enable_filter_intra: true,
        }
    }
}

/// A reference picture for inter prediction, with an optional motion vector map on
/// an 8x8 grid for spatial prediction.
#[derive(Clone, Copy)]
pub struct RefFrameCtx<'a> {
    /// Reference luma samples.
    pub y_plane: &'a [u8],
    /// Row stride of `y_plane`.
    pub stride: usize,
    /// Picture width.
    pub pic_width: usize,
    /// Picture height.
    pub pic_height: usize,
    /// Motion vectors of the 8x8 blocks, row by row.
    pub mv_map: Option<&'a [Mv]>,
    /// Row stride of `mv_map`.
    pub mv_map_stride: usize,
}

/// Whether a motion vector is nonzero.
pub open spec fn mv_nonzero(mv: Mv) -> bool {
    mv.x != 0 || mv.y != 0
}

/// `s` extended by `mv` when `take` holds.
pub open spec fn push_if(s: Seq<Mv>, take: bool, mv: Mv) -> Seq<Mv> {
    if take { s.push(mv) } else { s }
}

/// The nonzero neighbours of 8x8 block `(bx, by)`: above, left, above-left, in that order.
pub open spec fn spatial_candidates(map: Seq<Mv>, stride: int, bx: int, by: int) -> Seq<Mv> {
    let above = map[(by - 1) * stride + bx];
    let left = map[by * stride + bx - 1];
    let diag = map[(by - 1) * stride + bx - 1];
    let s0 = push_if(Seq::empty(), by > 0 && mv_nonzero(above), above);
    let s1 = push_if(s0, bx > 0 && mv_nonzero(left), left);
    push_if(s1, by > 0 && bx > 0 && mv_nonzero(diag), diag)
}

/// Median of three values.
pub open spec fn median3(a: int, b: int, c: int) -> int {
    let lo = if a <= b { a } else { b };
    let hi = if a <= b { b } else { a };
    if c < lo { lo } else if c > hi { hi } else { c }
}

/// The spatial predictor: zero with no candidate, the candidate with one, the
/// (truncated) average with two, the component-wise median with three.
pub open spec fn spatial_predictor(map: Seq<Mv>, stride: int, bx: int, by: int) -> Mv {
    let m = spatial_candidates(map, stride, bx, by);
    if m.len() == 0 {
        Mv { x: 0, y: 0 }
    } else if m.len() == 1 {
        m[0]
    } else if m.len() == 2 {
        Mv { x: trunc_div(m[0].x + m[1].x, 2) as i16, y: trunc_div(m[0].y + m[1].y, 2) as i16 }
    } else {
        Mv { x: median3(m[0].x as int, m[1].x as int, m[2].x as int) as i16,
            y: median3(m[0].y as int, m[1].y as int, m[2].y as int) as i16 }
    }
}

/// The map entries read for block `(bx, by)` exist, and an average of two candidates
/// stays within 16 bits.
pub open spec fn predictor_ok(map: Seq<Mv>, stride: int, bx: int, by: int) -> bool {
    let m = spatial_candidates(map, stride, bx, by);
    &&& by > 0 ==> (by - 1) * stride + bx < map.len()
    &&& bx > 0 ==> by * stride + bx - 1 < map.len()
    &&& m.len() == 2 ==> i16::MIN <= m[0].x + m[1].x <= i16::MAX && i16::MIN <= m[0].y + m[1].y <= i16::MAX
}

fn median3_i16(a: i16, b: i16, c: i16) -> (r: i16)
    ensures r == median3(a as int, b as int, c as int),
{
    let lo: i16 = if a <= b { a } else { b };
    let hi: i16 = if a <= b { b } else { a };
    if c < lo { lo } else if c > hi { hi } else { c }
}

fn half_toward_zero(a: i16, b: i16) -> (r: i16)
    requires i16::MIN <= a + b <= i16::MAX,
    ensures r == trunc_div(a + b, 2),
{
    let s: i32 = a as i32 + b as i32;
    let q: i32 = if s >= 0 { s / 2 } else { -((-s) / 2) };
    q as i16
}

impl<'a> RefFrameCtx<'a> {
    /// Spatial motion vector predictor for the block at `(abs_x, abs_y)`: zero without
    /// a map (or with a zero stride), else [`spatial_predictor`] of its 8x8 block.
    pub fn get_mv_predictor(&self, abs_x: usize, abs_y: usize) -> (r: Mv)
        requires
            self.mv_map is Some && self.mv_map_stride > 0 ==> predictor_ok(self.mv_map->0@,
                self.mv_map_stride as int, (abs_x / 8) as int, (abs_y / 8) as int),
        ensures
            r == (match self.mv_map {
                None => Mv { x: 0, y: 0 },
                Some(map) => if self.mv_map_stride == 0 { Mv { x: 0, y: 0 } } else {
                    spatial_predictor(map@, self.mv_map_stride as int, (abs_x / 8) as int, (abs_y / 8) as int)
                },
            }),
    {
        let map: &[Mv] = match self.mv_map {
            None => { return Mv::zero(); },
            Some(m) => m,
        };
        let bx: usize = abs_x / 8;
        let by: usize = abs_y / 8;
        let stride: usize = self.mv_map_stride;
        if stride == 0 {
            return Mv::zero();
        }
        let ghost sm = map@;
        let ghost s0 = push_if(Seq::empty(), by > 0 && mv_nonzero(sm[(by - 1) * stride + bx]),
            sm[(by - 1) * stride + bx]);
        let ghost s1 = push_if(s0, bx > 0 && mv_nonzero(sm[by * stride + bx - 1]), sm[by * stride + bx - 1]);
        let mlen: usize = map.len();
        let mut mvs: Vec<Mv> = Vec::new();
        if by > 0 {
            assert((by - 1) * stride + bx < mlen);
            let above: Mv = map[(by - 1) * stride + bx];
            if above.x != 0 || above.y != 0 {
                mvs.push(above);
            }
        }
        assert(mvs@ =~= s0);
        if bx > 0 {
            assert(by * stride + bx - 1 < mlen);
            let left: Mv = map[by * stride + bx - 1];
            if left.x != 0 || left.y != 0 {
                mvs.push(left);
            }
        }
        assert(mvs@ =~= s1);
        if by > 0 && bx > 0 {
            assert((by - 1) * stride + bx - 1 < mlen);
            let diag: Mv = map[(by - 1) * stride + bx - 1];
            if diag.x != 0 || diag.y != 0 {
                mvs.push(diag);
            }
        }
        assert(mvs@ =~= spatial_candidates(sm, stride as int, bx as int, by as int));
        let n: usize = mvs.len();
        if n == 0 {
            Mv::zero()
        } else if n == 1 {
            mvs[0]
        } else if n == 2 {
            Mv { x: half_toward_zero(mvs[0].x, mvs[1].x), y: half_toward_zero(mvs[0].y, mvs[1].y) }
        } else {
            Mv { x: median3_i16(mvs[0].x, mvs[1].x, mvs[2].x), y: median3_i16(mvs[0].y, mvs[1].y, mvs[2].y) }
        }
    }
}

/// The frame reconstruction seen by a block of the superblock at `(sb_x, sb_y)`.
#[derive(Clone, Copy)]
pub struct FrameReconCtx<'a> {
    /// Reconstructed luma samples.
    pub buf: &'a [u8],
    /// Row stride (the frame width).
    pub stride: usize,
    /// Left edge of the current superblock.
    pub sb_x: usize,
    /// Top edge of the current superblock.
    pub sb_y: usize,
}

/// Sample of `buf` at `(x, y)` when it lies in the frame row and the buffer, else 128.
pub open spec fn above_sample(buf: Seq<u8>, stride: usize, y: int, x: int) -> u8 {
    if x < stride && y * stride + x < buf.len() { buf[y * stride + x] } else { 128 }
}

/// Sample of `buf` at `(x, y)` when it lies in the buffer, else 128.
pub open spec fn buffered_sample(buf: Seq<u8>, stride: usize, y: int, x: int) -> u8 {
    if y * stride + x < buf.len() { buf[y * stride + x] } else { 128 }
}

/// The row above the block is in an already finished superblock row.
pub open spec fn above_final(ctx: FrameReconCtx, abs_y: usize) -> bool {
    abs_y > 0 && abs_y - 1 < ctx.sb_y
}

/// The column left of the block is in an already finished superblock.
pub open spec fn left_final(ctx: FrameReconCtx, abs_x: usize) -> bool {
    abs_x > 0 && abs_x - 1 < ctx.sb_x
}

/// Offsets read by [`extract_neighbors`] stay within `usize`.
pub open spec fn neighbors_addressable(ctx: FrameReconCtx, abs_x: usize, abs_y: usize, width: usize,
    height: usize) -> bool {
    &&& abs_x + width <= usize::MAX && abs_y + height <= usize::MAX
    &&& abs_y * ctx.stride + abs_x + width <= usize::MAX
    &&& (abs_y + height) * ctx.stride + abs_x <= usize::MAX
}

proof fn lemma_mul_le(a: int, b: int, s: int)
    requires 0 <= a <= b, s >= 0,
    ensures a * s <= b * s, a * s >= 0,
{
    assert(a * s <= b * s) by (nonlinear_arith) requires a <= b, s >= 0;
    assert(a * s >= 0) by (nonlinear_arith) requires a >= 0, s >= 0;
}

/// Intra prediction neighbours of the `width` x `height` block at `(abs_x, abs_y)`:
/// the row above, the column left, the corner sample, and whether the block has an
/// above row and a left column in the frame. Samples not yet final (inside the current
/// superblock) or outside the frame read 128; without a frame context all are 128.
pub fn extract_neighbors(frame_ctx: Option<&FrameReconCtx>, abs_x: usize, abs_y: usize, width: usize,
    height: usize) -> (r: (Vec<u8>, Vec<u8>, u8, bool, bool))
    requires
        frame_ctx is Some ==> neighbors_addressable(*frame_ctx->0, abs_x, abs_y, width, height),
    ensures
        r.0@.len() == width, r.1@.len() == height,
        frame_ctx is None ==> {
            &&& forall|i: int| 0 <= i < width ==> r.0@[i] == 128
            &&& forall|i: int| 0 <= i < height ==> r.1@[i] == 128
            &&& r.2 == 128 && r.3 && r.4
        },
        frame_ctx matches Some(ctx) ==> {
            &&& r.3 == (abs_y > 0) && r.4 == (abs_x > 0)
            &&& forall|i: int| 0 <= i < width ==> #[trigger] r.0@[i] == if above_final(*ctx, abs_y) {
                above_sample(ctx.buf@, ctx.stride, abs_y - 1, abs_x + i) } else { 128 }
            &&& forall|i: int| 0 <= i < height ==> #[trigger] r.1@[i] == if left_final(*ctx, abs_x) {
                buffered_sample(ctx.buf@, ctx.stride, abs_y + i, abs_x - 1) } else { 128 }
            &&& r.2 == if abs_y > 0 && abs_x > 0 && (above_final(*ctx, abs_y) || left_final(*ctx, abs_x)) {
                buffered_sample(ctx.buf@, ctx.stride, abs_y - 1, abs_x - 1) } else { 128 }
        },
{
    let ctx: &FrameReconCtx = match frame_ctx {
        None => {
            return (vec![128u8; width], vec![128u8; height], 128, true, true);
        },
        Some(c) => c,
    };
    let has_above: bool = abs_y > 0;
    let has_left: bool = abs_x > 0;
    let blen: usize = ctx.buf.len();
    let above_avail: bool = has_above && abs_y - 1 < ctx.sb_y;
    let mut above: Vec<u8> = Vec::new();
    let mut i: usize = 0;
    while i < width
        invariant
            i <= width, blen == ctx.buf@.len(), above_avail == above_final(*ctx, abs_y),
            neighbors_addressable(*ctx, abs_x, abs_y, width, height),
            above@.len() == i,
            forall|k: int| 0 <= k < i ==> #[trigger] above@[k] == if above_avail {
                above_sample(ctx.buf@, ctx.stride, abs_y - 1, abs_x + k) } else { 128 },
        decreases width - i,
    {
        let v: u8 = if above_avail {
            let row: usize = abs_y - 1;
            let x: usize = abs_x + i;
            proof { lemma_mul_le(row as int, abs_y as int, ctx.stride as int); }
            let idx: usize = row * ctx.stride + x;
            if x < ctx.stride && idx < blen { ctx.buf[idx] } else { 128 }
        } else {
            128
        };
        above.push(v);
        i = i + 1;
    }
    let left_avail: bool = has_left && abs_x - 1 < ctx.sb_x;
    let mut left: Vec<u8> = Vec::new();
    let mut j: usize = 0;
    while j < height
        invariant
            j <= height, blen == ctx.buf@.len(), left_avail == left_final(*ctx, abs_x),
            neighbors_addressable(*ctx, abs_x, abs_y, width, height),
            left@.len() == j,
            forall|k: int| 0 <= k < j ==> #[trigger] left@[k] == if left_avail {
                buffered_sample(ctx.buf@, ctx.stride, abs_y + k, abs_x - 1) } else { 128 },
        decreases height - j,
    {
        let v: u8 = if left_avail {
            let y: usize = abs_y + j;
            let col: usize = abs_x - 1;
            proof { lemma_mul_le(y as int, abs_y + height, ctx.stride as int); }
            let idx: usize = y * ctx.stride + col;
            if idx < blen { ctx.buf[idx] } else { 128 }
        } else {
            128
        };
        left.push(v);
        j = j + 1;
    }
    let top_left: u8 = if has_above && has_left && (above_avail || left_avail) {
        proof { lemma_mul_le(abs_y - 1, abs_y as int, ctx.stride as int); }
        let idx: usize = (abs_y - 1) * ctx.stride + abs_x - 1;
        if idx < blen { ctx.buf[idx] } else { 128 }
    } else {
        128
    };
    (above, left, top_left, has_above, has_left)
}

/// What the encoder decided for one coded block.
#[derive(Debug, Clone, Default)]
pub struct BlockDecision {
    /// Partition type that produced the block.
    pub partition_type: PartitionType,
    /// Whether the block is inter predicted.
    pub is_inter: bool,
    /// Intra mode index.
    pub intra_mode: u8,
    /// Motion vector of an inter block.
    pub mv: Mv,
    /// Quantized coefficients.
    pub qcoeffs: Vec<i32>,
    /// End of block position.
    pub eob: u16,
    /// Block width.
    pub width: u16,
    /// Block height.
    pub height: u16,
}

/// Partition types as the bitstream orders them.
#[derive(Debug, Clone, Copy, PartialEq, Eq, Structural, Default)]
pub enum PartitionType {
    #[default]
    NoSplit,
    Horz,
    Vert,
    Split,
    HorzA,
    HorzB,
    VertA,
    VertB,
    Horz4,
    Vert4,
}

/// Outcome of the search at one partition level.
#[derive(Debug, Clone)]
pub struct PartitionResult {
    /// Partition type chosen here.
    pub partition_type: PartitionType,
    /// Total RD cost.
    pub rd_cost: u64,
    /// Total distortion (SSE).
    pub distortion: u64,
    /// Total estimated rate in bits.
    pub rate: u32,
    /// Decisions of the coded blocks, in coding order.
    pub decisions: Vec<BlockDecision>,
    /// Number of coded blocks.
    pub num_blocks: u32,
}

/// Bilinear interpolation of the reference at whole position `off` with eighth-pel
/// phases `(fx, fy)`; 0 to 255 whatever the phases.
pub open spec fn bilinear(p: Seq<u8>, stride: int, off: int, fx: int, fy: int) -> int {
    if fx == 0 && fy == 0 {
        p[off] as int
    } else if fy == 0 {
        ((8 - fx) * p[off] + fx * p[off + 1] + 4) / 8
    } else if fx == 0 {
        ((8 - fy) * p[off] + fy * p[off + stride] + 4) / 8
    } else {
        let top = (8 - fx) * p[off] + fx * p[off + 1];
        let bot = (8 - fx) * p[off + stride] + fx * p[off + stride + 1];
        ((8 - fy) * top + fy * bot + 32) / 64
    }
}

/// Inter predicted pixel `(r, c)` of the block at `(abs_x, abs_y)` with vector `mv`:
/// the bilinear sample when it and its right and lower neighbours lie in the
/// picture, else 128.
pub open spec fn inter_pred_px(rfc: RefFrameCtx, mv: Mv, abs_x: usize, abs_y: usize, r: int, c: int) -> u8 {
    let ry = abs_y + fullpel(mv.y) + r;
    let rx = abs_x + fullpel(mv.x) + c;
    if ry >= 0 && ry + 1 < rfc.pic_height && rx >= 0 && rx + 1 < rfc.pic_width {
        clampi(bilinear(rfc.y_plane@, rfc.stride as int, ry * rfc.stride + rx, (mv.x as int) % 8, (mv.y as int) % 8), 0, 255) as u8
    } else {
        128
    }
}

proof fn lemma_bilinear_range(p: Seq<u8>, stride: int, off: int, fx: int, fy: int)
    requires 0 <= fx < 8, 0 <= fy < 8,
    ensures 0 <= bilinear(p, stride, off, fx, fy) <= 255,
{
    let a = p[off] as int;
    let b = p[off + 1] as int;
    let c = p[off + stride] as int;
    let d = p[off + stride + 1] as int;
    assert(0 <= (8 - fx) * a + fx * b <= 8 * 255) by (nonlinear_arith)
        requires 0 <= a <= 255, 0 <= b <= 255, 0 <= fx < 8;
    assert(0 <= (8 - fy) * a + fy * c <= 8 * 255) by (nonlinear_arith)
        requires 0 <= a <= 255, 0 <= c <= 255, 0 <= fy < 8;
    assert(0 <= (8 - fx) * c + fx * d <= 8 * 255) by (nonlinear_arith)
        requires 0 <= c <= 255, 0 <= d <= 255, 0 <= fx < 8;
    let top = (8 - fx) * a + fx * b;
    let bot = (8 - fx) * c + fx * d;
    assert(0 <= (8 - fy) * top + fy * bot <= 64 * 255) by (nonlinear_arith)
        requires 0 <= top <= 8 * 255, 0 <= bot <= 8 * 255, 0 <= fy < 8;
}

/// Eighth-pel phase of a vector component: its low three bits.
fn mv_phase(v: i16) -> (r: i32)
    ensures r == (v as int) % 8, 0 <= r < 8,
{
    proof { lemma_i64_shr(v as i64, 3); vstd::arithmetic::power2::lemma2_to64(); }
    let w: i64 = v as i64;
    (w - (w >> 3) * 8) as i32
}

/// Whole-pel part of a vector component (rounded down).
fn mv_whole(v: i16) -> (r: i32)
    ensures r == fullpel(v), -4096 <= r <= 4095,
{
    proof { lemma_i64_shr(v as i64, 3); vstd::arithmetic::power2::lemma2_to64(); }
    ((v as i64) >> 3) as i32
}

proof fn lemma_raster_distinct(rr: int, cc: int, r: int, c: int, width: int)
    requires 0 <= cc < width, 0 <= c < width, rr >= 0, r >= 0, rr != r || cc != c,
    ensures rr * width + cc != r * width + c,
{
    if rr < r {
        assert(rr * width + cc < r * width) by (nonlinear_arith) requires rr < r, 0 <= cc < width;
    } else if rr > r {
        assert(r * width + c < rr * width) by (nonlinear_arith) requires r < rr, 0 <= c < width;
    }
}

/// Inter prediction of the `width` x `height` block at `(abs_x, abs_y)` from the
/// reference with vector `mv`, bilinear at full, half and quarter pel: pixel
/// `(r, c)` (row-major) is [`inter_pred_px`].
pub fn generate_inter_pred(rfc: &RefFrameCtx, mv: Mv, abs_x: usize, abs_y: usize, width: usize, height: usize)
    -> (pred: Vec<u8>)
    requires
        abs_x + width <= 0x7fff_0000, abs_y + height <= 0x7fff_0000,
        width * height <= usize::MAX,
        rfc.pic_width > 1 && rfc.pic_height > 1 ==> rfc.pic_width <= rfc.stride
            && (rfc.pic_height - 1) * rfc.stride + rfc.pic_width <= rfc.y_plane@.len(),
    ensures
        pred@.len() == width * height,
        forall|r: int, c: int| 0 <= r < height && 0 <= c < width ==>
            pred@[#[trigger] (r * width + c)] == inter_pred_px(*rfc, mv, abs_x, abs_y, r, c),
{
    let int_x: i32 = abs_x as i32 + mv_whole(mv.x);
    let int_y: i32 = abs_y as i32 + mv_whole(mv.y);
    let fx: i32 = mv_phase(mv.x);
    let fy: i32 = mv_phase(mv.y);
    let n: usize = width * height;
    let mut pred: Vec<u8> = vec![128u8; n];
    proof {
        assert forall|rr: int, cc: int| 0 <= rr < height && 0 <= cc < width implies
            pred@[#[trigger] (rr * width + cc)] == 128 by {
            assert(0 <= rr * width + cc < n) by (nonlinear_arith)
                requires 0 <= rr < height, 0 <= cc < width, n == width * height;
        }
    }
    let plen: usize = rfc.y_plane.len();
    let mut r: usize = 0;
    while r < height
        invariant
            r <= height, n == width * height, pred@.len() == n, plen == rfc.y_plane@.len(),
            abs_x + width <= 0x7fff_0000, abs_y + height <= 0x7fff_0000,
            int_x == abs_x + fullpel(mv.x), int_y == abs_y + fullpel(mv.y),
            fx == (mv.x as int) % 8, fy == (mv.y as int) % 8, 0 <= fx < 8, 0 <= fy < 8,
            rfc.pic_width > 1 && rfc.pic_height > 1 ==> rfc.pic_width <= rfc.stride
                && (rfc.pic_height - 1) * rfc.stride + rfc.pic_width <= rfc.y_plane@.len(),
            forall|rr: int, cc: int| 0 <= rr < r && 0 <= cc < width ==>
                pred@[#[trigger] (rr * width + cc)] == inter_pred_px(*rfc, mv, abs_x, abs_y, rr, cc),
            forall|rr: int, cc: int| r <= rr < height && 0 <= cc < width ==> pred@[#[trigger] (rr * width + cc)] == 128,
        decreases height - r,
    {
        let mut c: usize = 0;
        while c < width
            invariant
                r < height, c <= width, n == width * height, pred@.len() == n, plen == rfc.y_plane@.len(),
                abs_x + width <= 0x7fff_0000, abs_y + height <= 0x7fff_0000,
                int_x == abs_x + fullpel(mv.x), int_y == abs_y + fullpel(mv.y),
                fx == (mv.x as int) % 8, fy == (mv.y as int) % 8, 0 <= fx < 8, 0 <= fy < 8,
                rfc.pic_width > 1 && rfc.pic_height > 1 ==> rfc.pic_width <= rfc.stride
                    && (rfc.pic_height - 1) * rfc.stride + rfc.pic_width <= rfc.y_plane@.len(),
                forall|rr: int, cc: int| 0 <= rr < height && 0 <= cc < width && (rr < r || (rr == r && cc < c)) ==>
                    pred@[#[trigger] (rr * width + cc)] == inter_pred_px(*rfc, mv, abs_x, abs_y, rr, cc),
                forall|rr: int, cc: int| 0 <= rr < height && 0 <= cc < width && (rr > r || (rr == r && cc >= c)) ==>
                    pred@[#[trigger] (rr * width + cc)] == 128,
            decreases width - c,
        {
            proof {
                assert(r * width + c < n) by (nonlinear_arith)
                    requires r < height, c < width, n == width * height;
            }
            let ghost before = pred@;
            let ry: i32 = int_y + r as i32;
            let rx: i32 = int_x + c as i32;
            if ry >= 0 && (ry as usize + 1) < rfc.pic_height && rx >= 0 && (rx as usize + 1) < rfc.pic_width {
                let ryu: usize = ry as usize;
                let rxu: usize = rx as usize;
                proof {
                    assert((ryu + 1) * rfc.stride <= (rfc.pic_height - 1) * rfc.stride) by (nonlinear_arith)
                        requires ryu + 1 <= rfc.pic_height - 1;
                    assert((ryu + 1) * rfc.stride == ryu * rfc.stride + rfc.stride) by (nonlinear_arith);
                }
                let off: usize = ryu * rfc.stride + rxu;
                let p: &[u8] = rfc.y_plane;
                proof {
                    let (a, b, c2, d) = (p@[off as int] as int, p@[off + 1] as int, p@[off + rfc.stride] as int,
                        p@[off + rfc.stride + 1] as int);
                    assert(0 <= (8 - fx) * a + fx * b <= 8 * 255 && 0 <= (8 - fy) * a + fy * c2 <= 8 * 255
                        && 0 <= (8 - fx) * c2 + fx * d <= 8 * 255 && 0 <= (8 - fx) * a <= 8 * 255
                        && 0 <= fx * b <= 8 * 255 && 0 <= (8 - fy) * a <= 8 * 255 && 0 <= fy * c2 <= 8 * 255
                        && 0 <= (8 - fx) * c2 <= 8 * 255 && 0 <= fx * d <= 8 * 255) by (nonlinear_arith)
                        requires 0 <= a <= 255, 0 <= b <= 255, 0 <= c2 <= 255, 0 <= d <= 255, 0 <= fx < 8, 0 <= fy < 8;
                    let top = (8 - fx) * a + fx * b;
                    let bot = (8 - fx) * c2 + fx * d;
                    assert(0 <= (8 - fy) * top <= 64 * 255 && 0 <= fy * bot <= 64 * 255) by (nonlinear_arith)
                        requires 0 <= top <= 8 * 255, 0 <= bot <= 8 * 255, 0 <= fy < 8;
                }
                let val: i32 = if fx == 0 && fy == 0 {
                    p[off] as i32
                } else if fy == 0 {
                    ((8 - fx) * p[off] as i32 + fx * p[off + 1] as i32 + 4) / 8
                } else if fx == 0 {
                    ((8 - fy) * p[off] as i32 + fy * p[off + rfc.stride] as i32 + 4) / 8
                } else {
                    let tl: i32 = p[off] as i32;
                    let tr: i32 = p[off + 1] as i32;
                    let bl: i32 = p[off + rfc.stride] as i32;
                    let br: i32 = p[off + rfc.stride + 1] as i32;
                    let top: i32 = (8 - fx) * tl + fx * tr;
                    let bot: i32 = (8 - fx) * bl + fx * br;
                    ((8 - fy) * top + fy * bot + 32) / 64
                };
                proof {
                    lemma_bilinear_range(p@, rfc.stride as int, off as int, fx as int, fy as int);
                }
                let v: u8 = if val < 0 { 0 } else if val > 255 { 255 } else { val as u8 };
                assert(val == bilinear(p@, rfc.stride as int, off as int, fx as int, fy as int));
                assert(v == inter_pred_px(*rfc, mv, abs_x, abs_y, r as int, c as int));
                pred.set(r * width + c, v);
            } else {
                assert(inter_pred_px(*rfc, mv, abs_x, abs_y, r as int, c as int) == 128);
            }
            proof {
                assert forall|rr: int, cc: int| 0 <= rr < height && 0 <= cc < width && (rr != r || cc != c)
                    implies pred@[#[trigger] (rr * width + cc)] == before[rr * width + cc] by {
                    lemma_raster_distinct(rr, cc, r as int, c as int, width as int);
                    assert(0 <= rr * width + cc < n) by (nonlinear_arith)
                        requires 0 <= rr < height, 0 <= cc < width, n == width * height;
                }
                assert forall|rr: int, cc: int| 0 <= rr < height && 0 <= cc < width && (rr < r || (rr == r && cc < c + 1))
                    implies pred@[#[trigger] (rr * width + cc)] == inter_pred_px(*rfc, mv, abs_x, abs_y, rr, cc) by {
                    if rr != r || cc != c {
                        assert(pred@[rr * width + cc] == before[rr * width + cc]);
                    }
                }
                assert forall|rr: int, cc: int| 0 <= rr < height && 0 <= cc < width && (rr > r || (rr == r && cc >= c + 1))
                    implies pred@[#[trigger] (rr * width + cc)] == 128 by {
                    assert(pred@[rr * width + cc] == before[rr * width + cc]);
                }
            }
            c = c + 1;
        }
        r = r + 1;
    }
    pred
}

} // verus!
