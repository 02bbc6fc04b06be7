//! Motion estimation: full-pel SAD search around a center vector, then half- and
//! quarter-pel refinement with bilinear interpolation.
use vstd::prelude::*;
use crate::dsp::copy::block_fits;
use crate::dsp::fwd_txfm::{raster, lemma_i64_shr, lemma_raster_divmod};
use crate::types::motion::Mv;
use vstd::arithmetic::power2::pow2;

verus! {

/// Search parameters for motion estimation.
#[derive(Debug, Clone, Copy)]
pub struct MeSearchParams {
    /// Search area half-width: search from -w to +w.
    pub search_area_width: u16,
    /// Search area half-height.
    pub search_area_height: u16,
    /// Whether to use hierarchical ME.
    pub use_hme: bool,
    /// Sub-pixel refinement level (0 off, 1 half, 2 quarter, 3 eighth).
    pub subpel_level: u8,
}

impl Default for MeSearchParams {
    /// A 64 x 64 hierarchical search refined to eighth-pel.
    fn default() -> (r: Self)
        ensures
            r.search_area_width == 64,
            r.search_area_height == 64,
            r.use_hme,
            r.subpel_level == 3,
    {
        MeSearchParams { search_area_width: 64, search_area_height: 64, use_hme: true, subpel_level: 3 }
    }
}

/// Result of motion estimation for a single block.
#[derive(Debug, Clone, Copy, Default)]
pub struct MeResult {
    /// Best motion vector found.
    pub mv: Mv,
    /// SAD at the best position (`u32::MAX` when no position was searched).
    pub distortion: u32,
}

/// `|a - b|`.
pub open spec fn abs_diff(a: int, b: int) -> int {
    if a >= b { a - b } else { b - a }
}

/// SAD of the first `cols` pixels of row `r` of the source block against the
/// reference block at offset `off`.
pub open spec fn row_sad(src: Seq<u8>, src_stride: usize, rf: Seq<u8>, ref_stride: usize, off: int, r: int, cols: int)
    -> int
    decreases cols,
{
    if cols <= 0 {
        0
    } else {
        row_sad(src, src_stride, rf, ref_stride, off, r, cols - 1)
            + abs_diff(src[raster(r, cols - 1, src_stride as int)] as int, rf[off + raster(r, cols - 1, ref_stride as int)] as int)
    }
}

/// SAD of the first `rows` rows of a `width`-wide block.
pub open spec fn rows_sad(src: Seq<u8>, src_stride: usize, rf: Seq<u8>, ref_stride: usize, off: int, width: int,
    rows: int) -> int
    decreases rows,
{
    if rows <= 0 {
        0
    } else {
        rows_sad(src, src_stride, rf, ref_stride, off, width, rows - 1)
            + row_sad(src, src_stride, rf, ref_stride, off, rows - 1, width)
    }
}

proof fn lemma_row_sad_bounds(src: Seq<u8>, src_stride: usize, rf: Seq<u8>, ref_stride: usize, off: int, r: int,
    cols: int)
    requires cols >= 0,
    ensures 0 <= row_sad(src, src_stride, rf, ref_stride, off, r, cols) <= 255 * cols,
    decreases cols,
{
    if cols > 0 {
        lemma_row_sad_bounds(src, src_stride, rf, ref_stride, off, r, cols - 1);
    }
}

proof fn lemma_rows_sad_bounds(src: Seq<u8>, src_stride: usize, rf: Seq<u8>, ref_stride: usize, off: int, width: int,
    m: int, rows: int)
    requires width >= 0, 0 <= m <= rows,
    ensures
        0 <= rows_sad(src, src_stride, rf, ref_stride, off, width, m)
            <= rows_sad(src, src_stride, rf, ref_stride, off, width, rows),
        rows_sad(src, src_stride, rf, ref_stride, off, width, rows) <= 255 * width * rows,
    decreases rows,
{
    if rows > 0 {
        lemma_row_sad_bounds(src, src_stride, rf, ref_stride, off, rows - 1, width);
        if m < rows {
            lemma_rows_sad_bounds(src, src_stride, rf, ref_stride, off, width, m, rows - 1);
        } else {
            lemma_rows_sad_bounds(src, src_stride, rf, ref_stride, off, width, rows - 1, rows - 1);
        }
        assert(255 * width * (rows - 1) + 255 * width == 255 * width * rows) by (nonlinear_arith);
    }
}

/// SAD of the block against the reference at `off`, stopping at the end of a row
/// once it reaches `limit`: the result is below `limit` exactly when the SAD is, and
/// then it is the SAD.
fn block_sad_early(src: &[u8], src_stride: usize, ref_pic: &[u8], ref_stride: usize, off: usize, width: usize,
    height: usize, limit: u32) -> (r: u32)
    requires
        width * height * 255 <= u32::MAX,
        block_fits(src@.len(), src_stride as nat, width as nat, height as nat),
        width == 0 || height == 0 || off + (height - 1) * ref_stride + width <= ref_pic@.len(),
    ensures
        (r < limit) == (rows_sad(src@, src_stride, ref_pic@, ref_stride, off as int, width as int, height as int) < limit),
        r < limit ==> r == rows_sad(src@, src_stride, ref_pic@, ref_stride, off as int, width as int, height as int),
{
    let ghost full = rows_sad(src@, src_stride, ref_pic@, ref_stride, off as int, width as int, height as int);
    proof {
        lemma_rows_sad_bounds(src@, src_stride, ref_pic@, ref_stride, off as int, width as int, 0, height as int);
    }
    if width == 0 {
        proof {
            lemma_rows_sad_bounds(src@, src_stride, ref_pic@, ref_stride, off as int, 0, 0, height as int);
        }
        return 0;
    }
    let slen: usize = src.len();
    let rlen: usize = ref_pic.len();
    let mut sad: u32 = 0;
    let mut row: usize = 0;
    while row < height
        invariant_except_break
            sad == rows_sad(src@, src_stride, ref_pic@, ref_stride, off as int, width as int, row as int),
        invariant
            row <= height, slen == src@.len(), rlen == ref_pic@.len(), width > 0,
            width * height * 255 <= u32::MAX,
            block_fits(src@.len(), src_stride as nat, width as nat, height as nat),
            width == 0 || height == 0 || off + (height - 1) * ref_stride + width <= ref_pic@.len(),
            full == rows_sad(src@, src_stride, ref_pic@, ref_stride, off as int, width as int, height as int),
            full <= 255 * width * height,
        ensures
            (sad < limit) == (full < limit),
            sad < limit ==> sad == full,
        decreases height - row,
    {
        proof {
            lemma_rows_sad_bounds(src@, src_stride, ref_pic@, ref_stride, off as int, width as int, row as int + 1,
                height as int);
            assert(255 * width * height == width * height * 255) by (nonlinear_arith);
            assert(row * src_stride <= (height - 1) * src_stride) by (nonlinear_arith) requires row < height;
            assert(row * ref_stride <= (height - 1) * ref_stride) by (nonlinear_arith) requires row < height;
        }
        let s_off: usize = row * src_stride;
        let r_off: usize = off + row * ref_stride;
        let mut col: usize = 0;
        while col < width
            invariant
                row < height, col <= width, slen == src@.len(), rlen == ref_pic@.len(),
                block_fits(src@.len(), src_stride as nat, width as nat, height as nat),
                off + (height - 1) * ref_stride + width <= ref_pic@.len(),
                s_off == row * src_stride, r_off == off + row * ref_stride,
                sad == rows_sad(src@, src_stride, ref_pic@, ref_stride, off as int, width as int, row as int)
                    + row_sad(src@, src_stride, ref_pic@, ref_stride, off as int, row as int, col as int),
                rows_sad(src@, src_stride, ref_pic@, ref_stride, off as int, width as int, row as int + 1) <= u32::MAX,
            decreases width - col,
        {
            proof {
                assert(s_off + col < src@.len()) by (nonlinear_arith)
                    requires row < height, col < width, (height - 1) * src_stride + width <= src@.len(),
                        s_off == row * src_stride;
                assert(r_off + col < ref_pic@.len()) by (nonlinear_arith)
                    requires row < height, col < width, off + (height - 1) * ref_stride + width <= ref_pic@.len(),
                        r_off == off + row * ref_stride;
                lemma_row_sad_bounds(src@, src_stride, ref_pic@, ref_stride, off as int, row as int, width as int);
                lemma_row_sad_bounds(src@, src_stride, ref_pic@, ref_stride, off as int, row as int, col as int + 1);
                assert(row_sad(src@, src_stride, ref_pic@, ref_stride, off as int, row as int, col as int + 1)
                    <= row_sad(src@, src_stride, ref_pic@, ref_stride, off as int, row as int, width as int)) by {
                    lemma_row_sad_prefix(src@, src_stride, ref_pic@, ref_stride, off as int, row as int,
                        col as int + 1, width as int);
                }
            }
            let s: i32 = src[s_off + col] as i32;
            let r: i32 = ref_pic[r_off + col] as i32;
            let d: u32 = if s >= r { (s - r) as u32 } else { (r - s) as u32 };
            sad = sad + d;
            col = col + 1;
        }
        if sad >= limit {
            proof {
                lemma_rows_sad_bounds(src@, src_stride, ref_pic@, ref_stride, off as int, width as int, row as int + 1,
                    height as int);
            }
            break;
        }
        row = row + 1;
    }
    sad
}

proof fn lemma_row_sad_prefix(src: Seq<u8>, src_stride: usize, rf: Seq<u8>, ref_stride: usize, off: int, r: int,
    m: int, cols: int)
    requires 0 <= m <= cols,
    ensures row_sad(src, src_stride, rf, ref_stride, off, r, m) <= row_sad(src, src_stride, rf, ref_stride, off, r, cols),
    decreases cols,
{
    if m < cols {
        lemma_row_sad_prefix(src, src_stride, rf, ref_stride, off, r, m, cols - 1);
    }
}


/// Full-pel part of a 1/8-pel coordinate (rounded down).
pub open spec fn full_pel(v: i16) -> int {
    (v as int) / 8
}

/// Position `(dx, dy)` lies in the search window and comes before `(lim_dx, lim_dy)` in
/// raster order of the window (rows of `dy`, each from `-sw` to `sw`).
pub open spec fn scanned(dx: int, dy: int, sw: int, sh: int, lim_dx: int, lim_dy: int) -> bool {
    &&& -sw <= dx <= sw
    &&& -sh <= dy <= sh
    &&& (dy < lim_dy || (dy == lim_dy && dx < lim_dx))
}

/// The best of the positions scanned so far: none with a cost below `u32::MAX` (then
/// `d` is `u32::MAX`), or `(bdx, bdy)`, the first position of least cost `d`.
pub open spec fn first_min_so_far(valid: spec_fn(int, int) -> bool, cost: spec_fn(int, int) -> int, sw: int, sh: int,
    lim_dx: int, lim_dy: int, d: int, found: bool, bdx: int, bdy: int) -> bool {
    if !found {
        &&& d == u32::MAX
        &&& forall|dx: int, dy: int| #[trigger] scanned(dx, dy, sw, sh, lim_dx, lim_dy) && valid(dx, dy) ==> cost(dx, dy) >= u32::MAX
    } else {
        &&& scanned(bdx, bdy, sw, sh, lim_dx, lim_dy)
        &&& valid(bdx, bdy)
        &&& cost(bdx, bdy) == d
        &&& d < u32::MAX
        &&& forall|dx: int, dy: int| #[trigger] scanned(dx, dy, sw, sh, lim_dx, lim_dy) && valid(dx, dy) ==> cost(dx, dy) >= d
        &&& forall|dx: int, dy: int| #[trigger] scanned(dx, dy, sw, sh, bdx, bdy) && valid(dx, dy) ==> cost(dx, dy) > d
    }
}

/// The reference block at full-pel offset `(dx, dy)` from the center lies inside the
/// picture.
pub open spec fn fp_valid(origin_x: i32, origin_y: i32, center: Mv, width: usize, height: usize, pic_width: usize,
    pic_height: usize, dx: int, dy: int) -> bool {
    let rx = origin_x + full_pel(center.x) + dx;
    let ry = origin_y + full_pel(center.y) + dy;
    rx >= 0 && ry >= 0 && rx + width <= pic_width && ry + height <= pic_height
}

/// SAD of the block against the reference at full-pel offset `(dx, dy)` from the center.
pub open spec fn fp_sad(src: Seq<u8>, src_stride: usize, rf: Seq<u8>, ref_stride: usize, origin_x: i32,
    origin_y: i32, center: Mv, width: usize, height: usize, dx: int, dy: int) -> int {
    let rx = origin_x + full_pel(center.x) + dx;
    let ry = origin_y + full_pel(center.y) + dy;
    rows_sad(src, src_stride, rf, ref_stride, ry * ref_stride + rx, width as int, height as int)
}

/// The motion vector of full-pel offset `(dx, dy)` from the center, in 1/8 pel.
pub open spec fn fp_mv(center: Mv, dx: int, dy: int) -> Mv {
    Mv { x: ((full_pel(center.x) + dx) * 8) as i16, y: ((full_pel(center.y) + dy) * 8) as i16 }
}

/// No coordinate of a full-pel search leaves `i32`.
pub open spec fn fp_in_range(origin: i32, center: i16, search: i32) -> bool {
    &&& i32::MIN <= origin + full_pel(center) - search
    &&& origin + full_pel(center) + search <= i32::MAX
    &&& i32::MIN <= (full_pel(center) - search) * 8
    &&& (full_pel(center) + search) * 8 <= i32::MAX
}

/// `r` is the result of the full-pel search: the first position, in raster order of
/// the window, of least SAD among those inside the picture, or the center with
/// `u32::MAX` when no position has a SAD below `u32::MAX`.
pub open spec fn is_full_pel_result(src: Seq<u8>, src_stride: usize, rf: Seq<u8>, ref_stride: usize, origin_x: i32,
    origin_y: i32, width: usize, height: usize, center: Mv, search_w: i32, search_h: i32, pic_width: usize,
    pic_height: usize, r: MeResult) -> bool {
    let valid = |dx: int, dy: int| fp_valid(origin_x, origin_y, center, width, height, pic_width, pic_height, dx, dy);
    let cost = |dx: int, dy: int| fp_sad(src, src_stride, rf, ref_stride, origin_x, origin_y, center, width, height, dx, dy);
    ||| (first_min_so_far(valid, cost, search_w as int, search_h as int, -search_w, search_h + 1, r.distortion as int,
            false, 0, 0) && r.mv == center)
    ||| exists|bdx: int, bdy: int|
            first_min_so_far(valid, cost, search_w as int, search_h as int, -search_w, search_h + 1, r.distortion as int,
                true, bdx, bdy) && r.mv == #[trigger] fp_mv(center, bdx, bdy)
}

/// Full-pel motion search: the first position of least SAD in the window of
/// half-size `search_w` x `search_h` around `center_mv`, among those whose block lies
/// inside the `pic_width` x `pic_height` reference (see [`is_full_pel_result`]).
pub fn full_pel_search(src: &[u8], src_stride: usize, ref_pic: &[u8], ref_stride: usize, ref_origin_x: i32,
    ref_origin_y: i32, width: usize, height: usize, center_mv: Mv, search_w: i32, search_h: i32, pic_width: usize,
    pic_height: usize) -> (r: MeResult)
    requires
        width * height * 255 <= u32::MAX,
        width <= 0x7fff_ffff, height <= 0x7fff_ffff,
        search_w > i32::MIN, search_h > i32::MIN,
        search_w >= 0 && search_h >= 0 ==> fp_in_range(ref_origin_x, center_mv.x, search_w)
            && fp_in_range(ref_origin_y, center_mv.y, search_h),
        block_fits(src@.len(), src_stride as nat, width as nat, height as nat),
        block_fits(ref_pic@.len(), ref_stride as nat, pic_width as nat, pic_height as nat),
    ensures
        is_full_pel_result(src@, src_stride, ref_pic@, ref_stride, ref_origin_x, ref_origin_y, width, height, center_mv,
            search_w, search_h, pic_width, pic_height, r),
{
    let ghost valid = |dx: int, dy: int| fp_valid(ref_origin_x, ref_origin_y, center_mv, width, height, pic_width,
        pic_height, dx, dy);
    let ghost cost = |dx: int, dy: int| fp_sad(src@, src_stride, ref_pic@, ref_stride, ref_origin_x, ref_origin_y,
        center_mv, width, height, dx, dy);
    let ghost sw = search_w as int;
    let ghost sh = search_h as int;
    let mut best = MeResult { mv: center_mv, distortion: u32::MAX };
    let ghost mut found: bool = false;
    let ghost mut bdx: int = 0;
    let ghost mut bdy: int = 0;
    proof {
        lemma_i64_shr(center_mv.x as i64, 3);
        lemma_i64_shr(center_mv.y as i64, 3);
        vstd::arithmetic::power2::lemma2_to64();
    }
    let cx: i64 = (center_mv.x as i64) >> 3;
    let cy: i64 = (center_mv.y as i64) >> 3;
    let rlen: usize = ref_pic.len();
    let mut dy: i64 = -(search_h as i64);
    while dy <= search_h as i64
        invariant
            -sh <= dy <= sh + 1 || sh < 0,
            dy >= -sh,
            sw == search_w, sh == search_h,
            cx == full_pel(center_mv.x), cy == full_pel(center_mv.y),
            rlen == ref_pic@.len(),
            width * height * 255 <= u32::MAX,
            width <= 0x7fff_ffff, height <= 0x7fff_ffff,
            search_w >= 0 && search_h >= 0 ==> fp_in_range(ref_origin_x, center_mv.x, search_w)
                && fp_in_range(ref_origin_y, center_mv.y, search_h),
            block_fits(src@.len(), src_stride as nat, width as nat, height as nat),
            block_fits(ref_pic@.len(), ref_stride as nat, pic_width as nat, pic_height as nat),
            valid == (|dx: int, dy: int| fp_valid(ref_origin_x, ref_origin_y, center_mv, width, height, pic_width,
                pic_height, dx, dy)),
            cost == (|dx: int, dy: int| fp_sad(src@, src_stride, ref_pic@, ref_stride, ref_origin_x, ref_origin_y,
                center_mv, width, height, dx, dy)),
            first_min_so_far(valid, cost, sw, sh, -sw, dy as int, best.distortion as int, found, bdx, bdy),
            found ==> best.mv == fp_mv(center_mv, bdx, bdy),
            !found ==> best.mv == center_mv,
        decreases sh + 1 - dy,
    {
        let mut dx: i64 = -(search_w as i64);
        while dx <= search_w as i64
            invariant
                -sh <= dy <= sh, dx >= -sw,
                dx <= sw + 1 || sw < 0,
                sw == search_w, sh == search_h,
                cx == full_pel(center_mv.x), cy == full_pel(center_mv.y),
                rlen == ref_pic@.len(),
                width * height * 255 <= u32::MAX,
                width <= 0x7fff_ffff, height <= 0x7fff_ffff,
                search_w >= 0 && search_h >= 0 ==> fp_in_range(ref_origin_x, center_mv.x, search_w)
                    && fp_in_range(ref_origin_y, center_mv.y, search_h),
                block_fits(src@.len(), src_stride as nat, width as nat, height as nat),
                block_fits(ref_pic@.len(), ref_stride as nat, pic_width as nat, pic_height as nat),
                valid == (|dx: int, dy: int| fp_valid(ref_origin_x, ref_origin_y, center_mv, width, height, pic_width,
                    pic_height, dx, dy)),
                cost == (|dx: int, dy: int| fp_sad(src@, src_stride, ref_pic@, ref_stride, ref_origin_x, ref_origin_y,
                    center_mv, width, height, dx, dy)),
                first_min_so_far(valid, cost, sw, sh, dx as int, dy as int, best.distortion as int, found, bdx, bdy),
                found ==> best.mv == fp_mv(center_mv, bdx, bdy),
                !found ==> best.mv == center_mv,
            decreases sw + 1 - dx,
        {
            let ref_x: i64 = ref_origin_x as i64 + cx + dx;
            let ref_y: i64 = ref_origin_y as i64 + cy + dy;
            let ghost before_d = best.distortion;
            if ref_x >= 0 && ref_y >= 0 && ref_x as usize + width <= pic_width && ref_y as usize + height <= pic_height {
                proof {
                    let rx = ref_x as int;
                    let ry = ref_y as int;
                    if width > 0 && height > 0 {
                        assert(ry * ref_stride + rx + (height - 1) * ref_stride + width <= ref_pic@.len())
                            by (nonlinear_arith)
                            requires ry + height <= pic_height, rx + width <= pic_width, height > 0, width > 0,
                                rx >= 0, ry >= 0,
                                (pic_height - 1) * ref_stride + pic_width <= ref_pic@.len();
                    }
                    assert(ry * ref_stride + rx <= ref_pic@.len() || width == 0 || height == 0);
                }
                if width > 0 && height > 0 {
                    proof {
                        assert(ref_y * ref_stride <= ref_pic@.len()) by (nonlinear_arith)
                            requires ref_y * ref_stride + ref_x + (height - 1) * ref_stride + width <= ref_pic@.len(),
                                ref_x >= 0, height > 0, width > 0;
                    }
                }
                let ref_offset: usize = if width > 0 && height > 0 { ref_y as usize * ref_stride + ref_x as usize } else { 0 };
                let ghost off_spec = ref_y * ref_stride + ref_x;
                let sad: u32 = if width > 0 && height > 0 {
                    block_sad_early(src, src_stride, ref_pic, ref_stride, ref_offset, width, height, best.distortion)
                } else {
                    0
                };
                proof {
                    if width == 0 || height == 0 {
                        lemma_rows_sad_bounds(src@, src_stride, ref_pic@, ref_stride, off_spec, width as int, 0, height as int);
                        if width == 0 {
                            lemma_rows_zero_width(src@, src_stride, ref_pic@, ref_stride, off_spec, height as int);
                        }
                    }
                    assert(cost(dx as int, dy as int) == rows_sad(src@, src_stride, ref_pic@, ref_stride, off_spec,
                        width as int, height as int));
                    assert(valid(dx as int, dy as int));
                }
                if sad < best.distortion {
                    best.distortion = sad;
                    let mx: i64 = (cx + dx) * 8;
                    let my: i64 = (cy + dy) * 8;
                    best.mv = Mv { x: mx as i16, y: my as i16 };
                    proof {
                        found = true;
                        bdx = dx as int;
                        bdy = dy as int;
                    }
                }
            }
            proof {
                assert forall|x: int, y: int| #[trigger] scanned(x, y, sw, sh, dx + 1, dy as int) implies
                    scanned(x, y, sw, sh, dx as int, dy as int) || (x == dx && y == dy) by {}
            }
            dx = dx + 1;
        }
        proof {
            assert forall|x: int, y: int| #[trigger] scanned(x, y, sw, sh, -sw, dy + 1) implies
                scanned(x, y, sw, sh, dx as int, dy as int) by {}
        }
        dy = dy + 1;
    }
    proof {
        assert forall|x: int, y: int| #[trigger] scanned(x, y, sw, sh, -sw, sh + 1) implies
            scanned(x, y, sw, sh, -sw, dy as int) by {}
    }
    best
}

proof fn lemma_rows_zero_width(src: Seq<u8>, src_stride: usize, rf: Seq<u8>, ref_stride: usize, off: int, rows: int)
    ensures rows_sad(src, src_stride, rf, ref_stride, off, 0, rows) == 0,
    decreases rows,
{
    if rows > 0 {
        lemma_rows_zero_width(src, src_stride, rf, ref_stride, off, rows - 1);
    }
}


/// Interpolated reference pixel at `off` for a sub-pel fraction `(fx, fy)` (each in
/// 0..8). Half-pel: the pixel, or the rounded average of the two or four neighbours
/// that the non-zero fractions select. Quarter-pel: bilinear weights `fx / 8` and
/// `fy / 8`, rounded.
pub open spec fn subpel_px(rf: Seq<u8>, ref_stride: usize, off: int, fx: int, fy: int, quarter: bool) -> int {
    let tl = rf[off] as int;
    let tr = rf[off + 1] as int;
    let bl = rf[off + ref_stride] as int;
    let br = rf[off + ref_stride + 1] as int;
    if fx == 0 && fy == 0 {
        tl
    } else if !quarter {
        if fy == 0 { (tl + tr + 1) / 2 } else if fx == 0 { (tl + bl + 1) / 2 } else { (tl + tr + bl + br + 2) / 4 }
    } else {
        if fy == 0 {
            ((8 - fx) * tl + fx * tr + 4) / 8
        } else if fx == 0 {
            ((8 - fy) * tl + fy * bl + 4) / 8
        } else {
            ((8 - fy) * ((8 - fx) * tl + fx * tr) + fy * ((8 - fx) * bl + fx * br) + 32) / 64
        }
    }
}

/// SAD of the first `n` pixels, in raster order, of the block against the
/// interpolated reference with top-left `base`.
pub open spec fn subpel_sad(src: Seq<u8>, src_stride: usize, rf: Seq<u8>, ref_stride: usize, base: int, width: usize,
    fx: int, fy: int, quarter: bool, n: int) -> int
    decreases n,
{
    if n <= 0 || width == 0 {
        0
    } else {
        let r = (n - 1) / (width as int);
        let c = (n - 1) % (width as int);
        subpel_sad(src, src_stride, rf, ref_stride, base, width, fx, fy, quarter, n - 1)
            + abs_diff(src[raster(r, c, src_stride as int)] as int,
                subpel_px(rf, ref_stride, base + raster(r, c, ref_stride as int), fx, fy, quarter))
    }
}

/// The nine refinement offsets, in 1/8 pel, for a step of `step`: none, left, right,
/// up, down, then the four diagonals.
pub open spec fn refine_offset(i: int, step: int) -> (int, int) {
    if i == 0 { (0, 0) }
    else if i == 1 { (-step, 0) }
    else if i == 2 { (step, 0) }
    else if i == 3 { (0, -step) }
    else if i == 4 { (0, step) }
    else if i == 5 { (-step, -step) }
    else if i == 6 { (step, -step) }
    else if i == 7 { (-step, step) }
    else { (step, step) }
}

/// Candidate `i` of a refinement around `mv`.
pub open spec fn refine_mv(mv: Mv, i: int, step: int) -> Mv {
    Mv { x: (mv.x + refine_offset(i, step).0) as i16, y: (mv.y + refine_offset(i, step).1) as i16 }
}

/// Candidate `m` lies in the picture, with one more column and row when it has a
/// fractional part.
pub open spec fn subpel_valid(origin_x: i32, origin_y: i32, width: usize, height: usize, pic_width: usize,
    pic_height: usize, m: Mv) -> bool {
    let ix = origin_x + full_pel(m.x);
    let iy = origin_y + full_pel(m.y);
    let margin: int = if (m.x as int) % 8 != 0 || (m.y as int) % 8 != 0 { 1 } else { 0 };
    ix >= 0 && iy >= 0 && ix + width + margin <= pic_width && iy + height + margin <= pic_height
}

/// SAD of candidate `m` against the interpolated reference.
pub open spec fn subpel_cost(src: Seq<u8>, src_stride: usize, rf: Seq<u8>, ref_stride: usize, origin_x: i32,
    origin_y: i32, width: usize, height: usize, m: Mv, quarter: bool) -> int {
    let ix = origin_x + full_pel(m.x);
    let iy = origin_y + full_pel(m.y);
    subpel_sad(src, src_stride, rf, ref_stride, iy * ref_stride + ix, width, (m.x as int) % 8, (m.y as int) % 8,
        quarter, width * height)
}

/// `r` is the result of a refinement around `mv` with step `step` (4 half-pel, 2
/// quarter-pel): the first of the nine candidates (candidate `i` at position `i - 4`)
/// of least SAD among those inside the picture, or `mv` with `u32::MAX` when none has
/// a SAD below `u32::MAX`.
pub open spec fn is_refine_result(src: Seq<u8>, src_stride: usize, rf: Seq<u8>, ref_stride: usize, origin_x: i32,
    origin_y: i32, width: usize, height: usize, mv: Mv, pic_width: usize, pic_height: usize, step: int,
    quarter: bool, r: MeResult) -> bool {
    let valid = |d: int, z: int| subpel_valid(origin_x, origin_y, width, height, pic_width, pic_height,
        refine_mv(mv, d + 4, step));
    let cost = |d: int, z: int| subpel_cost(src, src_stride, rf, ref_stride, origin_x, origin_y, width, height,
        refine_mv(mv, d + 4, step), quarter);
    ||| (first_min_so_far(valid, cost, 4, 0, 5, 0, r.distortion as int, false, 0, 0) && r.mv == mv)
    ||| exists|bd: int| first_min_so_far(valid, cost, 4, 0, 5, 0, r.distortion as int, true, bd, 0)
            && r.mv == #[trigger] refine_mv(mv, bd + 4, step)
}


/// SAD of the block against the interpolated reference with top-left `base` (see
/// [`subpel_px`]).
fn subpel_block_sad(src: &[u8], src_stride: usize, ref_pic: &[u8], ref_stride: usize, base: usize, width: usize,
    height: usize, fx: i32, fy: i32, quarter: bool) -> (r: u32)
    requires
        width > 0, height > 0,
        width * height * 255 <= u32::MAX,
        0 <= fx < 8, 0 <= fy < 8,
        block_fits(src@.len(), src_stride as nat, width as nat, height as nat),
        base + (height - 1 + (if fy != 0 { 1int } else { 0 })) * ref_stride + width - 1
            + (if fx != 0 { 1int } else { 0 }) < ref_pic@.len(),
    ensures
        r == subpel_sad(src@, src_stride, ref_pic@, ref_stride, base as int, width, fx as int, fy as int, quarter,
            width * height),
{
    let slen: usize = src.len();
    let rlen: usize = ref_pic.len();
    let ghost my: int = if fy != 0 { 1 } else { 0 };
    let ghost mx: int = if fx != 0 { 1 } else { 0 };
    let mut sad: u32 = 0;
    let mut row: usize = 0;
    while row < height
        invariant
            row <= height, width > 0, slen == src@.len(), rlen == ref_pic@.len(),
            width * height * 255 <= u32::MAX,
            0 <= fx < 8, 0 <= fy < 8,
            my == (if fy != 0 { 1int } else { 0 }), mx == (if fx != 0 { 1int } else { 0 }),
            block_fits(src@.len(), src_stride as nat, width as nat, height as nat),
            base + (height - 1 + my) * ref_stride + width - 1 + mx < ref_pic@.len(),
            sad == subpel_sad(src@, src_stride, ref_pic@, ref_stride, base as int, width, fx as int, fy as int, quarter,
                row * width),
            sad <= 255 * (row * width),
        decreases height - row,
    {
        let mut col: usize = 0;
        while col < width
            invariant
                row < height, col <= width, width > 0, slen == src@.len(), rlen == ref_pic@.len(),
                width * height * 255 <= u32::MAX,
                0 <= fx < 8, 0 <= fy < 8,
                my == (if fy != 0 { 1int } else { 0 }), mx == (if fx != 0 { 1int } else { 0 }),
                block_fits(src@.len(), src_stride as nat, width as nat, height as nat),
                base + (height - 1 + my) * ref_stride + width - 1 + mx < ref_pic@.len(),
                sad == subpel_sad(src@, src_stride, ref_pic@, ref_stride, base as int, width, fx as int, fy as int,
                    quarter, row * width + col),
                sad <= 255 * (row * width + col),
            decreases width - col,
        {
            proof {
                assert(row * src_stride + col < src@.len()) by (nonlinear_arith)
                    requires row < height, col < width, (height - 1) * src_stride + width <= src@.len();
                assert(base + (row + my) * ref_stride + col + mx < ref_pic@.len()) by (nonlinear_arith)
                    requires row < height, col < width, my >= 0, mx >= 0,
                        base + (height - 1 + my) * ref_stride + width - 1 + mx < ref_pic@.len();
                assert(base + row * ref_stride + col + mx < ref_pic@.len()) by (nonlinear_arith)
                    requires base + (row + my) * ref_stride + col + mx < ref_pic@.len(), my >= 0;
                assert((row + my) * ref_stride == row * ref_stride + my * ref_stride) by (nonlinear_arith);
                if fy != 0 {
                    assert(base + row * ref_stride + ref_stride + col + mx < ref_pic@.len());
                }
                lemma_raster_divmod(row as int, col as int, width as int);
                assert(row * width + col < width * height) by (nonlinear_arith) requires row < height, col < width;
                assert(255 * (row * width + col) + 255 <= width * height * 255) by (nonlinear_arith)
                    requires row * width + col < width * height;
            }
            let s: i32 = src[row * src_stride + col] as i32;
            let r_off: usize = base + row * ref_stride + col;
            let tl: i32 = ref_pic[r_off] as i32;
            let r: i32 = if fx == 0 && fy == 0 {
                tl
            } else if !quarter {
                if fy == 0 {
                    (tl + ref_pic[r_off + 1] as i32 + 1) / 2
                } else if fx == 0 {
                    (tl + ref_pic[r_off + ref_stride] as i32 + 1) / 2
                } else {
                    (tl + ref_pic[r_off + 1] as i32 + ref_pic[r_off + ref_stride] as i32
                        + ref_pic[r_off + ref_stride + 1] as i32 + 2) / 4
                }
            } else {
                if fy == 0 {
                    let tr: i32 = ref_pic[r_off + 1] as i32;
                    proof { lemma_weight_bounds(fx as int, tl as int, tr as int); }
                    ((8 - fx) * tl + fx * tr + 4) / 8
                } else if fx == 0 {
                    let bl: i32 = ref_pic[r_off + ref_stride] as i32;
                    proof { lemma_weight_bounds(fy as int, tl as int, bl as int); }
                    ((8 - fy) * tl + fy * bl + 4) / 8
                } else {
                    let tr: i32 = ref_pic[r_off + 1] as i32;
                    let bl: i32 = ref_pic[r_off + ref_stride] as i32;
                    let br: i32 = ref_pic[r_off + ref_stride + 1] as i32;
                    proof {
                        lemma_weight_bounds(fx as int, tl as int, tr as int);
                        lemma_weight_bounds(fx as int, bl as int, br as int);
                    }
                    let top: i32 = (8 - fx) * tl + fx * tr;
                    let bot: i32 = (8 - fx) * bl + fx * br;
                    proof {
                        assert(0 <= (8 - fy) * top <= 8 * 2040) by (nonlinear_arith) requires 0 <= fy < 8, 0 <= top <= 2040;
                        assert(0 <= fy * bot <= 8 * 2040) by (nonlinear_arith) requires 0 <= fy < 8, 0 <= bot <= 2040;
                    }
                    ((8 - fy) * top + fy * bot + 32) / 64
                }
            };
            proof {
                let off = base + raster(row as int, col as int, ref_stride as int);
                assert(r == subpel_px(ref_pic@, ref_stride, off, fx as int, fy as int, quarter)) by (nonlinear_arith)
                    requires
                        off == r_off, tl == ref_pic@[off],
                        r == (if fx == 0 && fy == 0 { tl as int } else if !quarter {
                            if fy == 0 { (tl + ref_pic@[off + 1] + 1) / 2 }
                            else if fx == 0 { (tl + ref_pic@[off + ref_stride] + 1) / 2 }
                            else { (tl + ref_pic@[off + 1] + ref_pic@[off + ref_stride] + ref_pic@[off + ref_stride + 1] + 2) / 4 }
                        } else {
                            if fy == 0 { ((8 - fx) * tl + fx * ref_pic@[off + 1] + 4) / 8 }
                            else if fx == 0 { ((8 - fy) * tl + fy * ref_pic@[off + ref_stride] + 4) / 8 }
                            else { ((8 - fy) * ((8 - fx) * tl + fx * ref_pic@[off + 1])
                                + fy * ((8 - fx) * ref_pic@[off + ref_stride] + fx * ref_pic@[off + ref_stride + 1]) + 32) / 64 }
                        });
                assert(0 <= r <= 255) by (nonlinear_arith)
                    requires r == subpel_px(ref_pic@, ref_stride, off, fx as int, fy as int, quarter), 0 <= fx < 8, 0 <= fy < 8;
            }
            let d: u32 = if s >= r { (s - r) as u32 } else { (r - s) as u32 };
            sad = sad + d;
            col = col + 1;
        }
        proof {
            assert((row + 1) * width == row * width + width) by (nonlinear_arith);
        }
        row = row + 1;
    }
    proof {
        assert(height * width == width * height) by (nonlinear_arith);
    }
    sad
}


proof fn lemma_weight_bounds(f: int, a: int, b: int)
    requires 0 <= f < 8, 0 <= a <= 255, 0 <= b <= 255,
    ensures
        0 <= (8 - f) * a <= 2040, 0 <= f * b <= 2040,
        0 <= (8 - f) * a + f * b <= 2040,
{
    assert(0 <= (8 - f) * a <= (8 - f) * 255) by (nonlinear_arith) requires 0 <= f < 8, 0 <= a <= 255;
    assert(0 <= f * b <= f * 255) by (nonlinear_arith) requires 0 <= f < 8, 0 <= b <= 255;
}


fn refine_offset_exec(i: usize, step: i16) -> (r: (i16, i16))
    requires i < 9, 0 <= step <= 8,
    ensures r.0 == refine_offset(i as int, step as int).0, r.1 == refine_offset(i as int, step as int).1,
{
    if i == 0 { (0, 0) }
    else if i == 1 { (-step, 0) }
    else if i == 2 { (step, 0) }
    else if i == 3 { (0, -step) }
    else if i == 4 { (0, step) }
    else if i == 5 { (-step, -step) }
    else if i == 6 { (step, -step) }
    else if i == 7 { (-step, step) }
    else { (step, step) }
}

/// A refinement around `mv` by `step` stays within `i16` and its full-pel positions
/// within `i32`.
pub open spec fn refine_in_range(origin_x: i32, origin_y: i32, mv: Mv, step: int) -> bool {
    &&& i16::MIN + step <= mv.x <= i16::MAX - step
    &&& i16::MIN + step <= mv.y <= i16::MAX - step
    &&& i32::MIN <= origin_x + full_pel(mv.x) - 1 && origin_x + full_pel(mv.x) + 1 <= i32::MAX
    &&& i32::MIN <= origin_y + full_pel(mv.y) - 1 && origin_y + full_pel(mv.y) + 1 <= i32::MAX
}

/// Full-pel part and fraction of a 1/8-pel coordinate.
fn split_subpel(v: i16) -> (r: (i64, i32))
    ensures r.0 == full_pel(v), r.1 == (v as int) % 8, 0 <= r.1 < 8,
{
    proof {
        lemma_i64_shr(v as i64, 3);
        vstd::arithmetic::power2::lemma2_to64();
        vstd::arithmetic::div_mod::lemma_fundamental_div_mod(v as int, 8);
    }
    let q: i64 = (v as i64) >> 3;
    let f: i64 = v as i64 - q * 8;
    (q, f as i32)
}

fn subpel_refine(src: &[u8], src_stride: usize, ref_pic: &[u8], ref_stride: usize, ref_origin_x: i32,
    ref_origin_y: i32, width: usize, height: usize, mv: Mv, pic_width: usize, pic_height: usize, step: i16,
    quarter: bool) -> (r: MeResult)
    requires
        step == 2 || step == 4,
        width * height * 255 <= u32::MAX,
        width <= 0x7fff_ffff, height <= 0x7fff_ffff,
        refine_in_range(ref_origin_x, ref_origin_y, mv, step as int),
        block_fits(src@.len(), src_stride as nat, width as nat, height as nat),
        block_fits(ref_pic@.len(), ref_stride as nat, pic_width as nat, pic_height as nat),
    ensures
        is_refine_result(src@, src_stride, ref_pic@, ref_stride, ref_origin_x, ref_origin_y, width, height, mv,
            pic_width, pic_height, step as int, quarter, r),
{
    let ghost valid = |d: int, z: int| subpel_valid(ref_origin_x, ref_origin_y, width, height, pic_width, pic_height,
        refine_mv(mv, d + 4, step as int));
    let ghost cost = |d: int, z: int| subpel_cost(src@, src_stride, ref_pic@, ref_stride, ref_origin_x, ref_origin_y,
        width, height, refine_mv(mv, d + 4, step as int), quarter);
    let mut best = MeResult { mv, distortion: u32::MAX };
    let ghost mut found: bool = false;
    let ghost mut bd: int = 0;
    let rlen: usize = ref_pic.len();
    let mut i: usize = 0;
    while i < 9
        invariant
            i <= 9, rlen == ref_pic@.len(),
            step == 2 || step == 4,
            width * height * 255 <= u32::MAX,
            width <= 0x7fff_ffff, height <= 0x7fff_ffff,
            refine_in_range(ref_origin_x, ref_origin_y, mv, step as int),
            block_fits(src@.len(), src_stride as nat, width as nat, height as nat),
            block_fits(ref_pic@.len(), ref_stride as nat, pic_width as nat, pic_height as nat),
            valid == (|d: int, z: int| subpel_valid(ref_origin_x, ref_origin_y, width, height, pic_width, pic_height,
                refine_mv(mv, d + 4, step as int))),
            cost == (|d: int, z: int| subpel_cost(src@, src_stride, ref_pic@, ref_stride, ref_origin_x, ref_origin_y,
                width, height, refine_mv(mv, d + 4, step as int), quarter)),
            first_min_so_far(valid, cost, 4, 0, i - 4, 0, best.distortion as int, found, bd, 0),
            found ==> best.mv == refine_mv(mv, bd + 4, step as int),
            !found ==> best.mv == mv,
        decreases 9 - i,
    {
        let (dx, dy) = refine_offset_exec(i, step);
        let test_mv = Mv { x: mv.x + dx, y: mv.y + dy };
        assert(test_mv == refine_mv(mv, i as int, step as int));
        let cand = eval_subpel_candidate(src, src_stride, ref_pic, ref_stride, ref_origin_x, ref_origin_y, width, height,
            test_mv, pic_width, pic_height, quarter);
        proof {
            lemma_first_min_step(valid, cost, 4, 0, i - 4, 0, best.distortion as int, found, bd, 0);
        }
        match cand {
            Some(sad) => {
                assert(valid(i - 4, 0) && cost(i - 4, 0) == sad);
                if sad < best.distortion {
                    best.distortion = sad;
                    best.mv = test_mv;
                    proof {
                        found = true;
                        bd = i - 4;
                    }
                }
            },
            None => {
                assert(!valid(i - 4, 0));
            },
        }
        i = i + 1;
    }
    best
}

proof fn lemma_subpel_sad_zero(src: Seq<u8>, src_stride: usize, rf: Seq<u8>, ref_stride: usize, base: int,
    width: usize, fx: int, fy: int, quarter: bool, n: int)
    requires width == 0,
    ensures subpel_sad(src, src_stride, rf, ref_stride, base, width, fx, fy, quarter, n) == 0,
{
}

/// Half-pel refinement of `mv`: the nine candidates at steps of half a pixel (see
/// [`is_refine_result`] with step 4).
pub fn half_pel_refine(src: &[u8], src_stride: usize, ref_pic: &[u8], ref_stride: usize, ref_origin_x: i32,
    ref_origin_y: i32, width: usize, height: usize, mv: Mv, pic_width: usize, pic_height: usize) -> (r: MeResult)
    requires
        width * height * 255 <= u32::MAX,
        width <= 0x7fff_ffff, height <= 0x7fff_ffff,
        refine_in_range(ref_origin_x, ref_origin_y, mv, 4),
        block_fits(src@.len(), src_stride as nat, width as nat, height as nat),
        block_fits(ref_pic@.len(), ref_stride as nat, pic_width as nat, pic_height as nat),
    ensures
        is_refine_result(src@, src_stride, ref_pic@, ref_stride, ref_origin_x, ref_origin_y, width, height, mv,
            pic_width, pic_height, 4, false, r),
{
    subpel_refine(src, src_stride, ref_pic, ref_stride, ref_origin_x, ref_origin_y, width, height, mv, pic_width,
        pic_height, 4, false)
}

/// Quarter-pel refinement of `mv`: the nine candidates at steps of a quarter pixel,
/// interpolated bilinearly (see [`is_refine_result`] with step 2).
pub fn quarter_pel_refine(src: &[u8], src_stride: usize, ref_pic: &[u8], ref_stride: usize, ref_origin_x: i32,
    ref_origin_y: i32, width: usize, height: usize, mv: Mv, pic_width: usize, pic_height: usize) -> (r: MeResult)
    requires
        width * height * 255 <= u32::MAX,
        width <= 0x7fff_ffff, height <= 0x7fff_ffff,
        refine_in_range(ref_origin_x, ref_origin_y, mv, 2),
        block_fits(src@.len(), src_stride as nat, width as nat, height as nat),
        block_fits(ref_pic@.len(), ref_stride as nat, pic_width as nat, pic_height as nat),
    ensures
        is_refine_result(src@, src_stride, ref_pic@, ref_stride, ref_origin_x, ref_origin_y, width, height, mv,
            pic_width, pic_height, 2, true, r),
{
    subpel_refine(src, src_stride, ref_pic, ref_stride, ref_origin_x, ref_origin_y, width, height, mv, pic_width,
        pic_height, 2, true)
}


/// SAD of candidate `m` when its block lies in the picture, `None` otherwise.
fn eval_subpel_candidate(src: &[u8], src_stride: usize, ref_pic: &[u8], ref_stride: usize, ref_origin_x: i32,
    ref_origin_y: i32, width: usize, height: usize, m: Mv, pic_width: usize, pic_height: usize, quarter: bool)
    -> (r: Option<u32>)
    requires
        width * height * 255 <= u32::MAX,
        width <= 0x7fff_ffff, height <= 0x7fff_ffff,
        i32::MIN <= ref_origin_x + full_pel(m.x) <= i32::MAX,
        i32::MIN <= ref_origin_y + full_pel(m.y) <= i32::MAX,
        block_fits(src@.len(), src_stride as nat, width as nat, height as nat),
        block_fits(ref_pic@.len(), ref_stride as nat, pic_width as nat, pic_height as nat),
    ensures
        r is Some <==> subpel_valid(ref_origin_x, ref_origin_y, width, height, pic_width, pic_height, m),
        r matches Some(v) ==> v == subpel_cost(src@, src_stride, ref_pic@, ref_stride, ref_origin_x, ref_origin_y,
            width, height, m, quarter),
{
    let rlen: usize = ref_pic.len();
    let (qx, frac_x) = split_subpel(m.x);
    let (qy, frac_y) = split_subpel(m.y);
    let int_x: i64 = ref_origin_x as i64 + qx;
    let int_y: i64 = ref_origin_y as i64 + qy;
    let margin: usize = if frac_x != 0 || frac_y != 0 { 1 } else { 0 };
    if int_x >= 0 && int_y >= 0 && int_x as usize + width + margin <= pic_width
        && int_y as usize + height + margin <= pic_height {
        let sad: u32 = if width > 0 && height > 0 {
            proof {
                let ix = int_x as int;
                let iy = int_y as int;
                let my: int = if frac_y != 0 { 1 } else { 0 };
                let mx: int = if frac_x != 0 { 1 } else { 0 };
                assert(iy * ref_stride + ix + (height - 1 + my) * ref_stride + width - 1 + mx < ref_pic@.len())
                    by (nonlinear_arith)
                    requires iy + height + margin <= pic_height, ix + width + margin <= pic_width, height > 0,
                        width > 0, ix >= 0, iy >= 0, my <= margin, mx <= margin, 0 <= my, 0 <= mx,
                        (pic_height - 1) * ref_stride + pic_width <= ref_pic@.len();
                assert(iy * ref_stride + ix < ref_pic@.len()) by (nonlinear_arith)
                    requires iy * ref_stride + ix + (height - 1 + my) * ref_stride + width - 1 + mx < ref_pic@.len(),
                        ix >= 0, height > 0, width > 0, my >= 0, mx >= 0;
            }
            let base: usize = int_y as usize * ref_stride + int_x as usize;
            subpel_block_sad(src, src_stride, ref_pic, ref_stride, base, width, height, frac_x, frac_y, quarter)
        } else {
            proof {
                if width == 0 {
                    lemma_subpel_sad_zero(src@, src_stride, ref_pic@, ref_stride, int_y * ref_stride + int_x, width,
                        frac_x as int, frac_y as int, quarter, width * height);
                }
            }
            0
        };
        Some(sad)
    } else {
        None
    }
}

/// One step of a search for the first position of least cost: position `(x, y)`
/// either leaves the best as it is or, when it is valid and cheaper, becomes it.
proof fn lemma_first_min_step(valid: spec_fn(int, int) -> bool, cost: spec_fn(int, int) -> int, sw: int, sh: int,
    x: int, y: int, d: int, found: bool, bdx: int, bdy: int)
    requires
        first_min_so_far(valid, cost, sw, sh, x, y, d, found, bdx, bdy),
        -sw <= x <= sw, -sh <= y <= sh,
    ensures
        !(valid(x, y) && cost(x, y) < d) ==> first_min_so_far(valid, cost, sw, sh, x + 1, y, d, found, bdx, bdy),
        (valid(x, y) && cost(x, y) < d) ==> first_min_so_far(valid, cost, sw, sh, x + 1, y, cost(x, y), true, x, y),
{
    assert forall|a: int, b: int| #[trigger] scanned(a, b, sw, sh, x + 1, y) implies
        scanned(a, b, sw, sh, x, y) || (a == x && b == y) by {}
    if valid(x, y) && cost(x, y) < d {
        assert forall|a: int, b: int| #[trigger] scanned(a, b, sw, sh, x, y) implies
            scanned(a, b, sw, sh, x + 1, y) by {}
    }
}


/// A hierarchical search around `center` with half-size `search` keeps every vector,
/// refinements included, within `i16` and every position within `i32`.
pub open spec fn hme_in_range(origin: i32, center: i16, search: int) -> bool {
    &&& i32::MIN <= origin + full_pel(center) - search - 3
    &&& origin + full_pel(center) + search + 3 <= i32::MAX
    &&& i16::MIN + 8 <= (full_pel(center) - search) * 8
    &&& (full_pel(center) + search) * 8 <= i16::MAX - 8
    &&& i16::MIN + 8 <= center <= i16::MAX - 8
}

/// `r` is the result of a hierarchical search with `levels` of sub-pel refinement:
/// the full-pel search, then half-pel refinement from level 1, then quarter-pel
/// refinement from level 2.
pub open spec fn is_hme_result(src: Seq<u8>, src_stride: usize, rf: Seq<u8>, ref_stride: usize, bx: i32, by: i32,
    width: usize, height: usize, sw: i32, sh: i32, levels: u8, pic_width: usize, pic_height: usize, center: Mv,
    r: MeResult) -> bool {
    if levels == 0 {
        is_full_pel_result(src, src_stride, rf, ref_stride, bx, by, width, height, center, sw, sh, pic_width,
            pic_height, r)
    } else if levels == 1 {
        exists|r0: MeResult| #[trigger] is_full_pel_result(src, src_stride, rf, ref_stride, bx, by, width, height,
            center, sw, sh, pic_width, pic_height, r0)
            && is_refine_result(src, src_stride, rf, ref_stride, bx, by, width, height, r0.mv, pic_width, pic_height,
                4, false, r)
    } else {
        exists|r0: MeResult, r1: MeResult| #[trigger] is_full_pel_result(src, src_stride, rf, ref_stride, bx, by, width,
            height, center, sw, sh, pic_width, pic_height, r0)
            && #[trigger] is_refine_result(src, src_stride, rf, ref_stride, bx, by, width, height, r0.mv, pic_width,
                pic_height, 4, false, r1)
            && is_refine_result(src, src_stride, rf, ref_stride, bx, by, width, height, r1.mv, pic_width, pic_height,
                2, true, r)
    }
}

/// The vector of a full-pel result lies within the search window around the center.
proof fn lemma_full_pel_result_range(src: Seq<u8>, src_stride: usize, rf: Seq<u8>, ref_stride: usize, bx: i32,
    by: i32, width: usize, height: usize, center: Mv, sw: i32, sh: i32, pic_width: usize, pic_height: usize,
    r: MeResult)
    requires
        sw >= 0, sh >= 0,
        hme_in_range(bx, center.x, sw as int), hme_in_range(by, center.y, sh as int),
        is_full_pel_result(src, src_stride, rf, ref_stride, bx, by, width, height, center, sw, sh, pic_width,
            pic_height, r),
    ensures
        hme_in_range(bx, r.mv.x, 0) || r.mv == center,
        i16::MIN + 8 <= r.mv.x <= i16::MAX - 8, i16::MIN + 8 <= r.mv.y <= i16::MAX - 8,
        full_pel(center.x) - sw <= full_pel(r.mv.x) <= full_pel(center.x) + sw,
        full_pel(center.y) - sh <= full_pel(r.mv.y) <= full_pel(center.y) + sh,
        r.mv != center ==> (r.mv.x as int) % 8 == 0 && (r.mv.y as int) % 8 == 0,
{
    if r.mv != center {
        let valid = |dx: int, dy: int| fp_valid(bx, by, center, width, height, pic_width, pic_height, dx, dy);
        let cost = |dx: int, dy: int| fp_sad(src, src_stride, rf, ref_stride, bx, by, center, width, height, dx, dy);
        let (bdx, bdy) = choose|bdx: int, bdy: int|
            first_min_so_far(valid, cost, sw as int, sh as int, -sw, sh + 1, r.distortion as int, true, bdx, bdy)
            && r.mv == #[trigger] fp_mv(center, bdx, bdy);
        assert(scanned(bdx, bdy, sw as int, sh as int, -sw, sh + 1));
        let vx = (full_pel(center.x) + bdx) * 8;
        let vy = (full_pel(center.y) + bdy) * 8;
        assert(i16::MIN + 8 <= vx <= i16::MAX - 8) by (nonlinear_arith)
            requires -sw <= bdx <= sw, i16::MIN + 8 <= (full_pel(center.x) - sw) * 8,
                (full_pel(center.x) + sw) * 8 <= i16::MAX - 8, vx == (full_pel(center.x) + bdx) * 8;
        assert(i16::MIN + 8 <= vy <= i16::MAX - 8) by (nonlinear_arith)
            requires -sh <= bdy <= sh, i16::MIN + 8 <= (full_pel(center.y) - sh) * 8,
                (full_pel(center.y) + sh) * 8 <= i16::MAX - 8, vy == (full_pel(center.y) + bdy) * 8;
        assert(r.mv.x == vx && r.mv.y == vy);
        assert(vx % 8 == 0 && vy % 8 == 0) by (nonlinear_arith)
            requires vx == (full_pel(center.x) + bdx) * 8, vy == (full_pel(center.y) + bdy) * 8;
        assert(full_pel(r.mv.x) == full_pel(center.x) + bdx);
        assert(full_pel(r.mv.y) == full_pel(center.y) + bdy);
    }
}

/// The vector of a refinement result lies within one step of where it started.
proof fn lemma_refine_result_range(src: Seq<u8>, src_stride: usize, rf: Seq<u8>, ref_stride: usize, bx: i32,
    by: i32, width: usize, height: usize, mv: Mv, pic_width: usize, pic_height: usize, step: int, quarter: bool,
    r: MeResult)
    requires
        0 <= step <= 8,
        i16::MIN + step <= mv.x <= i16::MAX - step, i16::MIN + step <= mv.y <= i16::MAX - step,
        is_refine_result(src, src_stride, rf, ref_stride, bx, by, width, height, mv, pic_width, pic_height, step,
            quarter, r),
    ensures
        mv.x - step <= r.mv.x <= mv.x + step, mv.y - step <= r.mv.y <= mv.y + step,
{
    if r.mv != mv {
        let valid = |d: int, z: int| subpel_valid(bx, by, width, height, pic_width, pic_height,
            refine_mv(mv, d + 4, step));
        let cost = |d: int, z: int| subpel_cost(src, src_stride, rf, ref_stride, bx, by, width, height,
            refine_mv(mv, d + 4, step), quarter);
        let bd = choose|bd: int| first_min_so_far(valid, cost, 4, 0, 5, 0, r.distortion as int, true, bd, 0)
            && r.mv == #[trigger] refine_mv(mv, bd + 4, step);
        assert(scanned(bd, 0, 4, 0, 5, 0));
    }
}

/// Refinement law: the result of a refinement around `mv` is no worse than any of the
/// nine candidates inside the picture; and when it found one (a SAD below `u32::MAX`)
/// it is one of the candidates, inside the picture, with that SAD.
pub proof fn lemma_refine_result_min(src: Seq<u8>, src_stride: usize, rf: Seq<u8>, ref_stride: usize, bx: i32,
    by: i32, width: usize, height: usize, mv: Mv, pic_width: usize, pic_height: usize, step: int, quarter: bool,
    r: MeResult)
    requires
        is_refine_result(src, src_stride, rf, ref_stride, bx, by, width, height, mv, pic_width, pic_height, step,
            quarter, r),
    ensures
        forall|i: int| 0 <= i < 9 && subpel_valid(bx, by, width, height, pic_width, pic_height, refine_mv(mv, i, step))
            ==> r.distortion <= #[trigger] subpel_cost(src, src_stride, rf, ref_stride, bx, by, width, height,
                refine_mv(mv, i, step), quarter),
        r.distortion < u32::MAX ==> (exists|i: int| 0 <= i < 9 && r.mv == #[trigger] refine_mv(mv, i, step))
            && subpel_valid(bx, by, width, height, pic_width, pic_height, r.mv)
            && subpel_cost(src, src_stride, rf, ref_stride, bx, by, width, height, r.mv, quarter) == r.distortion,
{
    let valid = |d: int, z: int| subpel_valid(bx, by, width, height, pic_width, pic_height,
        refine_mv(mv, d + 4, step));
    let cost = |d: int, z: int| subpel_cost(src, src_stride, rf, ref_stride, bx, by, width, height,
        refine_mv(mv, d + 4, step), quarter);
    assert forall|i: int| 0 <= i < 9 && subpel_valid(bx, by, width, height, pic_width, pic_height,
        refine_mv(mv, i, step)) implies r.distortion <= #[trigger] subpel_cost(src, src_stride, rf, ref_stride, bx, by,
        width, height, refine_mv(mv, i, step), quarter) by {
        assert(scanned(i - 4, 0, 4, 0, 5, 0));
        assert(valid(i - 4, 0));
        if first_min_so_far(valid, cost, 4, 0, 5, 0, r.distortion as int, false, 0, 0) && r.mv == mv {
            assert(cost(i - 4, 0) >= u32::MAX);
        } else {
            let bd = choose|bd: int| first_min_so_far(valid, cost, 4, 0, 5, 0, r.distortion as int, true, bd, 0)
                && r.mv == #[trigger] refine_mv(mv, bd + 4, step);
            assert(cost(i - 4, 0) >= r.distortion);
        }
    }
    if r.distortion < u32::MAX {
        let bd = choose|bd: int| first_min_so_far(valid, cost, 4, 0, 5, 0, r.distortion as int, true, bd, 0)
            && r.mv == #[trigger] refine_mv(mv, bd + 4, step);
        assert(scanned(bd, 0, 4, 0, 5, 0));
        assert(0 <= bd + 4 < 9 && r.mv == refine_mv(mv, bd + 4, step));
    }
}

/// At half-pel positions the bilinear quarter-pel interpolation gives the half-pel
/// averages.
proof fn lemma_subpel_px_half(rf: Seq<u8>, ref_stride: usize, off: int, fx: int, fy: int)
    requires fx == 0 || fx == 4, fy == 0 || fy == 4,
    ensures subpel_px(rf, ref_stride, off, fx, fy, true) == subpel_px(rf, ref_stride, off, fx, fy, false),
{
    let tl = rf[off] as int;
    let tr = rf[off + 1] as int;
    let bl = rf[off + ref_stride] as int;
    let br = rf[off + ref_stride + 1] as int;
    if fx == 4 && fy == 0 {
        assert((4 * tl + 4 * tr + 4) / 8 == (tl + tr + 1) / 2) by (nonlinear_arith);
    } else if fx == 0 && fy == 4 {
        assert((4 * tl + 4 * bl + 4) / 8 == (tl + bl + 1) / 2) by (nonlinear_arith);
    } else if fx == 4 && fy == 4 {
        assert((4 * (4 * tl + 4 * tr) + 4 * (4 * bl + 4 * br) + 32) / 64 == (tl + tr + bl + br + 2) / 4)
            by (nonlinear_arith);
    }
}

/// At half-pel positions the quarter-pel SAD is the half-pel SAD.
proof fn lemma_subpel_sad_half(src: Seq<u8>, src_stride: usize, rf: Seq<u8>, ref_stride: usize, base: int,
    width: usize, fx: int, fy: int, n: int)
    requires fx == 0 || fx == 4, fy == 0 || fy == 4,
    ensures subpel_sad(src, src_stride, rf, ref_stride, base, width, fx, fy, true, n)
        == subpel_sad(src, src_stride, rf, ref_stride, base, width, fx, fy, false, n),
    decreases n,
{
    if n > 0 && width != 0 {
        lemma_subpel_sad_half(src, src_stride, rf, ref_stride, base, width, fx, fy, n - 1);
        let r = (n - 1) / (width as int);
        let c = (n - 1) % (width as int);
        lemma_subpel_px_half(rf, ref_stride, base + raster(r, c, ref_stride as int), fx, fy);
    }
}

/// A half-pel step from a full-pel vector (away from the `i16` ends) lands on a
/// half-pel position.
proof fn lemma_half_step_position(m: Mv, i: int)
    requires
        0 <= i < 9,
        (m.x as int) % 8 == 0, (m.y as int) % 8 == 0,
        i16::MIN + 8 <= m.x <= i16::MAX - 8, i16::MIN + 8 <= m.y <= i16::MAX - 8,
    ensures
        ({
            let q = refine_mv(m, i, 4);
            &&& (q.x as int) % 8 == 0 || (q.x as int) % 8 == 4
            &&& (q.y as int) % 8 == 0 || (q.y as int) % 8 == 4
        }),
{
    let (ox, oy) = refine_offset(i, 4);
    assert(ox == 0 || ox == 4 || ox == -4);
    assert(oy == 0 || oy == 4 || oy == -4);
    let q = refine_mv(m, i, 4);
    assert(q.x == m.x + ox && q.y == m.y + oy);
    let kx = (m.x as int) / 8;
    let ky = (m.y as int) / 8;
    assert(m.x as int == 8 * kx && m.y as int == 8 * ky);
    assert((8 * kx + ox) % 8 == 0 || (8 * kx + ox) % 8 == 4) by (nonlinear_arith)
        requires ox == 0 || ox == 4 || ox == -4;
    assert((8 * ky + oy) % 8 == 0 || (8 * ky + oy) % 8 == 4) by (nonlinear_arith)
        requires oy == 0 || oy == 4 || oy == -4;
}

/// Motion-search law: with sub-pel refinement the result is at least as good as
/// every half-pel neighbour (inside the picture) of the full-pel result; with
/// quarter-pel refinement too when the search starts on the full-pel grid.
pub proof fn lemma_hme_beats_half_pel_neighbours(src: Seq<u8>, src_stride: usize, rf: Seq<u8>, ref_stride: usize,
    bx: i32, by: i32, width: usize, height: usize, sw: i32, sh: i32, levels: u8, pic_width: usize, pic_height: usize,
    center: Mv, r: MeResult)
    requires
        levels >= 1,
        levels >= 2 ==> (center.x as int) % 8 == 0 && (center.y as int) % 8 == 0 && sw >= 0 && sh >= 0
            && hme_in_range(bx, center.x, sw as int) && hme_in_range(by, center.y, sh as int),
        is_hme_result(src, src_stride, rf, ref_stride, bx, by, width, height, sw, sh, levels, pic_width, pic_height,
            center, r),
    ensures
        exists|r0: MeResult| #[trigger] is_full_pel_result(src, src_stride, rf, ref_stride, bx, by, width, height,
            center, sw, sh, pic_width, pic_height, r0)
            && forall|i: int| 0 <= i < 9 && subpel_valid(bx, by, width, height, pic_width, pic_height,
                refine_mv(r0.mv, i, 4)) ==> r.distortion <= #[trigger] subpel_cost(src, src_stride, rf, ref_stride,
                bx, by, width, height, refine_mv(r0.mv, i, 4), false),
{
    if levels == 1 {
        let r0 = choose|r0: MeResult| #[trigger] is_full_pel_result(src, src_stride, rf, ref_stride, bx, by, width,
            height, center, sw, sh, pic_width, pic_height, r0)
            && is_refine_result(src, src_stride, rf, ref_stride, bx, by, width, height, r0.mv, pic_width, pic_height,
                4, false, r);
        lemma_refine_result_min(src, src_stride, rf, ref_stride, bx, by, width, height, r0.mv, pic_width, pic_height,
            4, false, r);
    } else {
        let (r0, r1) = choose|r0: MeResult, r1: MeResult| #[trigger] is_full_pel_result(src, src_stride, rf,
            ref_stride, bx, by, width, height, center, sw, sh, pic_width, pic_height, r0)
            && #[trigger] is_refine_result(src, src_stride, rf, ref_stride, bx, by, width, height, r0.mv, pic_width,
                pic_height, 4, false, r1)
            && is_refine_result(src, src_stride, rf, ref_stride, bx, by, width, height, r1.mv, pic_width, pic_height,
                2, true, r);
        lemma_full_pel_result_range(src, src_stride, rf, ref_stride, bx, by, width, height, center, sw, sh,
            pic_width, pic_height, r0);
        lemma_refine_result_min(src, src_stride, rf, ref_stride, bx, by, width, height, r0.mv, pic_width, pic_height,
            4, false, r1);
        lemma_refine_result_min(src, src_stride, rf, ref_stride, bx, by, width, height, r1.mv, pic_width, pic_height,
            2, true, r);
        if r1.distortion < u32::MAX {
            let i1 = choose|i: int| 0 <= i < 9 && r1.mv == #[trigger] refine_mv(r0.mv, i, 4);
            lemma_half_step_position(r0.mv, i1);
            let fx = (r1.mv.x as int) % 8;
            let fy = (r1.mv.y as int) % 8;
            let ix = bx + full_pel(r1.mv.x);
            let iy = by + full_pel(r1.mv.y);
            lemma_subpel_sad_half(src, src_stride, rf, ref_stride, iy * ref_stride + ix, width, fx, fy,
                width * height);
            assert(refine_mv(r1.mv, 0, 2) == r1.mv);
            assert(r.distortion <= subpel_cost(src, src_stride, rf, ref_stride, bx, by, width, height,
                refine_mv(r1.mv, 0, 2), true));
        }
        assert forall|i: int| 0 <= i < 9 && subpel_valid(bx, by, width, height, pic_width, pic_height,
            refine_mv(r0.mv, i, 4)) implies r.distortion <= #[trigger] subpel_cost(src, src_stride, rf, ref_stride,
            bx, by, width, height, refine_mv(r0.mv, i, 4), false) by {
            assert(r1.distortion <= subpel_cost(src, src_stride, rf, ref_stride, bx, by, width, height,
                refine_mv(r0.mv, i, 4), false));
        }
    }
}

/// Hierarchical motion search around `center_mv`: full-pel search in the window of
/// the parameters, then half-pel refinement from sub-pel level 1 and quarter-pel
/// refinement from level 2 (see [`is_hme_result`]).
pub fn hierarchical_me_centered(src: &[u8], src_stride: usize, ref_pic: &[u8], ref_stride: usize, block_x: i32,
    block_y: i32, width: usize, height: usize, params: &MeSearchParams, pic_width: usize, pic_height: usize,
    center_mv: Mv) -> (r: MeResult)
    requires
        width * height * 255 <= u32::MAX,
        width <= 0x7fff_ffff, height <= 0x7fff_ffff,
        hme_in_range(block_x, center_mv.x, params.search_area_width as int),
        hme_in_range(block_y, center_mv.y, params.search_area_height as int),
        block_fits(src@.len(), src_stride as nat, width as nat, height as nat),
        block_fits(ref_pic@.len(), ref_stride as nat, pic_width as nat, pic_height as nat),
    ensures
        is_hme_result(src@, src_stride, ref_pic@, ref_stride, block_x, block_y, width, height,
            params.search_area_width as i32, params.search_area_height as i32, params.subpel_level, pic_width,
            pic_height, center_mv, r),
        params.subpel_level == 1 || (params.subpel_level >= 2 && (center_mv.x as int) % 8 == 0
            && (center_mv.y as int) % 8 == 0) ==> exists|r0: MeResult| #[trigger] is_full_pel_result(src@, src_stride,
            ref_pic@, ref_stride, block_x, block_y, width, height, center_mv, params.search_area_width as i32,
            params.search_area_height as i32, pic_width, pic_height, r0)
            && forall|i: int| 0 <= i < 9 && subpel_valid(block_x, block_y, width, height, pic_width, pic_height,
                refine_mv(r0.mv, i, 4)) ==> r.distortion <= #[trigger] subpel_cost(src@, src_stride, ref_pic@,
                ref_stride, block_x, block_y, width, height, refine_mv(r0.mv, i, 4), false),
{
    let sw: i32 = params.search_area_width as i32;
    let sh: i32 = params.search_area_height as i32;
    let result0 = full_pel_search(src, src_stride, ref_pic, ref_stride, block_x, block_y, width, height, center_mv,
        sw, sh, pic_width, pic_height);
    proof {
        lemma_full_pel_result_range(src@, src_stride, ref_pic@, ref_stride, block_x, block_y, width, height,
            center_mv, sw, sh, pic_width, pic_height, result0);
    }
    let mut result = result0;
    if params.subpel_level >= 1 {
        let result1 = half_pel_refine(src, src_stride, ref_pic, ref_stride, block_x, block_y, width, height,
            result0.mv, pic_width, pic_height);
        proof {
            lemma_refine_result_range(src@, src_stride, ref_pic@, ref_stride, block_x, block_y, width, height,
                result0.mv, pic_width, pic_height, 4, false, result1);
            lemma_i64_shr(result1.mv.x as i64, 3);
            lemma_i64_shr(result0.mv.x as i64, 3);
        }
        result = result1;
        if params.subpel_level >= 2 {
            proof {
                assert(full_pel(result0.mv.x) - 1 <= full_pel(result1.mv.x) <= full_pel(result0.mv.x) + 1);
                assert(full_pel(result0.mv.y) - 1 <= full_pel(result1.mv.y) <= full_pel(result0.mv.y) + 1);
            }
            let result2 = quarter_pel_refine(src, src_stride, ref_pic, ref_stride, block_x, block_y, width, height,
                result1.mv, pic_width, pic_height);
            result = result2;
        }
    }
    proof {
        if params.subpel_level == 1 || (params.subpel_level >= 2 && (center_mv.x as int) % 8 == 0
            && (center_mv.y as int) % 8 == 0) {
            lemma_hme_beats_half_pel_neighbours(src@, src_stride, ref_pic@, ref_stride, block_x, block_y, width,
                height, sw, sh, params.subpel_level, pic_width, pic_height, center_mv, result);
        }
    }
    result
}

/// Hierarchical motion search around the zero vector.
pub fn hierarchical_me(src: &[u8], src_stride: usize, ref_pic: &[u8], ref_stride: usize, block_x: i32,
    block_y: i32, width: usize, height: usize, params: &MeSearchParams, pic_width: usize, pic_height: usize)
    -> (r: MeResult)
    requires
        width * height * 255 <= u32::MAX,
        width <= 0x7fff_ffff, height <= 0x7fff_ffff,
        hme_in_range(block_x, 0, params.search_area_width as int),
        hme_in_range(block_y, 0, params.search_area_height as int),
        block_fits(src@.len(), src_stride as nat, width as nat, height as nat),
        block_fits(ref_pic@.len(), ref_stride as nat, pic_width as nat, pic_height as nat),
    ensures
        is_hme_result(src@, src_stride, ref_pic@, ref_stride, block_x, block_y, width, height,
            params.search_area_width as i32, params.search_area_height as i32, params.subpel_level, pic_width,
            pic_height, Mv { x: 0, y: 0 }, r),
        params.subpel_level >= 1 ==> exists|r0: MeResult| #[trigger] is_full_pel_result(src@, src_stride, ref_pic@,
            ref_stride, block_x, block_y, width, height, Mv { x: 0, y: 0 }, params.search_area_width as i32,
            params.search_area_height as i32, pic_width, pic_height, r0)
            && forall|i: int| 0 <= i < 9 && subpel_valid(block_x, block_y, width, height, pic_width, pic_height,
                refine_mv(r0.mv, i, 4)) ==> r.distortion <= #[trigger] subpel_cost(src@, src_stride, ref_pic@,
                ref_stride, block_x, block_y, width, height, refine_mv(r0.mv, i, 4), false),
{
    let r = hierarchical_me_centered(src, src_stride, ref_pic, ref_stride, block_x, block_y, width, height, params,
        pic_width, pic_height, Mv::zero());
    proof {
        if params.subpel_level >= 1 {
            lemma_hme_beats_half_pel_neighbours(src@, src_stride, ref_pic@, ref_stride, block_x, block_y, width,
                height, params.search_area_width as i32, params.search_area_height as i32, params.subpel_level,
                pic_width, pic_height, Mv { x: 0, y: 0 }, r);
        }
    }
    r
}

} // verus!
