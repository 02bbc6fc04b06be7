//! Transform coefficient coding: scan orders, end-of-block classes, the
//! Exp-Golomb escape and the coefficient writers.
use vstd::prelude::*;
use crate::entropy::range_coder::{CodedSymbol, ilog, ilog_nz, lemma_ilog_bounds, coded_state, lemma_state_of_log};
use crate::entropy::writer::{AomWriter, literal_symbols, cdf_ok, codable, adapted};
use crate::entropy::context::after_coding;
use crate::tables::scan::{DEFAULT_SCAN_4X4, DEFAULT_SCAN_8X8};
pub use crate::entropy::txb::{CdfCoefCtx, write_coefficients_v2};

verus! {

/// Number of base levels coded before the range tokens.
pub const NUM_BASE_LEVELS: usize = 2;
/// Range covered by the base-range tokens.
pub const COEFF_BASE_RANGE: usize = 12;
/// Number of transform-block skip contexts.
pub const TXB_SKIP_CONTEXTS: usize = 13;
/// Largest number of end-of-block symbols.
pub const EOB_MAX_SYMS: usize = 13;
/// Number of DC sign contexts.
pub const DC_SIGN_CONTEXTS: usize = 3;
/// Number of plane types.
pub const PLANE_TYPES: usize = 2;

// ---------------------------------------------------------------------------
// Diagonal scan
// ---------------------------------------------------------------------------

/// Row where diagonal `d` starts in a `w` x `h` grid (even diagonals run up-right,
/// odd ones down-left).
pub open spec fn diag_start_row(w: nat, h: nat, d: nat) -> nat {
    if d % 2 == 0 {
        if d <= h - 1 { d } else { (h - 1) as nat }
    } else {
        if d <= w - 1 { 0 } else { (d - (w - 1)) as nat }
    }
}

/// Column where diagonal `d` starts.
pub open spec fn diag_start_col(w: nat, h: nat, d: nat) -> nat {
    (d - diag_start_row(w, h, d)) as nat
}

/// Number of cells on diagonal `d`.
pub open spec fn diag_len(w: nat, h: nat, d: nat) -> nat {
    let r = diag_start_row(w, h, d);
    let c = diag_start_col(w, h, d);
    if d % 2 == 0 {
        (if r <= w - 1 - c { r } else { (w - 1 - c) as nat }) + 1
    } else {
        (if h - 1 - r <= c { (h - 1 - r) as nat } else { c }) + 1
    }
}

/// Raster positions of the cells of diagonal `d`, in scan order.
pub open spec fn diag_cells(w: nat, h: nat, d: nat) -> Seq<u16> {
    let r = diag_start_row(w, h, d);
    let c = diag_start_col(w, h, d);
    Seq::new(diag_len(w, h, d), |k: int|
        (if d % 2 == 0 { (r - k) * w + c + k } else { (r + k) * w + c - k }) as u16)
}

/// The diagonal scan through the first `n` diagonals.
pub open spec fn diag_scan(w: nat, h: nat, n: nat) -> Seq<u16>
    decreases n,
{
    if n == 0 { Seq::empty() } else { diag_scan(w, h, (n - 1) as nat) + diag_cells(w, h, (n - 1) as nat) }
}

/// Row of cell `k` of diagonal `d`.
pub open spec fn diag_cell_row(w: nat, h: nat, d: nat, k: int) -> int {
    if d % 2 == 0 { diag_start_row(w, h, d) - k } else { diag_start_row(w, h, d) + k }
}

/// Cell `k` of diagonal `d` lies in the grid, on that diagonal, at raster position
/// `row * w + col`.
pub proof fn lemma_diag_cell(w: nat, h: nat, d: nat, k: int)
    requires 1 <= w, 1 <= h, w * h <= 65536, d < w + h - 1, 0 <= k < diag_len(w, h, d),
    ensures
        ({
            let r = diag_cell_row(w, h, d, k);
            let c = d - r;
            &&& 0 <= r < h && 0 <= c < w
            &&& 0 <= r * w + c < w * h
            &&& diag_cells(w, h, d)[k] as int == r * w + c
        }),
{
    let r = diag_cell_row(w, h, d, k);
    let c = d - r;
    assert(0 <= r * w + c < w * h) by (nonlinear_arith) requires 0 <= r < h, 0 <= c < w;
}

/// Raster position `r * w + c` with `c < w` splits back into `r` and `c`.
proof fn lemma_cell_split(w: nat, r: int, c: int)
    requires w >= 1, 0 <= c < w,
    ensures (r * w + c) / (w as int) == r, (r * w + c) % (w as int) == c,
{
    crate::dsp::fwd_txfm::lemma_raster_divmod(r, c, w as int);
}

/// The first `n` diagonals hold distinct positions of the grid, each on a diagonal
/// below `n`.
pub proof fn lemma_diag_scan_distinct(w: nat, h: nat, n: nat)
    requires 1 <= w, 1 <= h, w * h <= 65536, n <= w + h - 1,
    ensures
        forall|i: int| 0 <= i < diag_scan(w, h, n).len() ==>
            (#[trigger] diag_scan(w, h, n)[i] as int) < w * h
            && diag_scan(w, h, n)[i] as int / (w as int) + diag_scan(w, h, n)[i] as int % (w as int) < n,
        forall|i: int, j: int| 0 <= i < j < diag_scan(w, h, n).len() ==>
            #[trigger] diag_scan(w, h, n)[i] != #[trigger] diag_scan(w, h, n)[j],
    decreases n,
{
    if n > 0 {
        let m = (n - 1) as nat;
        lemma_diag_scan_distinct(w, h, m);
        let pre = diag_scan(w, h, m);
        let cells = diag_cells(w, h, m);
        let s = diag_scan(w, h, n);
        assert(s == pre + cells);
        assert forall|k: int| 0 <= k < cells.len() implies
            (#[trigger] cells[k] as int) < w * h && cells[k] as int / (w as int) == diag_cell_row(w, h, m, k)
            && cells[k] as int % (w as int) == m - diag_cell_row(w, h, m, k) by {
            lemma_diag_cell(w, h, m, k);
            let r = diag_cell_row(w, h, m, k);
            let c = m - r;
            lemma_cell_split(w, r, c);
            assert(cells[k] as int == r * w + c);
            assert((r * w + c) / (w as int) == r);
            assert((r * w + c) % (w as int) == c);
        }
        assert forall|i: int| 0 <= i < s.len() implies
            (#[trigger] s[i] as int) < w * h && s[i] as int / (w as int) + s[i] as int % (w as int) < n by {
            if i >= pre.len() {
                assert(s[i] == cells[i - pre.len()]);
            } else {
                assert(s[i] == pre[i]);
            }
        }
        assert forall|i: int, j: int| 0 <= i < j < s.len() implies #[trigger] s[i] != #[trigger] s[j] by {
            if j < pre.len() {
                assert(s[i] == pre[i] && s[j] == pre[j]);
            } else if i < pre.len() {
                assert(s[i] == pre[i] && s[j] == cells[j - pre.len()]);
            } else {
                let (ki, kj) = (i - pre.len(), j - pre.len());
                assert(s[i] == cells[ki] && s[j] == cells[kj]);
                assert(diag_cell_row(w, h, m, ki) != diag_cell_row(w, h, m, kj));
            }
        }
    }
}

/// Every cell of diagonal `d < n` occurs in the scan of the first `n` diagonals.
pub proof fn lemma_diag_scan_has(w: nat, h: nat, n: nat, d: nat, k: int)
    requires d < n, 0 <= k < diag_cells(w, h, d).len(),
    ensures diag_scan(w, h, n).contains(diag_cells(w, h, d)[k]),
    decreases n,
{
    let m = (n - 1) as nat;
    let pre = diag_scan(w, h, m);
    assert(diag_scan(w, h, n) == pre + diag_cells(w, h, m));
    if d == m {
        assert(diag_scan(w, h, n)[pre.len() + k] == diag_cells(w, h, d)[k]);
    } else {
        lemma_diag_scan_has(w, h, m, d, k);
        let i = choose|i: int| 0 <= i < pre.len() && pre[i] == diag_cells(w, h, d)[k];
        assert(diag_scan(w, h, n)[i] == pre[i]);
    }
}

/// Anti-diagonal of a raster position in a grid `w` wide: its row plus its column.
pub open spec fn anti_diag(x: u16, w: nat) -> int {
    x as int / (w as int) + x as int % (w as int)
}

/// Scan law: the diagonal scan visits the anti-diagonals in order: a later position
/// never lies on an earlier anti-diagonal (row plus column never decreases).
pub proof fn lemma_diag_scan_order(w: nat, h: nat, n: nat)
    requires 1 <= w, 1 <= h, w * h <= 65536, n <= w + h - 1,
    ensures
        forall|i: int, j: int| 0 <= i <= j < diag_scan(w, h, n).len() ==>
            anti_diag(#[trigger] diag_scan(w, h, n)[i], w) <= anti_diag(#[trigger] diag_scan(w, h, n)[j], w),
    decreases n,
{
    if n > 0 {
        let m = (n - 1) as nat;
        lemma_diag_scan_order(w, h, m);
        lemma_diag_scan_distinct(w, h, m);
        let pre = diag_scan(w, h, m);
        let cells = diag_cells(w, h, m);
        let s = diag_scan(w, h, n);
        assert(s == pre + cells);
        assert forall|k: int| 0 <= k < cells.len() implies anti_diag(#[trigger] cells[k], w) == m by {
            lemma_diag_cell(w, h, m, k);
            let r = diag_cell_row(w, h, m, k);
            lemma_cell_split(w, r, m - r);
            assert(cells[k] as int == r * w + (m - r));
        }
        assert forall|i: int, j: int| 0 <= i <= j < s.len() implies
            anti_diag(#[trigger] s[i], w) <= anti_diag(#[trigger] s[j], w) by {
            if j < pre.len() {
                assert(s[i] == pre[i] && s[j] == pre[j]);
            } else if i < pre.len() {
                assert(s[i] == pre[i] && s[j] == cells[j - pre.len()]);
                assert(anti_diag(pre[i], w) < m);
            } else {
                assert(s[i] == cells[i - pre.len()] && s[j] == cells[j - pre.len()]);
            }
        }
    }
}

/// Scan law: the diagonal scan of a `w` x `h` block (of at most 65536 cells) visits
/// every position of the block exactly once.
pub proof fn lemma_diag_scan_permutation(w: nat, h: nat)
    requires 1 <= w, 1 <= h, w * h <= 65536,
    ensures
        forall|i: int| 0 <= i < diag_scan(w, h, (w + h - 1) as nat).len() ==>
            (#[trigger] diag_scan(w, h, (w + h - 1) as nat)[i] as int) < w * h,
        forall|i: int, j: int| 0 <= i < j < diag_scan(w, h, (w + h - 1) as nat).len() ==>
            #[trigger] diag_scan(w, h, (w + h - 1) as nat)[i] != #[trigger] diag_scan(w, h, (w + h - 1) as nat)[j],
        forall|r: int, c: int| 0 <= r < h && 0 <= c < w ==>
            #[trigger] diag_scan(w, h, (w + h - 1) as nat).contains((r * w + c) as u16),
{
    let n = (w + h - 1) as nat;
    lemma_diag_scan_distinct(w, h, n);
    assert forall|r: int, c: int| 0 <= r < h && 0 <= c < w implies
        #[trigger] diag_scan(w, h, n).contains((r * w + c) as u16) by {
        let d = (r + c) as nat;
        let sr = diag_start_row(w, h, d) as int;
        let k = if d % 2 == 0 { sr - r } else { r - sr };
        assert(0 <= k < diag_len(w, h, d));
        assert(diag_cell_row(w, h, d, k) == r);
        lemma_diag_cell(w, h, d, k);
        assert(0 <= r * w + c < w * h) by (nonlinear_arith) requires 0 <= r < h, 0 <= c < w;
        lemma_diag_scan_has(w, h, n, d, k);
    }
}

/// The diagonal zigzag scan of a `width` x `height` block: scan position to raster
/// position `row * width + col`, diagonal by diagonal.
pub fn generate_diagonal_scan(width: usize, height: usize) -> (r: Vec<u16>)
    requires
        width >= 1,
        height >= 1,
        width * height <= usize::MAX,
    ensures
        r@ == diag_scan(width as nat, height as nat, (width + height - 1) as nat),
{
    let mut scan: Vec<u16> = Vec::new();
    assert(width + height - 1 <= width * height) by (nonlinear_arith)
        requires width >= 1, height >= 1;
    let ndiag: usize = (width - 1) + height;
    let ghost w = width as nat;
    let ghost h = height as nat;
    let mut diag: usize = 0;
    while diag < ndiag
        invariant
            width >= 1, height >= 1, width * height <= usize::MAX,
            ndiag == width + height - 1,
            diag <= ndiag,
            w == width, h == height,
            scan@ == diag_scan(w, h, diag as nat),
        decreases ndiag - diag,
    {
        let ghost prefix = scan@;
        let ghost cells = diag_cells(w, h, diag as nat);
        if diag % 2 == 0 {
            let start_r: usize = if diag < height - 1 { diag } else { height - 1 };
            let start_c: usize = diag - start_r;
            let mut r: usize = start_r;
            let mut c: usize = start_c;
            let mut k: usize = 0;
            loop
                invariant_except_break
                    scan@ == prefix + cells.subrange(0, k as int),
                invariant
                    width >= 1, height >= 1, width * height <= usize::MAX,
                    w == width, h == height,
                    diag < ndiag, ndiag == width + height - 1, diag % 2 == 0,
                    start_r == diag_start_row(w, h, diag as nat),
                    start_c == diag_start_col(w, h, diag as nat),
                    r == start_r - k, c == start_c + k,
                    r < height, c < width,
                    k < diag_len(w, h, diag as nat),
                    cells == diag_cells(w, h, diag as nat),
                ensures
                    scan@ == prefix + cells,
                decreases height - k,
            {
                assert(r * width + c < width * height) by (nonlinear_arith)
                    requires r < height, c < width;
                scan.push((r * width + c) as u16);
                proof {
                    assert(cells.subrange(0, k + 1) =~= cells.subrange(0, k as int).push(cells[k as int]));
                }
                if r == 0 || c + 1 >= width {
                    proof {
                        assert(k + 1 == diag_len(w, h, diag as nat));
                        assert(cells.subrange(0, k + 1) =~= cells);
                    }
                    break;
                }
                r = r - 1;
                c = c + 1;
                k = k + 1;
            }
        } else {
            let start_r: usize = if diag < width - 1 { 0 } else { diag - (width - 1) };
            let start_c: usize = diag - start_r;
            let mut r: usize = start_r;
            let mut c: usize = start_c;
            let mut k: usize = 0;
            loop
                invariant_except_break
                    scan@ == prefix + cells.subrange(0, k as int),
                invariant
                    width >= 1, height >= 1, width * height <= usize::MAX,
                    w == width, h == height,
                    diag < ndiag, ndiag == width + height - 1, diag % 2 == 1,
                    start_r == diag_start_row(w, h, diag as nat),
                    start_c == diag_start_col(w, h, diag as nat),
                    r == start_r + k, c == start_c - k,
                    r < height, c < width,
                    k < diag_len(w, h, diag as nat),
                    cells == diag_cells(w, h, diag as nat),
                ensures
                    scan@ == prefix + cells,
                decreases width - k,
            {
                assert(r * width + c < width * height) by (nonlinear_arith)
                    requires r < height, c < width;
                scan.push((r * width + c) as u16);
                proof {
                    assert(cells.subrange(0, k + 1) =~= cells.subrange(0, k as int).push(cells[k as int]));
                }
                if r + 1 >= height || c == 0 {
                    proof {
                        assert(k + 1 == diag_len(w, h, diag as nat));
                        assert(cells.subrange(0, k + 1) =~= cells);
                    }
                    break;
                }
                r = r + 1;
                c = c - 1;
                k = k + 1;
            }
        }
        proof {
            assert(diag_scan(w, h, (diag + 1) as nat) == prefix + cells);
        }
        diag = diag + 1;
    }
    scan
}

/// The default scan of a `width` x `height` block: the stored tables for 4x4 and 8x8,
/// the generated diagonal scan otherwise.
pub fn get_scan_table(width: usize, height: usize) -> (r: Vec<u16>)
    requires
        width >= 1,
        height >= 1,
        width * height <= usize::MAX,
    ensures
        width == 4 && height == 4 ==> r@ == DEFAULT_SCAN_4X4@.map(|i: int, x: i16| x as u16),
        width == 8 && height == 8 ==> r@ == DEFAULT_SCAN_8X8@.map(|i: int, x: i16| x as u16),
        !(width == 4 && height == 4) && !(width == 8 && height == 8) ==>
            r@ == diag_scan(width as nat, height as nat, (width + height - 1) as nat),
{
    if width == 4 && height == 4 {
        return table_to_u16(&DEFAULT_SCAN_4X4);
    }
    if width == 8 && height == 8 {
        return table_to_u16(&DEFAULT_SCAN_8X8);
    }
    generate_diagonal_scan(width, height)
}

/// A stored scan table as `u16` positions.
fn table_to_u16(t: &[i16]) -> (r: Vec<u16>)
    ensures r@ == t@.map(|i: int, x: i16| x as u16),
{
    let mut out: Vec<u16> = Vec::new();
    let mut i: usize = 0;
    while i < t.len()
        invariant
            i <= t.len(),
            out@ == t@.subrange(0, i as int).map(|k: int, x: i16| x as u16),
        decreases t.len() - i,
    {
        out.push(t[i] as u16);
        proof {
            assert(t@.subrange(0, i + 1).map(|k: int, x: i16| x as u16)
                =~= t@.subrange(0, i as int).map(|k: int, x: i16| x as u16).push(t@[i as int] as u16));
        }
        i = i + 1;
    }
    proof { assert(t@.subrange(0, t@.len() as int) =~= t@); }
    out
}

/// Index in `coeffs` (row stride `orig_width`) of scan entry `raster` of a grid
/// `scan_width` wide.
pub open spec fn scan_coeff_index(raster: u16, scan_width: nat, orig_width: nat) -> int {
    ((raster as nat / scan_width) * orig_width + raster as nat % scan_width) as int
}

/// Whether scan position `i` holds a nonzero coefficient.
pub open spec fn scan_nonzero(coeffs: Seq<i32>, scan: Seq<u16>, i: int, scan_width: nat, orig_width: nat) -> bool {
    let idx = scan_coeff_index(scan[i], scan_width, orig_width);
    idx < coeffs.len() && coeffs[idx] != 0
}

/// The last scan position, among the first `min(scan.len(), scan_width * scan_height)`,
/// that holds a nonzero coefficient, or `None` when there is none.
pub fn find_last_nonzero_scan_pos(coeffs: &[i32], scan: &[u16], scan_width: usize, scan_height: usize,
    orig_width: usize) -> (r: Option<usize>)
    requires
        scan_width >= 1,
        scan_width * scan_height <= usize::MAX,
        (65536int / scan_width as int) * orig_width + scan_width <= usize::MAX,
    ensures
        ({
            let n = if scan@.len() <= scan_width * scan_height { scan@.len() as int } else { scan_width * scan_height };
            match r {
                Some(i) => i < n && scan_nonzero(coeffs@, scan@, i as int, scan_width as nat, orig_width as nat)
                    && forall|j: int| i < j < n ==> !scan_nonzero(coeffs@, scan@, j, scan_width as nat, orig_width as nat),
                None => forall|j: int| 0 <= j < n ==> !scan_nonzero(coeffs@, scan@, j, scan_width as nat, orig_width as nat),
            }
        }),
{
    let total: usize = scan_width * scan_height;
    let scan_len: usize = if scan.len() < total { scan.len() } else { total };
    let mut i: usize = scan_len;
    while i > 0
        invariant
            i <= scan_len,
            scan_len <= scan@.len(),
            scan_len == (if scan@.len() <= scan_width * scan_height { scan@.len() as int } else { scan_width * scan_height }),
            scan_width >= 1,
            (65536int / scan_width as int) * orig_width + scan_width <= usize::MAX,
            forall|j: int| i <= j < scan_len ==> !scan_nonzero(coeffs@, scan@, j, scan_width as nat, orig_width as nat),
        decreases i,
    {
        i = i - 1;
        let scan_raster: usize = scan[i] as usize;
        let col: usize = scan_raster % scan_width;
        let row: usize = scan_raster / scan_width;
        proof {
            assert(row <= 65536int / scan_width as int) by (nonlinear_arith)
                requires row as int == scan_raster as int / scan_width as int, scan_raster < 65536, scan_width >= 1;
            assert(row * orig_width <= (65536int / scan_width as int) * orig_width) by (nonlinear_arith)
                requires row <= 65536int / scan_width as int, orig_width >= 0;
        }
        let coeff_idx: usize = row * orig_width + col;
        if coeff_idx < coeffs.len() && coeffs[coeff_idx] != 0 {
            return Some(i);
        }
    }
    None
}

/// End-of-block class of a scan position: its bit length (of its low 32 bits).
pub fn eob_to_bin(eob: usize) -> (r: u32)
    ensures r == ilog((eob as u32) as nat),
{
    let e: u32 = eob as u32;
    if e == 0 {
        return 0;
    }
    ilog_nz(e) as u32
}

/// `log2(dim) - 2` (at least 0) for a transform dimension in pixels: 4 -> 0, ..., 64 -> 4.
pub fn log2_of_tx_dim(dim: usize) -> (r: usize)
    requires dim >= 1,
    ensures r == (if ilog(dim as nat) >= 3 { ilog(dim as nat) - 3 } else { 0 }),
{
    let mut bits: usize = 0;
    let mut v: usize = dim;
    proof {
        vstd::arithmetic::power2::lemma2_to64_rest();
        crate::entropy::range_coder::lemma_ilog_le(dim as nat, 64);
    }
    while v > 0
        invariant
            bits + ilog(v as nat) == ilog(dim as nat),
            ilog(dim as nat) <= 64,
            v <= dim,
        decreases v,
    {
        proof { lemma_ilog_le_bits(v as nat); lemma_ilog_bounds(v as nat); }
        v = v / 2;
        bits = bits + 1;
    }
    if bits >= 3 { bits - 3 } else { 0 }
}

/// The bit length of a number is one more than that of its half.
proof fn lemma_ilog_le_bits(v: nat)
    requires v > 0,
    ensures ilog(v) == 1 + ilog(v / 2),
{
}

/// TXB skip context: the number of neighbours with coefficients.
pub fn get_txb_skip_context(above_has_coeff: bool, left_has_coeff: bool) -> (r: usize)
    ensures r == (if above_has_coeff { 1int } else { 0 }) + (if left_has_coeff { 1int } else { 0 }),
{
    match (above_has_coeff, left_has_coeff) {
        (false, false) => 0,
        (true, false) | (false, true) => 1,
        (true, true) => 2,
    }
}

/// DC sign context: 0, 1 or 2 as the neighbours' signs sum below, at or above zero.
pub fn get_dc_sign_context(above_dc_sign: i8, left_dc_sign: i8) -> (r: usize)
    ensures r == (if above_dc_sign + left_dc_sign < 0 { 0int } else if above_dc_sign + left_dc_sign == 0 { 1 } else { 2 }),
{
    let sum: i32 = above_dc_sign as i32 + left_dc_sign as i32;
    if sum < 0 {
        0
    } else if sum == 0 {
        1
    } else {
        2
    }
}

// ---------------------------------------------------------------------------
// Exp-Golomb escape
// ---------------------------------------------------------------------------

/// Bits of the Exp-Golomb code of `value`: with `v = value + 1` of bit length `len`,
/// `len - 1` zeros, a one, then the `len - 1` low bits of `v`, most significant first.
pub open spec fn golomb_symbols(value: u32) -> Seq<CodedSymbol> {
    let v = (value + 1) as u32;
    let len = ilog(v as nat);
    Seq::new((len - 1) as nat, |i: int| CodedSymbol::Bool(false, 16384))
        + seq![CodedSymbol::Bool(true, 16384)]
        + literal_symbols(v, (len - 1) as nat)
}

/// Write `value` as an Exp-Golomb code.
pub fn write_golomb(writer: &mut AomWriter, value: u32)
    requires
        value < u32::MAX,
        old(writer).room(63),
    ensures
        final(writer).ec.wf(),
        final(writer).ec@.offs <= old(writer).ec@.offs + 7 * 63,
        final(writer).allow_update_cdf == old(writer).allow_update_cdf,
        final(writer).ec.base() == old(writer).ec.base(),
        final(writer).ec.coded() == old(writer).ec.coded() + golomb_symbols(value),
{
    let v: u32 = value + 1;
    let len: u32 = ilog_nz(v) as u32;
    let ghost zeros = Seq::new((len - 1) as nat, |i: int| CodedSymbol::Bool(false, 16384));
    let mut i: u32 = 0;
    while i < len - 1
        invariant
            1 <= len <= 32,
            i <= len - 1,
            zeros == Seq::new((len - 1) as nat, |i: int| CodedSymbol::Bool(false, 16384)),
            writer.ec.wf(),
            writer.ec@.offs <= old(writer).ec@.offs + 7 * i,
            old(writer).ec@.offs + 7 * 63 < crate::entropy::range_coder::offs_limit(),
            writer.allow_update_cdf == old(writer).allow_update_cdf,
            writer.ec.base() == old(writer).ec.base(),
            writer.ec.coded() == old(writer).ec.coded() + zeros.subrange(0, i as int),
        decreases len - 1 - i,
    {
        writer.write_bit(false);
        proof {
            assert(zeros.subrange(0, i + 1) =~= zeros.subrange(0, i as int).push(CodedSymbol::Bool(false, 16384)));
        }
        i = i + 1;
    }
    proof { assert(zeros.subrange(0, (len - 1) as int) =~= zeros); }
    writer.write_bit(true);
    writer.write_literal(v, len - 1);
    proof {
        let a = old(writer).ec.coded();
        assert(writer.ec.coded() =~= a + golomb_symbols(value));
    }
}

// ---------------------------------------------------------------------------
// Coefficient writer with its own CDF context
// ---------------------------------------------------------------------------

/// CDFs of the coefficient writer.
#[derive(Debug, Clone)]
pub struct CoeffContext {
    /// TXB skip CDFs.
    pub txb_skip_cdf: [[u16; 3]; 13],
    /// DC sign CDFs.
    pub dc_sign_cdf: [[u16; 3]; 3],
    /// End-of-block CDF.
    pub eob_multi_cdf: [u16; 14],
    /// Base level CDFs (levels 0, 1, 2 and 3+).
    pub base_cdf: [[u16; 5]; 42],
    /// Base range CDFs.
    pub br_cdf: [[u16; 5]; 21],
}

/// The CDF rows of a [`CoeffContext`].
#[verifier::ext_equal]
pub struct CoeffCdfs {
    pub txb_skip: Seq<Seq<u16>>,
    pub dc_sign: Seq<Seq<u16>>,
    pub eob_multi: Seq<u16>,
    pub base: Seq<Seq<u16>>,
    pub br: Seq<Seq<u16>>,
}

impl View for CoeffContext {
    type V = CoeffCdfs;

    open spec fn view(&self) -> CoeffCdfs {
        CoeffCdfs {
            txb_skip: self.txb_skip_cdf@.map(|i: int, r: [u16; 3]| r@),
            dc_sign: self.dc_sign_cdf@.map(|i: int, r: [u16; 3]| r@),
            eob_multi: self.eob_multi_cdf@,
            base: self.base_cdf@.map(|i: int, r: [u16; 5]| r@),
            br: self.br_cdf@.map(|i: int, r: [u16; 5]| r@),
        }
    }
}

/// Default TXB skip CDFs.
pub const DEFAULT_COEFF_TXB_SKIP_CDF: [[u16; 3]; 13] = [[16384, 0, 0], [16384, 0, 0], [16384, 0, 0], [16384, 0, 0], [16384, 0, 0], [16384, 0, 0], [16384, 0, 0], [16384, 0, 0], [16384, 0, 0], [16384, 0, 0], [16384, 0, 0], [16384, 0, 0], [16384, 0, 0]];
/// Default DC sign CDFs.
pub const DEFAULT_COEFF_DC_SIGN_CDF: [[u16; 3]; 3] = [[16384, 0, 0], [16384, 0, 0], [16384, 0, 0]];
/// Default end-of-block CDF.
pub const DEFAULT_COEFF_EOB_MULTI_CDF: [u16; 14] = [0, 0, 0, 0, 0, 0, 0, 0, 0, 0, 0, 0, 0, 0];
/// Default base level CDFs: uniform over four symbols, `32768 * (3 - i) / 3`.
pub const DEFAULT_COEFF_BASE_CDF: [[u16; 5]; 42] = [[32768, 21845, 10922, 0, 0], [32768, 21845, 10922, 0, 0], [32768, 21845, 10922, 0, 0], [32768, 21845, 10922, 0, 0], [32768, 21845, 10922, 0, 0], [32768, 21845, 10922, 0, 0], [32768, 21845, 10922, 0, 0], [32768, 21845, 10922, 0, 0], [32768, 21845, 10922, 0, 0], [32768, 21845, 10922, 0, 0], [32768, 21845, 10922, 0, 0], [32768, 21845, 10922, 0, 0], [32768, 21845, 10922, 0, 0], [32768, 21845, 10922, 0, 0], [32768, 21845, 10922, 0, 0], [32768, 21845, 10922, 0, 0], [32768, 21845, 10922, 0, 0], [32768, 21845, 10922, 0, 0], [32768, 21845, 10922, 0, 0], [32768, 21845, 10922, 0, 0], [32768, 21845, 10922, 0, 0], [32768, 21845, 10922, 0, 0], [32768, 21845, 10922, 0, 0], [32768, 21845, 10922, 0, 0], [32768, 21845, 10922, 0, 0], [32768, 21845, 10922, 0, 0], [32768, 21845, 10922, 0, 0], [32768, 21845, 10922, 0, 0], [32768, 21845, 10922, 0, 0], [32768, 21845, 10922, 0, 0], [32768, 21845, 10922, 0, 0], [32768, 21845, 10922, 0, 0], [32768, 21845, 10922, 0, 0], [32768, 21845, 10922, 0, 0], [32768, 21845, 10922, 0, 0], [32768, 21845, 10922, 0, 0], [32768, 21845, 10922, 0, 0], [32768, 21845, 10922, 0, 0], [32768, 21845, 10922, 0, 0], [32768, 21845, 10922, 0, 0], [32768, 21845, 10922, 0, 0], [32768, 21845, 10922, 0, 0]];
/// Default base range CDFs: uniform over four symbols.
pub const DEFAULT_COEFF_BR_CDF: [[u16; 5]; 21] = [[32768, 21845, 10922, 0, 0], [32768, 21845, 10922, 0, 0], [32768, 21845, 10922, 0, 0], [32768, 21845, 10922, 0, 0], [32768, 21845, 10922, 0, 0], [32768, 21845, 10922, 0, 0], [32768, 21845, 10922, 0, 0], [32768, 21845, 10922, 0, 0], [32768, 21845, 10922, 0, 0], [32768, 21845, 10922, 0, 0], [32768, 21845, 10922, 0, 0], [32768, 21845, 10922, 0, 0], [32768, 21845, 10922, 0, 0], [32768, 21845, 10922, 0, 0], [32768, 21845, 10922, 0, 0], [32768, 21845, 10922, 0, 0], [32768, 21845, 10922, 0, 0], [32768, 21845, 10922, 0, 0], [32768, 21845, 10922, 0, 0], [32768, 21845, 10922, 0, 0], [32768, 21845, 10922, 0, 0]];

impl Default for CoeffContext {
    fn default() -> (r: Self)
        ensures
            r.txb_skip_cdf == DEFAULT_COEFF_TXB_SKIP_CDF,
            r.dc_sign_cdf == DEFAULT_COEFF_DC_SIGN_CDF,
            r.eob_multi_cdf == DEFAULT_COEFF_EOB_MULTI_CDF,
            r.base_cdf == DEFAULT_COEFF_BASE_CDF,
            r.br_cdf == DEFAULT_COEFF_BR_CDF,
    {
        CoeffContext {
            txb_skip_cdf: DEFAULT_COEFF_TXB_SKIP_CDF,
            dc_sign_cdf: DEFAULT_COEFF_DC_SIGN_CDF,
            eob_multi_cdf: DEFAULT_COEFF_EOB_MULTI_CDF,
            base_cdf: DEFAULT_COEFF_BASE_CDF,
            br_cdf: DEFAULT_COEFF_BR_CDF,
        }
    }
}

/// Magnitude of a coefficient.
pub open spec fn abs_level(c: i32) -> nat {
    if c < 0 { (-c) as nat } else { c as nat }
}

/// Number of nonzero entries of `s`.
pub open spec fn nz_count(s: Seq<i32>) -> nat
    decreases s.len(),
{
    if s.len() == 0 { 0 } else { nz_count(s.drop_last()) + (if s.last() != 0 { 1nat } else { 0nat }) }
}

/// Base-level context of coefficient `i`: its index below 6, else 6 plus 7 per
/// nonzero among the five before it (at most 41).
pub open spec fn base_ctx(coeffs: Seq<i32>, i: nat) -> int {
    if i < 6 { i as int } else { at_most_int((6 + 7 * nz_count(coeffs.subrange(i - 5, i as int))) as int, 41) }
}

/// `x` clamped to at most `m`.
pub open spec fn at_most_int(x: int, m: int) -> int {
    if x <= m { x } else { m }
}

/// Base symbol of a level: the level itself up to 2, then 3.
pub open spec fn base_symbol(level: nat) -> nat {
    if level <= 2 { level } else { 3 }
}

/// Base-range symbol of a level above 2: a quarter of its residual, or 3 when the
/// residual needs the Golomb escape.
pub open spec fn br_symbol(level: nat) -> nat {
    let residual = (level - 3) as nat;
    if residual < 12 { residual / 4 } else { 3 }
}

/// The CDFs and coded symbols after coding coefficient `i` from CDFs `s`.
pub open spec fn level_step(s: CoeffCdfs, coeffs: Seq<i32>, i: nat, allow: bool) -> (CoeffCdfs, Seq<CodedSymbol>) {
    let level = abs_level(coeffs[i as int]);
    let b = base_ctx(coeffs, i);
    let bsym = base_symbol(level);
    let s1 = CoeffCdfs { base: s.base.update(b, after_coding(allow, s.base[b], bsym, 4)), ..s };
    let head = seq![CodedSymbol::Cdf(bsym as usize, s.base[b], 4)];
    let brc = at_most_int(i as int, 20);
    let residual = (level - 3) as nat;
    let brsym = br_symbol(level);
    let s2 = if level <= 2 { s1 } else {
        CoeffCdfs { br: s1.br.update(brc, after_coding(allow, s1.br[brc], brsym, 4)), ..s1 }
    };
    let mid = if level <= 2 { Seq::empty() } else if residual < 12 {
        seq![CodedSymbol::Cdf(brsym as usize, s1.br[brc], 4)] + literal_symbols((residual % 4) as u32, 2)
    } else {
        seq![CodedSymbol::Cdf(3, s1.br[brc], 4)] + golomb_symbols((residual - 12) as u32)
    };
    let sign = if i > 0 && coeffs[i as int] != 0 { seq![CodedSymbol::Bool(coeffs[i as int] < 0, 16384)] } else { Seq::empty() };
    (s2, head + mid + sign)
}

/// The CDFs and coded symbols after coding coefficients `0..k`.
pub open spec fn levels_upto(s: CoeffCdfs, coeffs: Seq<i32>, k: nat, allow: bool) -> (CoeffCdfs, Seq<CodedSymbol>)
    decreases k,
{
    if k == 0 {
        (s, Seq::empty())
    } else {
        let prev = levels_upto(s, coeffs, (k - 1) as nat, allow);
        let step = level_step(prev.0, coeffs, (k - 1) as nat, allow);
        (step.0, prev.1 + step.1)
    }
}

/// Every row of `rows` is a CDF of `n` symbols.
pub open spec fn rows_ok(rows: Seq<Seq<u16>>, n: nat) -> bool {
    forall|r: int| 0 <= r < rows.len() ==> #[trigger] cdf_ok(rows[r], n)
}

/// `a` has as many rows as `b` and every entry of `b` below 32768 is below 32768 in `a`.
pub open spec fn stays_open(a: Seq<Seq<u16>>, b: Seq<Seq<u16>>, n: nat) -> bool {
    &&& a.len() == b.len()
    &&& forall|r: int, j: int| 0 <= r < a.len() && 0 <= j < n - 1 && #[trigger] b[r][j] < 32768 ==>
        #[trigger] a[r][j] < 32768
}

/// Coefficient `i` can be coded under CDFs `s`: its base symbol (and, above level 2,
/// its base-range symbol) has a proper interval.
pub open spec fn level_codable(s: CoeffCdfs, coeffs: Seq<i32>, i: nat) -> bool {
    let level = abs_level(coeffs[i as int]);
    &&& codable(s.base[base_ctx(coeffs, i)], base_symbol(level))
    &&& level > 2 ==> codable(s.br[at_most_int(i as int, 20)], br_symbol(level))
}

/// Number of bits of the end-of-block literal.
pub open spec fn eob_literal_bits(eob: nat) -> nat {
    if eob <= 2 { 2 } else if eob <= 4 { 3 } else if eob <= 8 { 4 } else if eob <= 16 { 5 }
    else if eob <= 32 { 6 } else if eob <= 64 { 7 } else { 8 }
}

/// The coded symbols of a block of `eob` coefficients.
pub open spec fn coeffs_symbols(s: CoeffCdfs, coeffs: Seq<i32>, eob: nat, allow: bool) -> Seq<CodedSymbol> {
    if eob == 0 {
        seq![CodedSymbol::Cdf(1, s.txb_skip[0], 2)]
    } else {
        let s1 = CoeffCdfs { txb_skip: s.txb_skip.update(0, after_coding(allow, s.txb_skip[0], 0, 2)), ..s };
        let dc = if coeffs[0] != 0 {
            seq![CodedSymbol::Cdf(if coeffs[0] < 0 { 1usize } else { 0usize }, s1.dc_sign[1], 2)]
        } else { Seq::empty() };
        seq![CodedSymbol::Cdf(0, s.txb_skip[0], 2)]
            + literal_symbols(eob as u32, eob_literal_bits(eob))
            + dc
            + levels_upto(dc_after(s1, coeffs, allow), coeffs, eob, allow).1
    }
}

/// The CDFs after the DC sign of a block whose skip flag has been coded.
pub open spec fn dc_after(s1: CoeffCdfs, coeffs: Seq<i32>, allow: bool) -> CoeffCdfs {
    if coeffs[0] != 0 {
        CoeffCdfs { dc_sign: s1.dc_sign.update(1, after_coding(allow, s1.dc_sign[1], if coeffs[0] < 0 { 1nat } else { 0nat }, 2)), ..s1 }
    } else { s1 }
}

/// The CDFs after coding a block of `eob` coefficients.
pub open spec fn coeffs_cdfs(s: CoeffCdfs, coeffs: Seq<i32>, eob: nat, allow: bool) -> CoeffCdfs {
    if eob == 0 {
        CoeffCdfs { txb_skip: s.txb_skip.update(0, after_coding(allow, s.txb_skip[0], 1, 2)), ..s }
    } else {
        let s1 = CoeffCdfs { txb_skip: s.txb_skip.update(0, after_coding(allow, s.txb_skip[0], 0, 2)), ..s };
        levels_upto(dc_after(s1, coeffs, allow), coeffs, eob, allow).0
    }
}

/// Adapting a CDF keeps it a CDF and keeps each entry below 32768 below 32768.
pub proof fn lemma_adapted_open(cdf: Seq<u16>, val: nat, n: nat)
    requires cdf_ok(cdf, n), val < n,
    ensures
        cdf_ok(adapted(cdf, val, n), n),
        adapted(cdf, val, n).len() == cdf.len(),
        forall|j: int| 0 <= j < n - 1 && cdf[j] < 32768 ==> #[trigger] adapted(cdf, val, n)[j] < 32768,
{
    crate::entropy::writer::lemma_adapted_ok(cdf, val, n);
    let a = adapted(cdf, val, n);
    let rate = crate::entropy::cdf::spec_rate(cdf[n - 1], n);
    assert(cdf[n - 1] / 16 <= 2);
    assert forall|j: int| 0 <= j < n - 1 && cdf[j] < 32768 implies #[trigger] a[j] < 32768 by {
        let x = cdf[j];
        let r16: u16 = rate as u16;
        if j < val {
            let dd: u16 = (32768 - x) as u16;
            assert(dd >> r16 < dd) by (bit_vector) requires dd >= 1, r16 >= 1, r16 <= 15;
            assert((dd >> r16) as nat == dd >> rate);
        } else {
            assert(x >> r16 <= x) by (bit_vector);
            assert((x >> r16) as nat == x >> rate);
        }
    }
}

/// Openness carries over two steps.
pub proof fn lemma_stays_open_trans(c: Seq<Seq<u16>>, b: Seq<Seq<u16>>, a: Seq<Seq<u16>>, n: nat)
    requires stays_open(c, b, n), stays_open(b, a, n),
    ensures stays_open(c, a, n),
{
    assert forall|r: int, j: int| 0 <= r < c.len() && 0 <= j < n - 1 && #[trigger] a[r][j] < 32768 implies
        #[trigger] c[r][j] < 32768 by {
        assert(b[r][j] < 32768);
    }
}

/// Coding one symbol in row `k` keeps the rows CDFs and keeps open entries open.
proof fn lemma_code_row(rows: Seq<Seq<u16>>, k: int, allow: bool, sym: nat, n: nat)
    requires rows_ok(rows, n), 0 <= k < rows.len(), sym < n,
    ensures
        rows_ok(rows.update(k, after_coding(allow, rows[k], sym, n)), n),
        stays_open(rows.update(k, after_coding(allow, rows[k], sym, n)), rows, n),
{
    assert(cdf_ok(rows[k], n));
    lemma_adapted_open(rows[k], sym, n);
    let u = rows.update(k, after_coding(allow, rows[k], sym, n));
    assert forall|r: int| 0 <= r < u.len() implies #[trigger] cdf_ok(u[r], n) by {
        if r != k { assert(cdf_ok(rows[r], n)); }
    }
}

/// Codability of a symbol under a row carries over to a row with at least its open entries.
proof fn lemma_codable_open(a: Seq<Seq<u16>>, b: Seq<Seq<u16>>, k: int, s: nat, n: nat)
    requires
        stays_open(a, b, n), rows_ok(a, n), 0 <= k < b.len(), s < n,
        codable(b[k], s),
    ensures codable(a[k], s),
{
    assert(cdf_ok(a[k], n));
    if s < n - 1 { assert(b[k][s as int] < 32768); }
    if s > 0 { assert(b[k][s - 1] < 32768); }
}

/// Number of nonzero coefficients in `coeffs[start..end]`.
fn count_nonzero(coeffs: &[i32], start: usize, end: usize) -> (r: usize)
    requires start <= end <= coeffs.len(),
    ensures r == nz_count(coeffs@.subrange(start as int, end as int)), r <= end - start,
{
    let mut cnt: usize = 0;
    let mut k: usize = start;
    while k < end
        invariant
            start <= k <= end <= coeffs.len(),
            cnt == nz_count(coeffs@.subrange(start as int, k as int)),
            cnt <= k - start,
        decreases end - k,
    {
        proof {
            assert(coeffs@.subrange(start as int, k + 1).drop_last() =~= coeffs@.subrange(start as int, k as int));
        }
        if coeffs[k] != 0 {
            cnt = cnt + 1;
        }
        k = k + 1;
    }
    cnt
}

/// Magnitude of a coefficient as `u32`.
pub(crate) fn unsigned_abs(c: i32) -> (r: u32)
    ensures r == abs_level(c),
{
    if c < 0 { (0i64 - c as i64) as u32 } else { c as u32 }
}

/// Code symbol `sym` in base row `k`.
fn code_base(writer: &mut AomWriter, ctx: &mut CoeffContext, k: usize, sym: usize)
    requires
        old(writer).room(1),
        k < 42, sym < 4,
        rows_ok(old(ctx)@.base, 4),
        codable(old(ctx)@.base[k as int], sym as nat),
    ensures
        final(writer).ec.wf(),
        final(writer).ec@.offs <= old(writer).ec@.offs + 7,
        final(writer).allow_update_cdf == old(writer).allow_update_cdf,
        final(ctx)@ == (CoeffCdfs { base: old(ctx)@.base.update(k as int,
            after_coding(old(writer).allow_update_cdf, old(ctx)@.base[k as int], sym as nat, 4)), ..old(ctx)@ }),
        final(writer).ec.base() == old(writer).ec.base(),
        final(writer).ec.coded() == old(writer).ec.coded().push(CodedSymbol::Cdf(sym, old(ctx)@.base[k as int], 4)),
        rows_ok(final(ctx)@.base, 4),
        stays_open(final(ctx)@.base, old(ctx)@.base, 4),
{
    let mut row = ctx.base_cdf[k];
    assert(row@ == old(ctx)@.base[k as int]);
    writer.write_symbol(sym, &mut row, 4);
    ctx.base_cdf[k] = row;
    proof {
        assert(ctx@.base =~= old(ctx)@.base.update(k as int,
            after_coding(old(writer).allow_update_cdf, old(ctx)@.base[k as int], sym as nat, 4)));
        lemma_code_row(old(ctx)@.base, k as int, old(writer).allow_update_cdf, sym as nat, 4);
        assert(ctx@.txb_skip =~= old(ctx)@.txb_skip);
        assert(ctx@.dc_sign =~= old(ctx)@.dc_sign);
        assert(ctx@.br =~= old(ctx)@.br);
    }
}

/// Code symbol `sym` in base-range row `k`.
fn code_br(writer: &mut AomWriter, ctx: &mut CoeffContext, k: usize, sym: usize)
    requires
        old(writer).room(1),
        k < 21, sym < 4,
        rows_ok(old(ctx)@.br, 4),
        codable(old(ctx)@.br[k as int], sym as nat),
    ensures
        final(writer).ec.wf(),
        final(writer).ec@.offs <= old(writer).ec@.offs + 7,
        final(writer).allow_update_cdf == old(writer).allow_update_cdf,
        final(ctx)@ == (CoeffCdfs { br: old(ctx)@.br.update(k as int,
            after_coding(old(writer).allow_update_cdf, old(ctx)@.br[k as int], sym as nat, 4)), ..old(ctx)@ }),
        final(writer).ec.base() == old(writer).ec.base(),
        final(writer).ec.coded() == old(writer).ec.coded().push(CodedSymbol::Cdf(sym, old(ctx)@.br[k as int], 4)),
        rows_ok(final(ctx)@.br, 4),
        stays_open(final(ctx)@.br, old(ctx)@.br, 4),
{
    let mut row = ctx.br_cdf[k];
    assert(row@ == old(ctx)@.br[k as int]);
    writer.write_symbol(sym, &mut row, 4);
    ctx.br_cdf[k] = row;
    proof {
        assert(ctx@.br =~= old(ctx)@.br.update(k as int,
            after_coding(old(writer).allow_update_cdf, old(ctx)@.br[k as int], sym as nat, 4)));
        lemma_code_row(old(ctx)@.br, k as int, old(writer).allow_update_cdf, sym as nat, 4);
        assert(ctx@.txb_skip =~= old(ctx)@.txb_skip);
        assert(ctx@.dc_sign =~= old(ctx)@.dc_sign);
        assert(ctx@.base =~= old(ctx)@.base);
    }
}

/// Base-level context of coefficient `i`.
fn compute_base_ctx(coeffs: &[i32], i: usize) -> (r: usize)
    requires i < coeffs.len(),
    ensures r as int == base_ctx(coeffs@, i as nat), r < 42,
{
    if i < 6 {
        i
    } else {
        let n: usize = count_nonzero(coeffs, i - 5, i);
        let v: usize = 6 + n * 7;
        if v < 41 { v } else { 41 }
    }
}

/// Code coefficient `i`: its base symbol, above level 2 its base-range symbol with
/// the low residual bits or the Golomb escape, and the sign of a nonzero AC coefficient.
#[verifier::rlimit(60)]
fn write_level(writer: &mut AomWriter, coeffs: &[i32], i: usize, ctx: &mut CoeffContext)
    requires
        i < coeffs.len(),
        old(writer).room(66),
        rows_ok(old(ctx)@.base, 4),
        rows_ok(old(ctx)@.br, 4),
        level_codable(old(ctx)@, coeffs@, i as nat),
    ensures
        final(writer).ec.wf(),
        final(writer).ec@.offs <= old(writer).ec@.offs + 7 * 66,
        final(writer).allow_update_cdf == old(writer).allow_update_cdf,
        final(ctx)@ == level_step(old(ctx)@, coeffs@, i as nat, old(writer).allow_update_cdf).0,
        final(writer).ec.base() == old(writer).ec.base(),
        final(writer).ec.coded() == old(writer).ec.coded()
            + level_step(old(ctx)@, coeffs@, i as nat, old(writer).allow_update_cdf).1,
        rows_ok(final(ctx)@.base, 4),
        rows_ok(final(ctx)@.br, 4),
        stays_open(final(ctx)@.base, old(ctx)@.base, 4),
        stays_open(final(ctx)@.br, old(ctx)@.br, 4),
{
    let ghost allow = writer.allow_update_cdf;
    let ghost s0 = ctx@;
    let bctx: usize = compute_base_ctx(coeffs, i);
    let level: u32 = unsigned_abs(coeffs[i]);
    let bsym: usize = if level <= 2 { level as usize } else { 3 };
    code_base(writer, ctx, bctx, bsym);
    let ghost s1 = ctx@;
    if level > 2 {
        let residual: u32 = level - 3;
        let brc: usize = if i < 20 { i } else { 20 };
        if residual < 12 {
            code_br(writer, ctx, brc, (residual / 4) as usize);
            writer.write_literal(residual % 4, 2);
        } else {
            code_br(writer, ctx, brc, 3);
            write_golomb(writer, residual - 12);
        }
    }
    if i > 0 && coeffs[i] != 0 {
        writer.write_bit(coeffs[i] < 0);
    }
    proof {
        let step = level_step(s0, coeffs@, i as nat, allow);
        assert(ctx@ =~= step.0);
        assert(writer.ec.coded() =~= old(writer).ec.coded() + step.1);
        if level <= 2 {
            assert(ctx@.br =~= s0.br);
        }
    }
}

/// Code symbol `sym` in the TXB skip row `k`.
fn code_txb_skip(writer: &mut AomWriter, ctx: &mut CoeffContext, k: usize, sym: usize)
    requires
        old(writer).room(1),
        k < 13, sym < 2,
        cdf_ok(old(ctx)@.txb_skip[k as int], 2),
        codable(old(ctx)@.txb_skip[k as int], sym as nat),
    ensures
        final(writer).ec.wf(),
        final(writer).ec@.offs <= old(writer).ec@.offs + 7,
        final(writer).allow_update_cdf == old(writer).allow_update_cdf,
        final(ctx)@ == (CoeffCdfs { txb_skip: old(ctx)@.txb_skip.update(k as int,
            after_coding(old(writer).allow_update_cdf, old(ctx)@.txb_skip[k as int], sym as nat, 2)), ..old(ctx)@ }),
        final(writer).ec.base() == old(writer).ec.base(),
        final(writer).ec.coded() == old(writer).ec.coded().push(CodedSymbol::Cdf(sym, old(ctx)@.txb_skip[k as int], 2)),
{
    let mut row = ctx.txb_skip_cdf[k];
    assert(row@ == old(ctx)@.txb_skip[k as int]);
    writer.write_symbol(sym, &mut row, 2);
    ctx.txb_skip_cdf[k] = row;
    proof {
        assert(ctx@.txb_skip =~= old(ctx)@.txb_skip.update(k as int,
            after_coding(old(writer).allow_update_cdf, old(ctx)@.txb_skip[k as int], sym as nat, 2)));
        assert(ctx@.base =~= old(ctx)@.base);
        assert(ctx@.dc_sign =~= old(ctx)@.dc_sign);
        assert(ctx@.br =~= old(ctx)@.br);
    }
}

/// Code symbol `sym` in DC sign row `k`.
fn code_dc_sign(writer: &mut AomWriter, ctx: &mut CoeffContext, k: usize, sym: usize)
    requires
        old(writer).room(1),
        k < 3, sym < 2,
        cdf_ok(old(ctx)@.dc_sign[k as int], 2),
        codable(old(ctx)@.dc_sign[k as int], sym as nat),
    ensures
        final(writer).ec.wf(),
        final(writer).ec@.offs <= old(writer).ec@.offs + 7,
        final(writer).allow_update_cdf == old(writer).allow_update_cdf,
        final(ctx)@ == (CoeffCdfs { dc_sign: old(ctx)@.dc_sign.update(k as int,
            after_coding(old(writer).allow_update_cdf, old(ctx)@.dc_sign[k as int], sym as nat, 2)), ..old(ctx)@ }),
        final(writer).ec.base() == old(writer).ec.base(),
        final(writer).ec.coded() == old(writer).ec.coded().push(CodedSymbol::Cdf(sym, old(ctx)@.dc_sign[k as int], 2)),
{
    let mut row = ctx.dc_sign_cdf[k];
    assert(row@ == old(ctx)@.dc_sign[k as int]);
    writer.write_symbol(sym, &mut row, 2);
    ctx.dc_sign_cdf[k] = row;
    proof {
        assert(ctx@.dc_sign =~= old(ctx)@.dc_sign.update(k as int,
            after_coding(old(writer).allow_update_cdf, old(ctx)@.dc_sign[k as int], sym as nat, 2)));
        assert(ctx@.base =~= old(ctx)@.base);
        assert(ctx@.txb_skip =~= old(ctx)@.txb_skip);
        assert(ctx@.br =~= old(ctx)@.br);
    }
}

/// The CDFs of `ctx` can code the first `eob` coefficients of `coeffs`: every row in
/// use is a CDF and every coded symbol has a proper interval.
pub open spec fn coeffs_codable(s: CoeffCdfs, coeffs: Seq<i32>, eob: nat) -> bool {
    &&& eob <= coeffs.len()
    &&& cdf_ok(s.txb_skip[0], 2)
    &&& codable(s.txb_skip[0], if eob == 0 { 1nat } else { 0nat })
    &&& eob > 0 && coeffs[0] != 0 ==> cdf_ok(s.dc_sign[1], 2) && codable(s.dc_sign[1], if coeffs[0] < 0 { 1nat } else { 0nat })
    &&& eob > 0 ==> rows_ok(s.base, 4) && rows_ok(s.br, 4)
    &&& forall|i: nat| i < eob ==> #[trigger] level_codable(s, coeffs, i)
}

/// Write the first `eob` coefficients of a block with the CDFs of `ctx`: the skip flag,
/// the end of block as a literal, the DC sign, then per coefficient its base symbol,
/// range symbol, residual and AC sign. The coder ends in the state that coding those
/// symbols from its starting state gives.
#[verifier::rlimit(40)]
#[verifier::spinoff_prover]
pub fn write_coefficients_ctx(writer: &mut AomWriter, coeffs: &[i32], eob: usize, ctx: &mut CoeffContext)
    requires
        old(writer).room((10 + 66 * eob) as nat),
        coeffs_codable(old(ctx)@, coeffs@, eob as nat),
    ensures
        final(writer).ec.wf(),
        final(writer).ec@.offs <= old(writer).ec@.offs + 7 * (10 + 66 * eob),
        final(writer).allow_update_cdf == old(writer).allow_update_cdf,
        final(ctx)@ == coeffs_cdfs(old(ctx)@, coeffs@, eob as nat, old(writer).allow_update_cdf),
        final(writer).ec.base() == old(writer).ec.base(),
        final(writer).ec.coded() == old(writer).ec.coded()
            + coeffs_symbols(old(ctx)@, coeffs@, eob as nat, old(writer).allow_update_cdf),
        final(writer).ec@ == coded_state(old(writer).ec@,
            coeffs_symbols(old(ctx)@, coeffs@, eob as nat, old(writer).allow_update_cdf)),
{
    let ghost allow = writer.allow_update_cdf;
    let ghost s0 = ctx@;
    if eob == 0 {
        code_txb_skip(writer, ctx, 0, 1);
        proof {
            assert(writer.ec.coded() =~= old(writer).ec.coded() + coeffs_symbols(s0, coeffs@, eob as nat, allow));
            lemma_state_of_log(old(writer).ec, writer.ec, coeffs_symbols(s0, coeffs@, eob as nat, allow));
        }
        return;
    }
    code_txb_skip(writer, ctx, 0, 0);
    let eob_bits: u32 = if eob <= 2 {
        2
    } else if eob <= 4 {
        3
    } else if eob <= 8 {
        4
    } else if eob <= 16 {
        5
    } else if eob <= 32 {
        6
    } else if eob <= 64 {
        7
    } else {
        8
    };
    writer.write_literal(eob as u32, eob_bits);
    if coeffs[0] != 0 {
        let sign_sym: usize = if coeffs[0] < 0 { 1 } else { 0 };
        code_dc_sign(writer, ctx, 1, sign_sym);
    }
    let ghost start = ctx@;
    let ghost prefix = writer.ec.coded();
    proof {
        let s1 = CoeffCdfs { txb_skip: s0.txb_skip.update(0, after_coding(allow, s0.txb_skip[0], 0, 2)), ..s0 };
        assert(start =~= dc_after(s1, coeffs@, allow));
        assert(prefix =~= old(writer).ec.coded() + (seq![CodedSymbol::Cdf(0, s0.txb_skip[0], 2)]
            + literal_symbols(eob as u32, eob_literal_bits(eob as nat))
            + (if coeffs@[0] != 0 {
                seq![CodedSymbol::Cdf(if coeffs@[0] < 0 { 1usize } else { 0usize }, s1.dc_sign[1], 2)]
            } else { Seq::empty() })));
    }
    let mut i: usize = 0;
    while i < eob
        invariant
            i <= eob <= coeffs.len(),
            coeffs_codable(s0, coeffs@, eob as nat),
            start.base == s0.base, start.br == s0.br,
            ctx@ == levels_upto(start, coeffs@, i as nat, allow).0,
            writer.ec.base() == old(writer).ec.base(),
            writer.ec.coded() == prefix + levels_upto(start, coeffs@, i as nat, allow).1,
            writer.ec.wf(),
            writer.allow_update_cdf == allow,
            writer.ec@.offs <= old(writer).ec@.offs + 70 + 462 * i,
            old(writer).ec@.offs + 7 * (10 + 66 * eob) < crate::entropy::range_coder::offs_limit(),
            rows_ok(ctx@.base, 4),
            rows_ok(ctx@.br, 4),
            stays_open(ctx@.base, s0.base, 4),
            stays_open(ctx@.br, s0.br, 4),
        decreases eob - i,
    {
        proof {
            assert(462 * i + 462 <= 462 * eob) by (nonlinear_arith) requires i < eob;
            assert(level_codable(s0, coeffs@, i as nat));
            let level = abs_level(coeffs@[i as int]);
            lemma_codable_open(ctx@.base, s0.base, base_ctx(coeffs@, i as nat), base_symbol(level), 4);
            if level > 2 {
                lemma_codable_open(ctx@.br, s0.br, at_most_int(i as int, 20), br_symbol(level), 4);
            }
            assert(level_codable(ctx@, coeffs@, i as nat));
        }
        let ghost before = ctx@;
        write_level(writer, coeffs, i, ctx);
        proof {
            lemma_stays_open_trans(ctx@.base, before.base, s0.base, 4);
            lemma_stays_open_trans(ctx@.br, before.br, s0.br, 4);
            let prev = levels_upto(start, coeffs@, i as nat, allow);
            let step = level_step(prev.0, coeffs@, i as nat, allow);
            assert(levels_upto(start, coeffs@, (i + 1) as nat, allow) == (step.0, prev.1 + step.1));
            assert(writer.ec.coded() =~= prefix + (prev.1 + step.1));
            assert(462 * i + 462 == 462 * (i + 1)) by (nonlinear_arith);
        }
        i = i + 1;
    }
    proof {
        assert(writer.ec.coded() =~= old(writer).ec.coded()
            + coeffs_symbols(s0, coeffs@, eob as nat, allow));
        assert(7 * (10 + 66 * eob) == 70 + 462 * eob) by (nonlinear_arith);
        lemma_state_of_log(old(writer).ec, writer.ec, coeffs_symbols(s0, coeffs@, eob as nat, allow));
    }
}

/// Write the first `eob` coefficients of a block with a fresh default context.
pub fn write_coefficients(writer: &mut AomWriter, coeffs: &[i32], eob: usize, _plane: usize, _tx_size: u8)
    requires
        old(writer).room((10 + 66 * eob) as nat),
        coeffs_codable(default_coeff_cdfs(), coeffs@, eob as nat),
    ensures
        final(writer).ec.wf(),
        final(writer).ec@.offs <= old(writer).ec@.offs + 7 * (10 + 66 * eob),
        final(writer).allow_update_cdf == old(writer).allow_update_cdf,
        final(writer).ec.base() == old(writer).ec.base(),
        final(writer).ec.coded() == old(writer).ec.coded()
            + coeffs_symbols(default_coeff_cdfs(), coeffs@, eob as nat, old(writer).allow_update_cdf),
{
    let mut ctx = CoeffContext::default();
    proof { assert(ctx@ =~= default_coeff_cdfs()); }
    write_coefficients_ctx(writer, coeffs, eob, &mut ctx);
}

/// The CDF rows of the default coefficient context.
pub open spec fn default_coeff_cdfs() -> CoeffCdfs {
    CoeffCdfs {
        txb_skip: DEFAULT_COEFF_TXB_SKIP_CDF@.map(|i: int, r: [u16; 3]| r@),
        dc_sign: DEFAULT_COEFF_DC_SIGN_CDF@.map(|i: int, r: [u16; 3]| r@),
        eob_multi: DEFAULT_COEFF_EOB_MULTI_CDF@,
        base: DEFAULT_COEFF_BASE_CDF@.map(|i: int, r: [u16; 5]| r@),
        br: DEFAULT_COEFF_BR_CDF@.map(|i: int, r: [u16; 5]| r@),
    }
}

} // verus!
