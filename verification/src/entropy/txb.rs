//! Transform-block coefficient coding in the order the decoder reads it: skip flag,
//! transform type, end-of-block class and bits, level tokens in reverse scan order
//! with neighbourhood contexts, the DC sign, then AC signs and Golomb residuals.
use vstd::prelude::*;
use vstd::arithmetic::power2::{pow2, lemma2_to64};
use crate::entropy::range_coder::{CodedSymbol, ilog, coded_state, lemma_state_of_log};
use crate::entropy::writer::{AomWriter, cdf_ok, codable, literal_symbols};
use crate::entropy::context::after_coding;
use crate::entropy::coeff::{get_scan_table, find_last_nonzero_scan_pos, eob_to_bin, log2_of_tx_dim, lemma_adapted_open, abs_level, golomb_symbols, scan_coeff_index, scan_nonzero, diag_scan, diag_cells, write_golomb};
use crate::tables::scan::{DEFAULT_SCAN_4X4, DEFAULT_SCAN_8X8};

verus! {

/// The CDF tables of the transform-block coder.
pub struct CdfCoefCtx {
    /// TXB skip CDFs, row `t_dim_ctx * 13 + skip_ctx`.
    pub skip: [[u16; 3]; 65],
    /// DC sign CDFs, one per DC sign context.
    pub dc_sign: [[u16; 3]; 3],
    /// End-of-block class CDFs, one per size context; row `k` has `5 + k` symbols.
    pub eob_bin: [[u16; 12]; 7],
    /// End-of-block high-bit CDFs, row `t_dim_ctx * 11 + class`.
    pub eob_hi_bit: [[u16; 3]; 55],
    /// End-of-block level CDFs (levels 1, 2, 3+), row `t_dim_ctx * 4 + context`.
    pub eob_base_tok: [[u16; 4]; 20],
    /// Level CDFs (levels 0, 1, 2, 3+), row `t_dim_ctx * 41 + context`.
    pub base_tok: [[u16; 5]; 205],
    /// Base-range CDFs, row `min(t_dim_ctx, 3) * 21 + context`.
    pub br_tok: [[u16; 5]; 84],
    /// Reduced-set intra transform type CDFs (five types), `[t_dim_min][y_mode]`.
    pub txtp_intra2: [[[u16; 6]; 13]; 3],
    /// Full-set intra transform type CDFs (seven types), `[t_dim_min][y_mode]`.
    pub txtp_intra1: [[[u16; 8]; 13]; 2],
}

impl CdfCoefCtx {
    /// The TXB skip CDF of `t_dim_ctx` and `skip_ctx`, to read or adapt in place.
    pub fn skip_cdf(&mut self, t_dim_ctx: usize, skip_ctx: usize) -> (r: &mut [u16])
        requires t_dim_ctx * 13 + skip_ctx < 65,
        ensures
            r@ == old(self).skip[t_dim_ctx * 13 + skip_ctx]@,
            final(r)@ == final(self).skip[t_dim_ctx * 13 + skip_ctx]@,
            forall|j: int| 0 <= j < 65 && j != t_dim_ctx * 13 + skip_ctx ==> final(self).skip[j] == old(self).skip[j],
            others_same(*old(self), *final(self), 0),
    {
        &mut self.skip[t_dim_ctx * 13 + skip_ctx]
    }

    /// The DC sign CDF of `dc_sign_ctx`, to read or adapt in place.
    pub fn dc_sign_cdf(&mut self, dc_sign_ctx: usize) -> (r: &mut [u16])
        requires dc_sign_ctx < 3,
        ensures
            r@ == old(self).dc_sign[dc_sign_ctx as int]@,
            final(r)@ == final(self).dc_sign[dc_sign_ctx as int]@,
            forall|j: int| 0 <= j < 3 && j != dc_sign_ctx ==> final(self).dc_sign[j] == old(self).dc_sign[j],
            others_same(*old(self), *final(self), 1),
    {
        &mut self.dc_sign[dc_sign_ctx]
    }

    /// The end-of-block class CDF of size context `tx2dszctx`, to read or adapt in place.
    pub fn eob_bin_cdf(&mut self, tx2dszctx: usize) -> (r: &mut [u16])
        requires tx2dszctx < 7,
        ensures
            r@ == old(self).eob_bin[tx2dszctx as int]@,
            final(r)@ == final(self).eob_bin[tx2dszctx as int]@,
            forall|j: int| 0 <= j < 7 && j != tx2dszctx ==> final(self).eob_bin[j] == old(self).eob_bin[j],
            others_same(*old(self), *final(self), 2),
    {
        &mut self.eob_bin[tx2dszctx]
    }

    /// The end-of-block high-bit CDF of `t_dim_ctx` and class `eob_bin`, to read or adapt in place.
    pub fn eob_hi_bit_cdf(&mut self, t_dim_ctx: usize, eob_bin: usize) -> (r: &mut [u16])
        requires t_dim_ctx * 11 + eob_bin < 55,
        ensures
            r@ == old(self).eob_hi_bit[t_dim_ctx * 11 + eob_bin]@,
            final(r)@ == final(self).eob_hi_bit[t_dim_ctx * 11 + eob_bin]@,
            forall|j: int| 0 <= j < 55 && j != t_dim_ctx * 11 + eob_bin ==> final(self).eob_hi_bit[j] == old(self).eob_hi_bit[j],
            others_same(*old(self), *final(self), 3),
    {
        &mut self.eob_hi_bit[t_dim_ctx * 11 + eob_bin]
    }

    /// The end-of-block level CDF of `t_dim_ctx` and `sub_ctx`, to read or adapt in place.
    pub fn eob_base_tok_cdf(&mut self, t_dim_ctx: usize, sub_ctx: usize) -> (r: &mut [u16])
        requires t_dim_ctx * 4 + sub_ctx < 20,
        ensures
            r@ == old(self).eob_base_tok[t_dim_ctx * 4 + sub_ctx]@,
            final(r)@ == final(self).eob_base_tok[t_dim_ctx * 4 + sub_ctx]@,
            forall|j: int| 0 <= j < 20 && j != t_dim_ctx * 4 + sub_ctx ==> final(self).eob_base_tok[j] == old(self).eob_base_tok[j],
            others_same(*old(self), *final(self), 4),
    {
        &mut self.eob_base_tok[t_dim_ctx * 4 + sub_ctx]
    }

    /// The level CDF of `t_dim_ctx` and `lo_ctx`, to read or adapt in place.
    pub fn base_tok_cdf(&mut self, t_dim_ctx: usize, lo_ctx: usize) -> (r: &mut [u16])
        requires t_dim_ctx * 41 + lo_ctx < 205,
        ensures
            r@ == old(self).base_tok[t_dim_ctx * 41 + lo_ctx]@,
            final(r)@ == final(self).base_tok[t_dim_ctx * 41 + lo_ctx]@,
            forall|j: int| 0 <= j < 205 && j != t_dim_ctx * 41 + lo_ctx ==> final(self).base_tok[j] == old(self).base_tok[j],
            others_same(*old(self), *final(self), 5),
    {
        &mut self.base_tok[t_dim_ctx * 41 + lo_ctx]
    }

    /// The base-range CDF of `br_ctx_level` and `hi_ctx`, to read or adapt in place.
    pub fn br_tok_cdf(&mut self, br_ctx_level: usize, hi_ctx: usize) -> (r: &mut [u16])
        requires br_ctx_level * 21 + hi_ctx < 84,
        ensures
            r@ == old(self).br_tok[br_ctx_level * 21 + hi_ctx]@,
            final(r)@ == final(self).br_tok[br_ctx_level * 21 + hi_ctx]@,
            forall|j: int| 0 <= j < 84 && j != br_ctx_level * 21 + hi_ctx ==> final(self).br_tok[j] == old(self).br_tok[j],
            others_same(*old(self), *final(self), 6),
    {
        &mut self.br_tok[br_ctx_level * 21 + hi_ctx]
    }
}

/// Every table of `b` but table `t` (numbered in field order) equals that of `a`.
pub open spec fn others_same(a: CdfCoefCtx, b: CdfCoefCtx, t: int) -> bool {
    &&& t != 0 ==> b.skip == a.skip
    &&& t != 1 ==> b.dc_sign == a.dc_sign
    &&& t != 2 ==> b.eob_bin == a.eob_bin
    &&& t != 3 ==> b.eob_hi_bit == a.eob_hi_bit
    &&& t != 4 ==> b.eob_base_tok == a.eob_base_tok
    &&& t != 5 ==> b.base_tok == a.base_tok
    &&& t != 6 ==> b.br_tok == a.br_tok
    &&& b.txtp_intra2 == a.txtp_intra2
    &&& b.txtp_intra1 == a.txtp_intra1
}

/// Table numbers of the view of a [`CdfCoefCtx`].
pub open spec fn t_skip() -> int { 0 }
pub open spec fn t_dc_sign() -> int { 1 }
pub open spec fn t_eob_bin() -> int { 2 }
pub open spec fn t_eob_hi() -> int { 3 }
pub open spec fn t_eob_base() -> int { 4 }
pub open spec fn t_base() -> int { 5 }
pub open spec fn t_br() -> int { 6 }
pub open spec fn t_txtp2() -> int { 7 }
pub open spec fn t_txtp1() -> int { 8 }

impl View for CdfCoefCtx {
    type V = Seq<Seq<Seq<u16>>>;

    /// The nine tables in field order, each as its rows; the transform type tables are
    /// flattened to row `t_dim_min * 13 + y_mode`.
    open spec fn view(&self) -> Seq<Seq<Seq<u16>>> {
        seq![
            self.skip@.map(|i: int, r: [u16; 3]| r@),
            self.dc_sign@.map(|i: int, r: [u16; 3]| r@),
            self.eob_bin@.map(|i: int, r: [u16; 12]| r@),
            self.eob_hi_bit@.map(|i: int, r: [u16; 3]| r@),
            self.eob_base_tok@.map(|i: int, r: [u16; 4]| r@),
            self.base_tok@.map(|i: int, r: [u16; 5]| r@),
            self.br_tok@.map(|i: int, r: [u16; 5]| r@),
            Seq::new(39, |i: int| self.txtp_intra2[i / 13][i % 13]@),
            Seq::new(26, |i: int| self.txtp_intra1[i / 13][i % 13]@),
        ]
    }
}

/// Number of rows of table `t`.
pub open spec fn table_rows(t: int) -> nat {
    if t == 0 { 65 } else if t == 1 { 3 } else if t == 2 { 7 } else if t == 3 { 55 }
    else if t == 4 { 20 } else if t == 5 { 205 } else if t == 6 { 84 } else if t == 7 { 39 } else { 26 }
}

/// Number of symbols of row `r` of table `t`.
pub open spec fn table_nsyms(t: int, r: int) -> nat {
    if t == 0 || t == 1 || t == 3 { 2 } else if t == 2 { (5 + r) as nat } else if t == 4 { 3 }
    else if t == 5 || t == 6 { 4 } else if t == 7 { 5 } else { 7 }
}

/// A CDF of `n` symbols in which every symbol has a proper interval.
pub open spec fn open_row(row: Seq<u16>, n: nat) -> bool {
    &&& cdf_ok(row, n)
    &&& forall|j: int| 0 <= j < n - 1 ==> #[trigger] row[j] < 32768
}

/// Every row of every table is an open CDF of its number of symbols.
pub open spec fn cdfs_ok(c: Seq<Seq<Seq<u16>>>) -> bool {
    &&& c.len() == 9
    &&& forall|t: int| 0 <= t < 9 ==> #[trigger] c[t].len() == table_rows(t)
    &&& forall|t: int, r: int| 0 <= t < 9 && 0 <= r < table_rows(t) ==>
        open_row(#[trigger] c[t][r], table_nsyms(t, r))
}

/// The tables and the symbols coded so far.
pub struct CoefSt {
    pub cdfs: Seq<Seq<Seq<u16>>>,
    pub log: Seq<CodedSymbol>,
}

/// Code symbol `s` in row `r` of table `t`, adapting the row when `allow`.
pub open spec fn put(st: CoefSt, t: int, r: int, s: nat, allow: bool) -> CoefSt {
    let n = table_nsyms(t, r);
    CoefSt {
        cdfs: st.cdfs.update(t, st.cdfs[t].update(r, after_coding(allow, st.cdfs[t][r], s, n))),
        log: st.log.push(CodedSymbol::Cdf(s as usize, st.cdfs[t][r], n as usize)),
    }
}

/// Append the equiprobable symbols `xs`.
pub open spec fn put_bits(st: CoefSt, xs: Seq<CodedSymbol>) -> CoefSt {
    CoefSt { cdfs: st.cdfs, log: st.log + xs }
}

/// Coding a symbol keeps every table open.
proof fn lemma_put_ok(c: Seq<Seq<Seq<u16>>>, t: int, r: int, s: nat, allow: bool)
    requires cdfs_ok(c), 0 <= t < 9, 0 <= r < table_rows(t), s < table_nsyms(t, r),
    ensures
        cdfs_ok(c.update(t, c[t].update(r, after_coding(allow, c[t][r], s, table_nsyms(t, r))))),
        codable(c[t][r], s),
{
    let n = table_nsyms(t, r);
    assert(open_row(c[t][r], n));
    lemma_adapted_open(c[t][r], s, n);
    let c2 = c.update(t, c[t].update(r, after_coding(allow, c[t][r], s, n)));
    assert forall|tt: int, rr: int| 0 <= tt < 9 && 0 <= rr < table_rows(tt) implies
        open_row(#[trigger] c2[tt][rr], table_nsyms(tt, rr)) by {
        if tt != t || rr != r { assert(c2[tt][rr] == c[tt][rr]); }
    }
    assert forall|tt: int| 0 <= tt < 9 implies #[trigger] c2[tt].len() == table_rows(tt) by {}
}

/// Code symbol `s` in row `r` of table `t`.
#[verifier::rlimit(50)]
fn code(writer: &mut AomWriter, ctx: &mut CdfCoefCtx, t: usize, r: usize, s: usize)
    requires
        old(writer).room(1),
        cdfs_ok(old(ctx)@),
        t < 9, r < table_rows(t as int), s < table_nsyms(t as int, r as int),
    ensures
        cdfs_ok(final(ctx)@),
        final(ctx)@ == put(CoefSt { cdfs: old(ctx)@, log: Seq::empty() }, t as int, r as int, s as nat,
            old(writer).allow_update_cdf).cdfs,
        final(writer).ec.coded() == old(writer).ec.coded().push(
            CodedSymbol::Cdf(s, old(ctx)@[t as int][r as int], table_nsyms(t as int, r as int) as usize)),
        final(writer).ec.wf(),
        final(writer).ec.base() == old(writer).ec.base(),
        final(writer).ec@.offs <= old(writer).ec@.offs + 7,
        final(writer).allow_update_cdf == old(writer).allow_update_cdf,
{
    let ghost c = ctx@;
    let ghost allow = writer.allow_update_cdf;
    let ghost n = table_nsyms(t as int, r as int);
    proof { lemma_put_ok(c, t as int, r as int, s as nat, allow); }
    let ghost want = c.update(t as int, c[t as int].update(r as int, after_coding(allow, c[t as int][r as int], s as nat, n)));
    if t == 0 {
        let mut row = ctx.skip[r];
        writer.write_symbol(s, &mut row, 2);
        ctx.skip[r] = row;
        assert(ctx@[0] =~= want[0]);
    } else if t == 1 {
        let mut row = ctx.dc_sign[r];
        writer.write_symbol(s, &mut row, 2);
        ctx.dc_sign[r] = row;
        assert(ctx@[1] =~= want[1]);
    } else if t == 2 {
        let mut row = ctx.eob_bin[r];
        writer.write_symbol(s, &mut row, 5 + r);
        ctx.eob_bin[r] = row;
        assert(ctx@[2] =~= want[2]);
    } else if t == 3 {
        let mut row = ctx.eob_hi_bit[r];
        writer.write_symbol(s, &mut row, 2);
        ctx.eob_hi_bit[r] = row;
        assert(ctx@[3] =~= want[3]);
    } else if t == 4 {
        let mut row = ctx.eob_base_tok[r];
        writer.write_symbol(s, &mut row, 3);
        ctx.eob_base_tok[r] = row;
        assert(ctx@[4] =~= want[4]);
    } else if t == 5 {
        let mut row = ctx.base_tok[r];
        writer.write_symbol(s, &mut row, 4);
        ctx.base_tok[r] = row;
        assert(ctx@[5] =~= want[5]);
    } else if t == 6 {
        let mut row = ctx.br_tok[r];
        writer.write_symbol(s, &mut row, 4);
        ctx.br_tok[r] = row;
        assert(ctx@[6] =~= want[6]);
    } else if t == 7 {
        let mut tbl = ctx.txtp_intra2[r / 13];
        let mut row = tbl[r % 13];
        writer.write_symbol(s, &mut row, 5);
        tbl[r % 13] = row;
        ctx.txtp_intra2[r / 13] = tbl;
        assert(ctx@[7] =~= want[7]);
    } else {
        let mut tbl = ctx.txtp_intra1[r / 13];
        let mut row = tbl[r % 13];
        writer.write_symbol(s, &mut row, 7);
        tbl[r % 13] = row;
        ctx.txtp_intra1[r / 13] = tbl;
        assert(ctx@[8] =~= want[8]);
    }
    proof {
        assert forall|k: int| 0 <= k < 9 implies #[trigger] ctx@[k] == want[k] by {
            if k != t { assert(ctx@[k] =~= want[k]); }
        }
        assert(ctx@ =~= want);
    }
}


/// Context offsets of the level tokens, `[shape][min(y, 4)][min(x, 4)]`, for square
/// blocks, blocks wider than tall, and blocks taller than wide.
pub const LO_CTX_OFFSETS: [[[u8; 5]; 5]; 3] = [
    [[0, 1, 6, 6, 21], [1, 6, 6, 21, 21], [6, 6, 21, 21, 21], [6, 21, 21, 21, 21], [21, 21, 21, 21, 21]],
    [[0, 16, 6, 6, 21], [16, 16, 6, 21, 21], [16, 16, 21, 21, 21], [16, 16, 21, 21, 21], [16, 16, 21, 21, 21]],
    [[0, 11, 11, 11, 11], [11, 11, 11, 11, 11], [6, 6, 21, 21, 21], [6, 21, 21, 21, 21], [21, 21, 21, 21, 21]],
];

/// The smaller of two naturals.
pub open spec fn min_nat(a: nat, b: nat) -> nat { if a <= b { a } else { b } }

/// The block being coded: its coefficients (row stride `width`), the coded area
/// `sw` x `sh`, its scan, the last nonzero scan position, the size context and
/// whether CDFs adapt.
pub struct TxbShape {
    pub coeffs: Seq<i32>,
    pub width: nat,
    pub sw: nat,
    pub sh: nat,
    pub scan: Seq<u16>,
    pub seob: nat,
    pub tdc: nat,
    pub allow: bool,
}

/// Row stride of the level map (one column per coded column, two of padding).
pub open spec fn lv_stride(b: TxbShape) -> nat { b.sh + 2 }

/// Coefficient index of scan position `j`.
pub open spec fn pos_index(b: TxbShape, j: int) -> int { scan_coeff_index(b.scan[j], b.sw, b.width) }

/// Magnitude at scan position `j` (0 past the end of the coefficients).
pub open spec fn pos_level(b: TxbShape, j: int) -> nat {
    let idx = pos_index(b, j);
    if idx < b.coeffs.len() { abs_level(b.coeffs[idx]) } else { 0 }
}

/// Column of scan position `j`.
pub open spec fn pos_x(b: TxbShape, j: int) -> nat { b.scan[j] as nat % b.sw }

/// Row of scan position `j`.
pub open spec fn pos_y(b: TxbShape, j: int) -> nat { b.scan[j] as nat / b.sw }

/// Level-map entry of a coded magnitude: `65 * l` below 3, else `189 + min(l, 15)`.
pub open spec fn level_byte(l: nat) -> u8 {
    (if l >= 3 { min_nat(l, 15) + 189 } else { l * 65 }) as u8
}

/// The level map once scan positions `seob` down to `k` are coded: each entry at
/// `x * stride + y`, all others 0.
pub open spec fn levels_from(b: TxbShape, k: int) -> Seq<u8>
    decreases b.seob + 1 - k,
{
    if k > b.seob || k < 0 {
        Seq::new((b.sw + 2) * lv_stride(b), |i: int| 0u8)
    } else {
        levels_from(b, k + 1).update((pos_x(b, k) * lv_stride(b) + pos_y(b, k)) as int, level_byte(pos_level(b, k)))
    }
}

/// Level-map entry at row `y`, column `x`.
pub open spec fn lv_at(b: TxbShape, lv: Seq<u8>, y: nat, x: nat) -> nat { lv[(x * lv_stride(b) + y) as int] as nat }

/// Sum of the right, lower and lower-right neighbours.
pub open spec fn near_mag(b: TxbShape, lv: Seq<u8>, x: nat, y: nat) -> nat {
    lv_at(b, lv, y, x + 1) + lv_at(b, lv, y + 1, x) + lv_at(b, lv, y + 1, x + 1)
}

/// Which offset table the block uses: square, wider or taller.
pub open spec fn rect_kind(b: TxbShape) -> int { if b.sw == b.sh { 0 } else if b.sw > b.sh { 1 } else { 2 } }

/// Level-token context at column `x`, row `y`: the position offset plus the rounded
/// magnitude of five neighbours in 128ths, capped at 4.
pub open spec fn lo_ctx(b: TxbShape, lv: Seq<u8>, x: nat, y: nat) -> nat {
    let mag = near_mag(b, lv, x, y) + lv_at(b, lv, y, x + 2) + lv_at(b, lv, y + 2, x);
    LO_CTX_OFFSETS@[rect_kind(b)]@[min_nat(y, 4) as int]@[min_nat(x, 4) as int] as nat
        + (if mag > 512 { 4 } else { (mag + 64) / 128 })
}

/// Base-range context part from a neighbour magnitude: its low six bits halved
/// (rounded up), capped at 6.
pub open spec fn mag_ctx(m: nat) -> nat {
    let t = m % 64;
    if t > 12 { 6 } else { (t + 1) / 2 }
}

/// Base-range context part from the position: 7 in the top-left 2x2, else 14.
pub open spec fn near_ctx(x: nat, y: nat) -> nat { if x > 1 || y > 1 { 14 } else { 7 } }

/// Base-range tokens of a residual `rem`: up to `k` symbols of `min(rem, 3)`, stopping
/// after the first below 3, all in row `r`.
pub open spec fn hi_tok(st: CoefSt, r: int, rem: nat, k: nat, allow: bool) -> CoefSt
    decreases k,
{
    if k == 0 {
        st
    } else {
        let s = min_nat(rem, 3);
        let st1 = put(st, t_br(), r, s, allow);
        if s < 3 { st1 } else { hi_tok(st1, r, (rem - 3) as nat, (k - 1) as nat, allow) }
    }
}

/// Base-range row of context `ctx`.
pub open spec fn br_row(b: TxbShape, ctx: nat) -> int { (min_nat(b.tdc, 3) * 21 + ctx) as int }

/// Base-range tokens of a magnitude of at least 3.
pub open spec fn hi_tokens(b: TxbShape, st: CoefSt, ctx: nat, level: nat) -> CoefSt {
    hi_tok(st, br_row(b, ctx), (level - 3) as nat, 4, b.allow)
}

/// Context of the end-of-block level token: 1, plus one past each of two and four
/// times the block's 4x4 count (in units capped at 8 per side).
pub open spec fn eob_base_ctx(b: TxbShape) -> nat {
    let n = min_nat(b.sw / 4, 8) * min_nat(b.sh / 4, 8);
    1 + (if b.seob > n * 2 { 1nat } else { 0 }) + (if b.seob > n * 4 { 1nat } else { 0 })
}

/// The end-of-block position's token: level 1, 2 or 3+, then base-range tokens.
pub open spec fn eob_stage(b: TxbShape, st: CoefSt) -> CoefSt {
    let l = pos_level(b, b.seob as int);
    let raw: nat = if l == 1 { 0 } else if l == 2 { 1 } else { 2 };
    let st1 = put(st, t_eob_base(), (b.tdc * 4 + eob_base_ctx(b)) as int, raw, b.allow);
    if raw == 2 { hi_tokens(b, st1, near_ctx(pos_x(b, b.seob as int), pos_y(b, b.seob as int)), l) } else { st1 }
}

/// The token of AC scan position `i`, its context read from the level map of the
/// positions after it.
pub open spec fn ac_step(b: TxbShape, st: CoefSt, i: int) -> CoefSt {
    let lv = levels_from(b, i + 1);
    let x = pos_x(b, i);
    let y = pos_y(b, i);
    let l = pos_level(b, i);
    let sym = min_nat(l, 3);
    let st1 = put(st, t_base(), (b.tdc * 41 + lo_ctx(b, lv, x, y)) as int, sym, b.allow);
    if sym == 3 { hi_tokens(b, st1, near_ctx(x, y) + mag_ctx(near_mag(b, lv, x, y)), l) } else { st1 }
}

/// The tokens of AC positions `seob - 1` down to `k`.
pub open spec fn ac_from(b: TxbShape, st: CoefSt, k: int) -> CoefSt
    decreases b.seob - k,
{
    if k >= b.seob || k < 1 { st } else { ac_step(b, ac_from(b, st, k + 1), k) }
}

/// The DC token when it is not the end-of-block position (context 0).
pub open spec fn dc_stage(b: TxbShape, st: CoefSt) -> CoefSt {
    let l = pos_level(b, 0);
    let sym = min_nat(l, 3);
    let st1 = put(st, t_base(), (b.tdc * 41) as int, sym, b.allow);
    let lv = levels_from(b, 1);
    let s = lv_stride(b) as int;
    if sym == 3 { hi_tokens(b, st1, mag_ctx(lv[1] as nat + lv[s] as nat + lv[s + 1] as nat), l) } else { st1 }
}

/// Sign and Golomb residual of scan position `j`: nothing for a zero or for the
/// coefficient at index 0.
pub open spec fn sign_entry(b: TxbShape, j: int) -> Seq<CodedSymbol> {
    let idx = pos_index(b, j);
    let l = pos_level(b, j);
    if l > 0 && idx != 0 {
        seq![CodedSymbol::Bool(b.coeffs[idx] < 0, 16384)]
            + (if l >= 15 { golomb_symbols((l - 15) as u32) } else { Seq::empty() })
    } else {
        Seq::empty()
    }
}

/// Signs and residuals of positions `seob` down to `k`.
pub open spec fn signs_from(b: TxbShape, k: int) -> Seq<CodedSymbol>
    decreases b.seob + 1 - k,
{
    if k > b.seob || k < 0 { Seq::empty() } else { signs_from(b, k + 1) + sign_entry(b, k) }
}

/// End-of-block class, high bit and low bits of the last nonzero position.
pub open spec fn eob_bits(b: TxbShape, st: CoefSt, tx2: nat) -> CoefSt {
    let bin = ilog(b.seob);
    let st3 = put(st, t_eob_bin(), tx2 as int, bin, b.allow);
    if bin > 1 {
        let hb = (((b.seob as u32) >> ((bin - 2) as u32)) & 1) as nat;
        let st4 = put(st3, t_eob_hi(), (b.tdc * 11 + bin) as int, hb, b.allow);
        put_bits(st4, literal_symbols(b.seob as u32, (bin - 2) as nat))
    } else {
        st3
    }
}

/// Everything after the end-of-block bits: the tokens from the end of block down to
/// DC, the DC sign and residual, then the AC signs and residuals.
pub open spec fn txb_tail(b: TxbShape, st: CoefSt, dc_sign_ctx: nat) -> CoefSt {
    let st6 = ac_from(b, eob_stage(b, st), 1);
    let st7 = if b.seob > 0 { dc_stage(b, st6) } else { st6 };
    let dct = min_nat(pos_level(b, 0), 15);
    let st8 = if dct > 0 {
        put(st7, t_dc_sign(), dc_sign_ctx as int, if b.coeffs[0] < 0 { 1nat } else { 0 }, b.allow)
    } else { st7 };
    let st9 = if dct >= 15 { put_bits(st8, golomb_symbols((abs_level(b.coeffs[0]) - 15) as u32)) } else { st8 };
    put_bits(st9, signs_from(b, 0))
}

/// `log2(d) - 2` for a transform dimension, as the size logarithm of the coder.
pub open spec fn tx_log(d: nat) -> nat { if ilog(d) >= 3 { (ilog(d) - 3) as nat } else { 0 } }

/// The default scan of a `w` x `h` area.
pub open spec fn scan_of(w: nat, h: nat) -> Seq<u16> {
    if w == 4 && h == 4 { DEFAULT_SCAN_4X4@.map(|i: int, x: i16| x as u16) }
    else if w == 8 && h == 8 { DEFAULT_SCAN_8X8@.map(|i: int, x: i16| x as u16) }
    else { diag_scan(w, h, (w + h - 1) as nat) }
}

/// The last of the first `n` scan positions that holds a nonzero coefficient.
pub open spec fn last_nonzero(coeffs: Seq<i32>, scan: Seq<u16>, sw: nat, ow: nat, n: int) -> Option<nat>
    decreases n,
{
    if n <= 0 { None }
    else if scan_nonzero(coeffs, scan, n - 1, sw, ow) { Some((n - 1) as nat) }
    else { last_nonzero(coeffs, scan, sw, ow, n - 1) }
}

/// The symbols and tables after coding a transform block: the skip flag; for a coded
/// block the transform type (below 32 on both sides), then, when the scanned area
/// holds a nonzero coefficient, the end of block and [`txb_tail`].
pub open spec fn txb_coded(s0: Seq<Seq<Seq<u16>>>, coeffs: Seq<i32>, eob: nat, width: nat, height: nat,
    skip_ctx: nat, dc_sign_ctx: nat, intra_mode: nat, allow: bool) -> CoefSt
{
    let lw = tx_log(width);
    let lh = tx_log(height);
    let tdc = min_nat((lw + lh + 1) / 2, 4);
    let st0 = CoefSt { cdfs: s0, log: Seq::empty() };
    if eob == 0 {
        put(st0, t_skip(), (tdc * 13 + skip_ctx) as int, 1, allow)
    } else {
        let st1 = put(st0, t_skip(), (tdc * 13 + skip_ctx) as int, 0, allow);
        let tmin = min_nat(lw, lh);
        let ym = min_nat(intra_mode, 12);
        let st2 = if lw < 3 && lh < 3 {
            if tmin >= 2 { put(st1, t_txtp2(), (tmin * 13 + ym) as int, 1, allow) }
            else { put(st1, t_txtp1(), (tmin * 13 + ym) as int, 1, allow) }
        } else { st1 };
        let sw = min_nat(width, 32);
        let sh = min_nat(height, 32);
        let scan = scan_of(sw, sh);
        let n = if scan.len() <= sw * sh { scan.len() as int } else { (sw * sh) as int };
        match last_nonzero(coeffs, scan, sw, width, n) {
            None => st2,
            Some(seob) => {
                let b = TxbShape { coeffs, width, sw, sh, scan, seob, tdc, allow };
                txb_tail(b, eob_bits(b, st2, min_nat(lw, 3) + min_nat(lh, 3)), dc_sign_ctx)
            },
        }
    }
}


/// `writer` has coded `st.log` after `pre` and `ctx` holds `st.cdfs`, all open.
pub open spec fn tracks(w: AomWriter, ctx: CdfCoefCtx, pre: Seq<CodedSymbol>, st: CoefSt) -> bool {
    &&& w.ec.wf()
    &&& w.ec.coded() == pre + st.log
    &&& ctx@ == st.cdfs
    &&& cdfs_ok(st.cdfs)
}

/// Code symbol `s` in row `r` of table `t`, following the tracked state.
fn code_st(writer: &mut AomWriter, ctx: &mut CdfCoefCtx, t: usize, r: usize, s: usize,
    Ghost(pre): Ghost<Seq<CodedSymbol>>, Ghost(st): Ghost<CoefSt>)
    requires
        tracks(*old(writer), *old(ctx), pre, st),
        old(writer).room(1),
        t < 9, r < table_rows(t as int), s < table_nsyms(t as int, r as int),
    ensures
        tracks(*final(writer), *final(ctx), pre, put(st, t as int, r as int, s as nat, old(writer).allow_update_cdf)),
        final(writer).ec.base() == old(writer).ec.base(),
        final(writer).ec@.offs <= old(writer).ec@.offs + 7,
        final(writer).allow_update_cdf == old(writer).allow_update_cdf,
{
    code(writer, ctx, t, r, s);
    proof {
        let p = put(st, t as int, r as int, s as nat, old(writer).allow_update_cdf);
        assert(writer.ec.coded() =~= pre + p.log);
    }
}

/// Write the base-range tokens of a magnitude of at least 3 in row `row`; returns
/// `min(level, 15)`.
fn write_hi_tok(writer: &mut AomWriter, ctx: &mut CdfCoefCtx, row: usize, level: u32,
    Ghost(pre): Ghost<Seq<CodedSymbol>>, Ghost(st): Ghost<CoefSt>) -> (tok: u32)
    requires
        tracks(*old(writer), *old(ctx), pre, st),
        old(writer).room(4),
        row < 84,
        level >= 3,
    ensures
        tracks(*final(writer), *final(ctx), pre, hi_tok(st, row as int, (level - 3) as nat, 4, old(writer).allow_update_cdf)),
        tok == min_nat(level as nat, 15),
        final(writer).ec.base() == old(writer).ec.base(),
        final(writer).ec@.offs <= old(writer).ec@.offs + 28,
        final(writer).allow_update_cdf == old(writer).allow_update_cdf,
{
    let ghost allow = writer.allow_update_cdf;
    let ghost goal = hi_tok(st, row as int, (level - 3) as nat, 4, allow);
    let mut remaining: u32 = level - 3;
    let mut tok: u32 = 3;
    let mut g: u32 = 0;
    let ghost mut cur = st;
    while g < 4
        invariant
            g <= 4,
            row < 84,
            tracks(*writer, *ctx, pre, cur),
            hi_tok(cur, row as int, remaining as nat, (4 - g) as nat, allow) == goal,
            allow == old(writer).allow_update_cdf,
            goal == hi_tok(st, row as int, (level - 3) as nat, 4, allow),
            tok == 3 + 3 * g,
            remaining == level - 3 - 3 * g,
            writer.ec@.offs <= old(writer).ec@.offs + 7 * g,
            old(writer).room(4),
            writer.ec.base() == old(writer).ec.base(),
            writer.allow_update_cdf == allow,
        decreases 4 - g,
    {
        let sym: u32 = if remaining < 3 { remaining } else { 3 };
        code_st(writer, ctx, 6, row, sym as usize, Ghost(pre), Ghost(cur));
        let ghost prev = cur;
        proof {
            cur = put(cur, t_br(), row as int, sym as nat, allow);
            assert(hi_tok(prev, row as int, remaining as nat, (4 - g) as nat, allow) ==
                (if sym < 3 { cur } else { hi_tok(cur, row as int, (remaining - 3) as nat, (4 - g - 1) as nat, allow) }));
        }
        tok = tok + sym;
        if sym < 3 {
            return tok;
        }
        remaining = remaining - 3;
        g = g + 1;
    }
    tok
}

/// The block is a valid transform block whose last nonzero scan position is `seob`.
pub open spec fn shape_ok(b: TxbShape) -> bool {
    &&& b.sw == 4 || b.sw == 8 || b.sw == 16 || b.sw == 32
    &&& b.sh == 4 || b.sh == 8 || b.sh == 16 || b.sh == 32
    &&& b.sw <= b.width <= 64
    &&& b.seob < b.scan.len()
    &&& b.seob < 1024
    &&& b.seob < b.sw * b.sh
    &&& forall|j: int| 0 <= j < b.scan.len() ==> (#[trigger] b.scan[j] as nat) < b.sw * b.sh
    &&& b.scan[0] == 0
    &&& pos_level(b, b.seob as int) > 0
    &&& b.tdc <= 4
}

/// The executable arguments are those of the block `b`.
pub open spec fn args_of(b: TxbShape, coeffs: &[i32], scan: &[u16], sw: usize, sh: usize, width: usize,
    seob: usize, tdc: usize, allow: bool) -> bool
{
    &&& b.coeffs == coeffs@
    &&& b.scan == scan@
    &&& b.sw == sw
    &&& b.sh == sh
    &&& b.width == width
    &&& b.seob == seob
    &&& b.tdc == tdc
    &&& b.allow == allow
}

/// `a * m + c < n * m` when `a < n` and `c < m`.
proof fn lemma_cell(a: nat, c: nat, n: nat, m: nat)
    requires a < n, c < m,
    ensures a * m + c < n * m,
{
    assert(a * m + c < n * m) by (nonlinear_arith) requires a < n, c < m;
}

/// Every level map has `(sw + 2) * stride` entries.
proof fn lemma_levels_len(b: TxbShape, k: int)
    requires shape_ok(b),
    ensures levels_from(b, k).len() == (b.sw + 2) * lv_stride(b),
    decreases b.seob + 1 - k,
{
    if !(k > b.seob || k < 0) {
        lemma_levels_len(b, k + 1);
        let x = pos_x(b, k);
        let y = pos_y(b, k);
        assert((b.scan[k] as nat) < b.sw * b.sh);
        assert(y < b.sh) by (nonlinear_arith) requires y == b.scan[k] as nat / b.sw, (b.scan[k] as nat) < b.sw * b.sh, b.sw >= 1;
        lemma_cell(x, y, b.sw + 2, lv_stride(b));
        assert(levels_from(b, k) == levels_from(b, k + 1).update((pos_x(b, k) * lv_stride(b) + pos_y(b, k)) as int,
            level_byte(pos_level(b, k))));
    }
}

/// Column, row and coefficient index of scan position `j`, and its magnitude.
fn pos_info(coeffs: &[i32], scan: &[u16], sw: usize, sh: usize, width: usize, j: usize, Ghost(b): Ghost<TxbShape>)
    -> (r: (usize, usize, usize, u32))
    requires
        args_of(b, coeffs, scan, sw, sh, width, b.seob as usize, b.tdc as usize, b.allow),
        shape_ok(b),
        j < scan.len(),
    ensures
        r.0 == pos_x(b, j as int), r.1 == pos_y(b, j as int),
        r.0 < sw, r.1 < sh,
        r.2 == pos_index(b, j as int),
        r.3 == pos_level(b, j as int),
{
    let raster: usize = scan[j] as usize;
    let x: usize = raster % sw;
    let y: usize = raster / sw;
    proof {
        assert((scan@[j as int] as nat) < sw * sh);
        assert(y < sh) by (nonlinear_arith) requires y == raster / sw, raster < sw * sh, sw >= 1;
        assert(y * width <= 32 * 64) by (nonlinear_arith) requires y < sh, sh <= 32, width <= 64;
    }
    let idx: usize = y * width + x;
    let level: u32 = if idx < coeffs.len() { crate::entropy::coeff::unsigned_abs(coeffs[idx]) } else { 0 };
    (x, y, idx, level)
}

/// Write the end-of-block position's token and enter it in the level map.
#[verifier::rlimit(40)]
fn write_eob_token(writer: &mut AomWriter, ctx: &mut CdfCoefCtx, levels: &mut Vec<u8>,
    coeffs: &[i32], scan: &[u16], sw: usize, sh: usize, width: usize, seob: usize, tdc: usize,
    Ghost(b): Ghost<TxbShape>, Ghost(pre): Ghost<Seq<CodedSymbol>>, Ghost(st): Ghost<CoefSt>)
    requires
        args_of(b, coeffs, scan, sw, sh, width, seob, tdc, old(writer).allow_update_cdf),
        shape_ok(b),
        tracks(*old(writer), *old(ctx), pre, st),
        old(writer).room(5),
        old(levels)@ == levels_from(b, seob + 1),
    ensures
        tracks(*final(writer), *final(ctx), pre, eob_stage(b, st)),
        final(levels)@ == levels_from(b, seob as int),
        final(writer).ec.base() == old(writer).ec.base(),
        final(writer).ec@.offs <= old(writer).ec@.offs + 35,
        final(writer).allow_update_cdf == old(writer).allow_update_cdf,
{
    let ghost allow = writer.allow_update_cdf;
    let (x, y, _idx, level) = pos_info(coeffs, scan, sw, sh, width, seob, Ghost(b));
    let sw4: usize = if sw / 4 < 8 { sw / 4 } else { 8 };
    let sh4: usize = if sh / 4 < 8 { sh / 4 } else { 8 };
    assert(sw4 * sh4 <= 64) by (nonlinear_arith) requires sw4 <= 8, sh4 <= 8;
    let n: usize = sw4 * sh4;
    let ectx: usize = 1 + (if seob > n * 2 { 1 } else { 0 }) + (if seob > n * 4 { 1 } else { 0 });
    let raw: usize = if level == 1 { 0 } else if level == 2 { 1 } else { 2 };
    code_st(writer, ctx, 4, tdc * 4 + ectx, raw, Ghost(pre), Ghost(st));
    let ghost st1 = put(st, t_eob_base(), (b.tdc * 4 + eob_base_ctx(b)) as int, raw as nat, allow);
    let stride: usize = sh + 2;
    proof {
        lemma_levels_len(b, seob + 1);
        lemma_cell(x as nat, y as nat, (sw + 2) as nat, stride as nat);
        assert((sw + 2) * stride <= 34 * 34) by (nonlinear_arith) requires sw <= 32, stride <= 34;
    }
    if raw == 2 {
        let hctx: usize = if x > 1 || y > 1 { 14 } else { 7 };
        let brl: usize = if tdc < 3 { tdc } else { 3 };
        let tok: u32 = write_hi_tok(writer, ctx, brl * 21 + hctx, level, Ghost(pre), Ghost(st1));
        levels.set(x * stride + y, (tok - 3 + 192) as u8);
    } else {
        levels.set(x * stride + y, ((raw + 1) * 65) as u8);
    }
    proof {
        assert(levels@ =~= levels_from(b, seob as int));
    }
}

/// Write the tokens of AC scan positions `seob - 1` down to 1, keeping the level map.
#[verifier::rlimit(60)]
fn write_ac_tokens(writer: &mut AomWriter, ctx: &mut CdfCoefCtx, levels: &mut Vec<u8>,
    coeffs: &[i32], scan: &[u16], sw: usize, sh: usize, width: usize, seob: usize, tdc: usize,
    Ghost(b): Ghost<TxbShape>, Ghost(pre): Ghost<Seq<CodedSymbol>>, Ghost(st): Ghost<CoefSt>)
    requires
        args_of(b, coeffs, scan, sw, sh, width, seob, tdc, old(writer).allow_update_cdf),
        shape_ok(b),
        tracks(*old(writer), *old(ctx), pre, st),
        old(writer).room((5 * seob) as nat),
        old(levels)@ == levels_from(b, seob as int),
    ensures
        tracks(*final(writer), *final(ctx), pre, ac_from(b, st, 1)),
        seob > 0 ==> final(levels)@ == levels_from(b, 1),
        final(writer).ec.base() == old(writer).ec.base(),
        final(writer).ec@.offs <= old(writer).ec@.offs + 35 * seob,
        final(writer).allow_update_cdf == old(writer).allow_update_cdf,
{
    let ghost allow = writer.allow_update_cdf;
    if seob == 0 {
        return;
    }
    let stride: usize = sh + 2;
    let kind: usize = if sw == sh { 0 } else if sw > sh { 1 } else { 2 };
    let brl: usize = if tdc < 3 { tdc } else { 3 };
    let mut k: usize = seob;
    let ghost mut cur = st;
    while k > 1
        invariant
            1 <= k <= seob,
            args_of(b, coeffs, scan, sw, sh, width, seob, tdc, allow),
            shape_ok(b),
            stride == sh + 2,
            kind as int == rect_kind(b),
            brl == min_nat(tdc as nat, 3),
            tracks(*writer, *ctx, pre, cur),
            cur == ac_from(b, st, k as int),
            levels@ == levels_from(b, k as int),
            writer.ec@.offs <= old(writer).ec@.offs + 35 * (seob - k),
            old(writer).room((5 * seob) as nat),
            writer.ec.base() == old(writer).ec.base(),
            writer.allow_update_cdf == allow,
        decreases k,
    {
        let i: usize = k - 1;
        let (x, y, _idx, level) = pos_info(coeffs, scan, sw, sh, width, i, Ghost(b));
        proof {
            lemma_levels_len(b, k as int);
            lemma_cell((x + 1) as nat, y as nat, (sw + 2) as nat, stride as nat);
            lemma_cell((x + 2) as nat, y as nat, (sw + 2) as nat, stride as nat);
            lemma_cell((x + 1) as nat, (y + 1) as nat, (sw + 2) as nat, stride as nat);
            lemma_cell(x as nat, (y + 2) as nat, (sw + 2) as nat, stride as nat);
            lemma_cell(x as nat, (y + 1) as nat, (sw + 2) as nat, stride as nat);
            lemma_cell(x as nat, y as nat, (sw + 2) as nat, stride as nat);
            assert((sw + 2) * stride <= 34 * 34) by (nonlinear_arith) requires sw <= 32, stride <= 34;
        }
        let hi_mag: u32 = levels[(x + 1) * stride + y] as u32 + levels[x * stride + y + 1] as u32
            + levels[(x + 1) * stride + y + 1] as u32;
        let mag: u32 = hi_mag + levels[(x + 2) * stride + y] as u32 + levels[x * stride + y + 2] as u32;
        let ym: usize = if y < 4 { y } else { 4 };
        let xm: usize = if x < 4 { x } else { 4 };
        let off: u8 = LO_CTX_OFFSETS[kind][ym][xm];
        let lo: usize = off as usize + if mag > 512 { 4 } else { ((mag + 64) / 128) as usize };
        let sym: u32 = if level < 3 { level } else { 3 };
        proof {
            assert(off <= 21);
            assert(lo == lo_ctx(b, levels_from(b, k as int), x as nat, y as nat));
        }
        code_st(writer, ctx, 5, tdc * 41 + lo, sym as usize, Ghost(pre), Ghost(cur));
        let ghost st1 = put(cur, t_base(), (b.tdc * 41 + lo) as int, sym as nat, allow);
        if sym == 3 {
            let mt: u32 = hi_mag % 64;
            let hctx: usize = (if x > 1 || y > 1 { 14 } else { 7 }) + (if mt > 12 { 6 } else { ((mt + 1) / 2) as usize });
            let tok: u32 = write_hi_tok(writer, ctx, brl * 21 + hctx, level, Ghost(pre), Ghost(st1));
            levels.set(x * stride + y, (tok - 3 + 192) as u8);
        } else {
            levels.set(x * stride + y, (sym * 65) as u8);
        }
        proof {
            cur = ac_step(b, cur, i as int);
            assert(levels@ =~= levels_from(b, i as int));
        }
        k = i;
    }
}


/// Write the DC token when DC is not the end-of-block position; returns
/// `min(level, 15)` of the DC position.
#[verifier::rlimit(40)]
fn write_dc_token(writer: &mut AomWriter, ctx: &mut CdfCoefCtx, levels: &Vec<u8>,
    coeffs: &[i32], scan: &[u16], sw: usize, sh: usize, width: usize, seob: usize, tdc: usize,
    Ghost(b): Ghost<TxbShape>, Ghost(pre): Ghost<Seq<CodedSymbol>>, Ghost(st): Ghost<CoefSt>) -> (dc_tok: u32)
    requires
        args_of(b, coeffs, scan, sw, sh, width, seob, tdc, old(writer).allow_update_cdf),
        shape_ok(b),
        seob > 0,
        tracks(*old(writer), *old(ctx), pre, st),
        old(writer).room(5),
        levels@ == levels_from(b, 1),
    ensures
        tracks(*final(writer), *final(ctx), pre, dc_stage(b, st)),
        dc_tok == min_nat(pos_level(b, 0), 15),
        final(writer).ec.base() == old(writer).ec.base(),
        final(writer).ec@.offs <= old(writer).ec@.offs + 35,
        final(writer).allow_update_cdf == old(writer).allow_update_cdf,
{
    let ghost allow = writer.allow_update_cdf;
    let (_x, _y, _idx, level) = pos_info(coeffs, scan, sw, sh, width, 0, Ghost(b));
    let sym: u32 = if level < 3 { level } else { 3 };
    code_st(writer, ctx, 5, tdc * 41, sym as usize, Ghost(pre), Ghost(st));
    let ghost st1 = put(st, t_base(), (b.tdc * 41) as int, sym as nat, allow);
    if sym == 3 {
        let stride: usize = sh + 2;
        proof {
            lemma_levels_len(b, 1);
            assert(stride + 1 < (sw + 2) * stride) by (nonlinear_arith) requires sw >= 4, stride >= 6;
        }
        let mag: u32 = levels[1] as u32 + levels[stride] as u32 + levels[stride + 1] as u32;
        let mt: u32 = mag % 64;
        let hctx: usize = if mt > 12 { 6 } else { ((mt + 1) / 2) as usize };
        let brl: usize = if tdc < 3 { tdc } else { 3 };
        write_hi_tok(writer, ctx, brl * 21 + hctx, level, Ghost(pre), Ghost(st1))
    } else {
        sym
    }
}

/// Write the sign (equiprobable) and Golomb residual of each nonzero coefficient from
/// scan position `seob` down to 0, except the coefficient at index 0.
#[verifier::rlimit(40)]
fn write_signs(writer: &mut AomWriter, coeffs: &[i32], scan: &[u16], sw: usize, sh: usize, width: usize,
    seob: usize, Ghost(b): Ghost<TxbShape>)
    requires
        args_of(b, coeffs, scan, sw, sh, width, seob, b.tdc as usize, b.allow),
        shape_ok(b),
        old(writer).room((64 * (seob + 1)) as nat),
    ensures
        final(writer).ec.wf(),
        final(writer).ec.coded() == old(writer).ec.coded() + signs_from(b, 0),
        final(writer).ec.base() == old(writer).ec.base(),
        final(writer).ec@.offs <= old(writer).ec@.offs + 448 * (seob + 1),
        final(writer).allow_update_cdf == old(writer).allow_update_cdf,
{
    let mut k: usize = seob + 1;
    proof { assert(signs_from(b, k as int) =~= Seq::<CodedSymbol>::empty()); }
    while k > 0
        invariant
            k <= seob + 1,
            seob < scan.len(),
            args_of(b, coeffs, scan, sw, sh, width, seob, b.tdc as usize, b.allow),
            shape_ok(b),
            writer.ec.wf(),
            writer.ec.coded() == old(writer).ec.coded() + signs_from(b, k as int),
            writer.ec@.offs <= old(writer).ec@.offs + 448 * (seob + 1 - k),
            old(writer).room((64 * (seob + 1)) as nat),
            writer.ec.base() == old(writer).ec.base(),
            writer.allow_update_cdf == old(writer).allow_update_cdf,
        decreases k,
    {
        let j: usize = k - 1;
        let ghost before = writer.ec.coded();
        let (_x, _y, idx, level) = pos_info(coeffs, scan, sw, sh, width, j, Ghost(b));
        proof {
            assert(448 * (seob + 1 - k) + 448 == 448 * (seob + 1 - j)) by (nonlinear_arith) requires j + 1 == k;
            assert(448 * (seob + 1 - k) + 448 <= 448 * (seob + 1)) by (nonlinear_arith) requires k >= 1, k <= seob + 1;
        }
        if level > 0 && idx != 0 {
            writer.write_bit(coeffs[idx] < 0);
            if level >= 15 {
                write_golomb(writer, level - 15);
            }
        }
        proof {
            assert(writer.ec.coded() =~= before + sign_entry(b, j as int));
            assert(signs_from(b, j as int) == signs_from(b, k as int) + sign_entry(b, j as int));
            assert(writer.ec.coded() =~= old(writer).ec.coded() + signs_from(b, j as int));
        }
        k = j;
    }
}

/// The last nonzero position found by a backward search is [`last_nonzero`].
proof fn lemma_last_nonzero_some(coeffs: Seq<i32>, scan: Seq<u16>, sw: nat, ow: nat, n: int, i: int)
    requires
        0 <= i < n,
        scan_nonzero(coeffs, scan, i, sw, ow),
        forall|j: int| i < j < n ==> !scan_nonzero(coeffs, scan, j, sw, ow),
    ensures last_nonzero(coeffs, scan, sw, ow, n) == Some(i as nat),
    decreases n,
{
    if n - 1 != i {
        lemma_last_nonzero_some(coeffs, scan, sw, ow, n - 1, i);
    }
}

/// With no nonzero position, [`last_nonzero`] is `None`.
proof fn lemma_last_nonzero_none(coeffs: Seq<i32>, scan: Seq<u16>, sw: nat, ow: nat, n: int)
    requires forall|j: int| 0 <= j < n ==> !scan_nonzero(coeffs, scan, j, sw, ow),
    ensures last_nonzero(coeffs, scan, sw, ow, n).is_none(),
    decreases n,
{
    if n > 0 {
        lemma_last_nonzero_none(coeffs, scan, sw, ow, n - 1);
    }
}

/// A diagonal scan through at least one diagonal starts at the top-left cell.
proof fn lemma_diag_scan_first(w: nat, h: nat, n: nat)
    requires n >= 1, w >= 1, h >= 1,
    ensures diag_scan(w, h, n).len() >= 1, diag_scan(w, h, n)[0] == 0,
    decreases n,
{
    if n == 1 {
        assert(diag_scan(w, h, 0) =~= Seq::<u16>::empty());
        assert(diag_scan(w, h, 1) =~= diag_cells(w, h, 0));
    } else {
        lemma_diag_scan_first(w, h, (n - 1) as nat);
    }
}

/// The stored 8x8 scan visits positions below 64 and starts at 0.
proof fn lemma_scan_8x8_range()
    ensures forall|i: int| 0 <= i < 64 ==> 0 <= #[trigger] DEFAULT_SCAN_8X8@[i] < 64,
{
}

/// Every default scan of a coded area stays inside it and starts at position 0.
proof fn lemma_scan_of(w: nat, h: nat)
    requires
        w == 4 || w == 8 || w == 16 || w == 32,
        h == 4 || h == 8 || h == 16 || h == 32,
    ensures
        scan_of(w, h).len() >= 1,
        scan_of(w, h)[0] == 0,
        forall|j: int| 0 <= j < scan_of(w, h).len() ==> (#[trigger] scan_of(w, h)[j] as nat) < w * h,
{
    if w == 4 && h == 4 {
        crate::tables::scan::lemma_scan_4x4_permutations();
    } else if w == 8 && h == 8 {
        lemma_scan_8x8_range();
    } else {
        assert(w * h <= 65536) by (nonlinear_arith) requires w <= 32, h <= 32;
        crate::entropy::coeff::lemma_diag_scan_permutation(w, h);
        lemma_diag_scan_first(w, h, (w + h - 1) as nat);
    }
}


/// A transform dimension: 4, 8, 16, 32 or 64.
pub open spec fn tx_dim_ok(d: nat) -> bool { d == 4 || d == 8 || d == 16 || d == 32 || d == 64 }

/// Size logarithm and coded extent of a transform dimension.
proof fn lemma_tx_dim(d: nat)
    requires tx_dim_ok(d),
    ensures
        tx_log(d) <= 4,
        ilog(d) >= 3,
        tx_log(d) == ilog(d) - 3,
        min_nat(d, 32) == 4 * pow2(min_nat(tx_log(d), 3)),
{
    reveal_with_fuel(ilog, 8);
    lemma2_to64();
}

/// A zeroed level map of `n` entries.
fn zero_levels(n: usize) -> (r: Vec<u8>)
    ensures r@ == Seq::new(n as nat, |i: int| 0u8),
{
    let mut v: Vec<u8> = Vec::new();
    let mut i: usize = 0;
    while i < n
        invariant i <= n, v@ == Seq::new(i as nat, |k: int| 0u8),
        decreases n - i,
    {
        v.push(0u8);
        proof { assert(v@ =~= Seq::new((i + 1) as nat, |k: int| 0u8)); }
        i = i + 1;
    }
    v
}

/// Write the coefficients of a transform block (`coeffs` in raster order, row stride
/// `width`) in the order the decoder reads them. With `eob == 0` only the skip flag is
/// coded. Otherwise: the skip flag, the transform type DCT_DCT for blocks below 32 on
/// both sides, and, when the scanned area (capped at 32 x 32) holds a nonzero
/// coefficient, the class, high bit and low bits of the last nonzero scan position,
/// the level tokens from there down to DC with their neighbourhood contexts, the DC
/// sign and residual, and the AC signs and residuals. The coder ends in the state
/// that coding [`txb_coded`]'s symbols from its starting state gives, and `cdf_ctx`
/// holds the tables that coding adapted.
#[verifier::rlimit(80)]
#[verifier::spinoff_prover]
pub fn write_coefficients_v2(writer: &mut AomWriter, coeffs: &[i32], eob: usize, width: usize, height: usize,
    skip_ctx: usize, dc_sign_ctx: usize, intra_mode: u8, cdf_ctx: &mut CdfCoefCtx)
    requires
        tx_dim_ok(width as nat),
        tx_dim_ok(height as nat),
        skip_ctx < 13,
        dc_sign_ctx < 3,
        cdfs_ok(old(cdf_ctx)@),
        old(writer).room(72000),
    ensures
        final(writer).ec.wf(),
        final(writer).allow_update_cdf == old(writer).allow_update_cdf,
        final(writer).ec.base() == old(writer).ec.base(),
        final(writer).ec@.offs <= old(writer).ec@.offs + 7 * 72000,
        cdfs_ok(final(cdf_ctx)@),
        final(cdf_ctx)@ == txb_coded(old(cdf_ctx)@, coeffs@, eob as nat, width as nat, height as nat,
            skip_ctx as nat, dc_sign_ctx as nat, intra_mode as nat, old(writer).allow_update_cdf).cdfs,
        final(writer).ec.coded() == old(writer).ec.coded() + txb_coded(old(cdf_ctx)@, coeffs@, eob as nat,
            width as nat, height as nat, skip_ctx as nat, dc_sign_ctx as nat, intra_mode as nat,
            old(writer).allow_update_cdf).log,
        final(writer).ec@ == coded_state(old(writer).ec@, txb_coded(old(cdf_ctx)@, coeffs@, eob as nat,
            width as nat, height as nat, skip_ctx as nat, dc_sign_ctx as nat, intra_mode as nat,
            old(writer).allow_update_cdf).log),
{
    let ghost allow = writer.allow_update_cdf;
    let ghost pre = writer.ec.coded();
    let ghost o = writer.ec@.offs;
    let ghost goal = txb_coded(cdf_ctx@, coeffs@, eob as nat, width as nat, height as nat,
        skip_ctx as nat, dc_sign_ctx as nat, intra_mode as nat, allow);
    let ghost st0 = CoefSt { cdfs: cdf_ctx@, log: Seq::empty() };
    proof {
        assert(writer.ec.coded() =~= pre + st0.log);
        lemma_tx_dim(width as nat);
        lemma_tx_dim(height as nat);
    }
    let lw: usize = log2_of_tx_dim(width);
    let lh: usize = log2_of_tx_dim(height);
    let tdc: usize = if (lw + lh + 1) / 2 < 4 { (lw + lh + 1) / 2 } else { 4 };
    if eob == 0 {
        code_st(writer, cdf_ctx, 0, tdc * 13 + skip_ctx, 1, Ghost(pre), Ghost(st0));
        proof { lemma_state_of_log(old(writer).ec, writer.ec, goal.log); }
        return;
    }
    code_st(writer, cdf_ctx, 0, tdc * 13 + skip_ctx, 0, Ghost(pre), Ghost(st0));
    let ghost st1 = put(st0, t_skip(), (tdc * 13 + skip_ctx) as int, 0, allow);
    let tmin: usize = if lw < lh { lw } else { lh };
    let tmax: usize = if lw < lh { lh } else { lw };
    let ghost mut st2 = st1;
    if tmax < 3 {
        let ym: usize = if (intra_mode as usize) < 12 { intra_mode as usize } else { 12 };
        if tmin >= 2 {
            code_st(writer, cdf_ctx, 7, tmin * 13 + ym, 1, Ghost(pre), Ghost(st1));
            proof { st2 = put(st1, t_txtp2(), (tmin * 13 + ym) as int, 1, allow); }
        } else {
            code_st(writer, cdf_ctx, 8, tmin * 13 + ym, 1, Ghost(pre), Ghost(st1));
            proof { st2 = put(st1, t_txtp1(), (tmin * 13 + ym) as int, 1, allow); }
        }
    }
    let sw: usize = if width < 32 { width } else { 32 };
    let sh: usize = if height < 32 { height } else { 32 };
    let scan: Vec<u16> = get_scan_table(sw, sh);
    proof {
        lemma_scan_of(sw as nat, sh as nat);
        assert(scan@ == scan_of(sw as nat, sh as nat));
        assert(sw * sh <= 1024) by (nonlinear_arith) requires sw <= 32, sh <= 32;
        assert(65536int / sw as int <= 16384);
        assert((65536int / sw as int) * width <= 16384 * 64) by (nonlinear_arith)
            requires 65536int / sw as int <= 16384, width <= 64;
    }
    let found = find_last_nonzero_scan_pos(coeffs, &scan, sw, sh, width);
    let ghost n: int = if scan@.len() <= sw * sh { scan@.len() as int } else { (sw * sh) as int };
    let seob: usize = match found {
        None => {
            proof {
                lemma_last_nonzero_none(coeffs@, scan@, sw as nat, width as nat, n);
                assert(st2 == goal);
                lemma_state_of_log(old(writer).ec, writer.ec, goal.log);
            }
            return;
        },
        Some(e) => e,
    };
    proof { lemma_last_nonzero_some(coeffs@, scan@, sw as nat, width as nat, n, seob as int); }
    let ghost b = TxbShape {
        coeffs: coeffs@, width: width as nat, sw: sw as nat, sh: sh as nat, scan: scan@,
        seob: seob as nat, tdc: tdc as nat, allow,
    };
    assert(shape_ok(b));
    let tx2: usize = (if lw < 3 { lw } else { 3 }) + (if lh < 3 { lh } else { 3 });
    proof {
        let a = min_nat(lw as nat, 3);
        let c = min_nat(lh as nat, 3);
        vstd::arithmetic::power2::lemma_pow2_adds(a, c);
        vstd::arithmetic::power2::lemma_pow2_adds(a + c, 4);
        lemma2_to64();
        assert(sw * sh == 16 * (pow2(a) * pow2(c))) by (nonlinear_arith)
            requires sw == 4 * pow2(a), sh == 4 * pow2(c);
    }
    write_eob_bits(writer, cdf_ctx, seob, tdc, tx2, Ghost(b), Ghost(pre), Ghost(st2));
    let ghost st4 = eob_bits(b, st2, tx2 as nat);
    write_block_levels(writer, cdf_ctx, coeffs, &scan, sw, sh, width, seob, tdc, dc_sign_ctx,
        Ghost(b), Ghost(pre), Ghost(st4));
    proof {
        assert(txb_tail(b, st4, dc_sign_ctx as nat) == goal);
        lemma_state_of_log(old(writer).ec, writer.ec, goal.log);
    }
}

/// Write the class, high bit and low bits of the last nonzero scan position.
#[verifier::rlimit(40)]
fn write_eob_bits(writer: &mut AomWriter, cdf_ctx: &mut CdfCoefCtx, seob: usize, tdc: usize, tx2: usize,
    Ghost(b): Ghost<TxbShape>, Ghost(pre): Ghost<Seq<CodedSymbol>>, Ghost(st): Ghost<CoefSt>)
    requires
        shape_ok(b),
        b.seob == seob, b.tdc == tdc, b.allow == old(writer).allow_update_cdf,
        tx2 <= 6,
        b.sw * b.sh == pow2((tx2 + 4) as nat),
        tracks(*old(writer), *old(cdf_ctx), pre, st),
        old(writer).room(10),
    ensures
        tracks(*final(writer), *final(cdf_ctx), pre, eob_bits(b, st, tx2 as nat)),
        final(writer).ec.base() == old(writer).ec.base(),
        final(writer).ec@.offs <= old(writer).ec@.offs + 70,
        final(writer).allow_update_cdf == old(writer).allow_update_cdf,
{
    let ghost allow = writer.allow_update_cdf;
    let bin: u32 = eob_to_bin(seob);
    proof {
        crate::entropy::range_coder::lemma_ilog_le(seob as nat, (tx2 + 4) as nat);
        assert((seob as u32) as nat == seob);
    }
    code_st(writer, cdf_ctx, 2, tx2, bin as usize, Ghost(pre), Ghost(st));
    let ghost mut st4 = put(st, t_eob_bin(), tx2 as int, bin as nat, allow);
    if bin > 1 {
        let e32: u32 = seob as u32;
        let sh32: u32 = bin - 2;
        let hb: u32 = (e32 >> sh32) & 1;
        assert(hb <= 1) by (bit_vector) requires hb == (e32 >> sh32) & 1;
        code_st(writer, cdf_ctx, 3, tdc * 11 + bin as usize, hb as usize, Ghost(pre), Ghost(st4));
        let ghost st3 = put(st4, t_eob_hi(), (tdc * 11 + bin) as int, hb as nat, allow);
        let nlo: u32 = bin - 2;
        if nlo > 0 {
            writer.write_literal(seob as u32, nlo);
        }
        proof {
            st4 = put_bits(st3, literal_symbols(seob as u32, (bin - 2) as nat));
            assert(writer.ec.coded() =~= pre + st4.log);
        }
    }
    assert(st4 == eob_bits(b, st, tx2 as nat));
}

/// Write the level tokens from the end of block down to DC, the DC sign and residual,
/// and the AC signs and residuals.
#[verifier::rlimit(60)]
fn write_block_levels(writer: &mut AomWriter, cdf_ctx: &mut CdfCoefCtx, coeffs: &[i32], scan: &[u16],
    sw: usize, sh: usize, width: usize, seob: usize, tdc: usize, dc_sign_ctx: usize,
    Ghost(b): Ghost<TxbShape>, Ghost(pre): Ghost<Seq<CodedSymbol>>, Ghost(st): Ghost<CoefSt>)
    requires
        args_of(b, coeffs, scan, sw, sh, width, seob, tdc, old(writer).allow_update_cdf),
        shape_ok(b),
        dc_sign_ctx < 3,
        tracks(*old(writer), *old(cdf_ctx), pre, st),
        old(writer).room(71000),
    ensures
        tracks(*final(writer), *final(cdf_ctx), pre, txb_tail(b, st, dc_sign_ctx as nat)),
        final(writer).ec.base() == old(writer).ec.base(),
        final(writer).ec@.offs <= old(writer).ec@.offs + 7 * 71000,
        final(writer).allow_update_cdf == old(writer).allow_update_cdf,
{
    let ghost allow = writer.allow_update_cdf;
    let ghost o = writer.ec@.offs;
    assert(pos_index(b, 0) == 0) by {
        assert(b.scan[0] as nat == 0);
        assert(0nat / b.sw == 0 && 0nat % b.sw == 0) by (nonlinear_arith) requires b.sw > 0;
    }
    let stride: usize = sh + 2;
    assert((sw + 2) * stride <= 34 * 34) by (nonlinear_arith) requires sw <= 32, stride <= 34;
    let mut levels: Vec<u8> = zero_levels((sw + 2) * stride);
    proof { assert(levels@ =~= levels_from(b, seob + 1)); }
    write_eob_token(writer, cdf_ctx, &mut levels, coeffs, scan, sw, sh, width, seob, tdc,
        Ghost(b), Ghost(pre), Ghost(st));
    let ghost st5 = eob_stage(b, st);
    assert(writer.ec@.offs <= o + 35);
    write_ac_tokens(writer, cdf_ctx, &mut levels, coeffs, scan, sw, sh, width, seob, tdc,
        Ghost(b), Ghost(pre), Ghost(st5));
    let ghost st6 = ac_from(b, st5, 1);
    assert(writer.ec@.offs <= o + 35 + 35 * seob);
    let dc_tok: u32 = if seob > 0 {
        write_dc_token(writer, cdf_ctx, &levels, coeffs, scan, sw, sh, width, seob, tdc,
            Ghost(b), Ghost(pre), Ghost(st6))
    } else {
        let (_x, _y, _idx, level) = pos_info(coeffs, scan, sw, sh, width, 0, Ghost(b));
        if level < 15 { level } else { 15 }
    };
    let ghost st7 = if seob > 0 { dc_stage(b, st6) } else { st6 };
    let ghost mut st8 = st7;
    assert(writer.ec@.offs <= o + 70 + 35 * seob);
    if dc_tok > 0 {
        let sign: usize = if coeffs[0] < 0 { 1 } else { 0 };
        code_st(writer, cdf_ctx, 1, dc_sign_ctx, sign, Ghost(pre), Ghost(st7));
        proof { st8 = put(st7, t_dc_sign(), dc_sign_ctx as int, sign as nat, allow); }
    }
    let ghost mut st9 = st8;
    assert(writer.ec@.offs <= o + 77 + 35 * seob);
    if dc_tok >= 15 {
        let dc_abs: u32 = crate::entropy::coeff::unsigned_abs(coeffs[0]);
        write_golomb(writer, dc_abs - dc_tok);
        proof {
            st9 = put_bits(st8, golomb_symbols((abs_level(coeffs@[0]) - 15) as u32));
            assert(writer.ec.coded() =~= pre + st9.log);
        }
    }
    assert(writer.ec@.offs <= o + 518 + 35 * seob);
    write_signs(writer, coeffs, scan, sw, sh, width, seob, Ghost(b));
    assert(writer.ec@.offs <= o + 518 + 35 * seob + 448 * seob + 448);
    proof {
        let fin = put_bits(st9, signs_from(b, 0));
        assert(fin == txb_tail(b, st, dc_sign_ctx as nat));
        assert(writer.ec.coded() =~= pre + fin.log);
    }
}

} // verus!
