//! OBU (Open Bitstream Unit) framing and uncompressed headers for AV1 bitstreams.
use vstd::prelude::*;
use crate::entropy::bitwriter::{BitWriter, packed, value_bits};
use crate::entropy::range_coder::{ilog_nz, ilog, lemma_ilog_le};
pub use crate::types::bitstream::ObuType;
pub use crate::entropy::bitwriter::BitWriter as ObuBitWriter;

verus! {

/// CICP color description for sequence headers.
#[derive(Debug, Clone, Copy, Default)]
pub struct ColorDescription {
    /// Color primaries (1 BT.709/sRGB, 9 BT.2020, 12 P3).
    pub color_primaries: u8,
    /// Transfer characteristics (1 BT.709, 13 sRGB, 16 PQ, 18 HLG).
    pub transfer_characteristics: u8,
    /// Matrix coefficients (1 BT.709, 9 BT.2020, 0 identity).
    pub matrix_coefficients: u8,
    /// Full range (true) or limited range (false).
    pub full_range: bool,
}

impl ColorDescription {
    /// sRGB: BT.709 primaries (1), sRGB transfer (13), BT.709 matrix (1), limited range.
    pub fn srgb() -> (r: Self)
        ensures r.color_primaries == 1 && r.transfer_characteristics == 13 && r.matrix_coefficients == 1 && !r.full_range,
    {
        ColorDescription { color_primaries: 1, transfer_characteristics: 13, matrix_coefficients: 1, full_range: false }
    }

    /// Display P3: primaries 12, sRGB transfer (13), BT.709 matrix (1), limited range.
    pub fn display_p3() -> (r: Self)
        ensures r.color_primaries == 12 && r.transfer_characteristics == 13 && r.matrix_coefficients == 1 && !r.full_range,
    {
        ColorDescription { color_primaries: 12, transfer_characteristics: 13, matrix_coefficients: 1, full_range: false }
    }

    /// BT.2020 with PQ: primaries 9, transfer 16, matrix 9, limited range.
    pub fn bt2020_pq() -> (r: Self)
        ensures r.color_primaries == 9 && r.transfer_characteristics == 16 && r.matrix_coefficients == 9 && !r.full_range,
    {
        ColorDescription { color_primaries: 9, transfer_characteristics: 16, matrix_coefficients: 9, full_range: false }
    }

    /// BT.2020 with HLG: primaries 9, transfer 18, matrix 9, limited range.
    pub fn bt2020_hlg() -> (r: Self)
        ensures r.color_primaries == 9 && r.transfer_characteristics == 18 && r.matrix_coefficients == 9 && !r.full_range,
    {
        ColorDescription { color_primaries: 9, transfer_characteristics: 18, matrix_coefficients: 9, full_range: false }
    }

    /// BT.2020 SDR: primaries 9, transfer 1, matrix 9, limited range.
    pub fn bt2020_sdr() -> (r: Self)
        ensures r.color_primaries == 9 && r.transfer_characteristics == 1 && r.matrix_coefficients == 9 && !r.full_range,
    {
        ColorDescription { color_primaries: 9, transfer_characteristics: 1, matrix_coefficients: 9, full_range: false }
    }
}

/// Unsigned LEB128 of `v`: 7 bits per byte, least significant first, with the
/// high bit set on every byte but the last.
pub open spec fn uleb(v: nat) -> Seq<u8>
    decreases v,
{
    let lo = (v % 128) as u8;
    if v / 128 == 0 { seq![lo] } else { seq![(lo + 128) as u8] + uleb(v / 128) }
}

/// Value of a LEB128 byte sequence (all bytes taken as continuation bytes but the last).
pub open spec fn uleb_value(b: Seq<u8>) -> nat
    decreases b.len(),
{
    if b.len() == 0 { 0 } else { (b[0] % 128) as nat + 128 * uleb_value(b.drop_first()) }
}

/// Round-trip law: LEB128 decoding of an encoding gives the value back, every byte but
/// the last has the continuation bit, and the encoding of a `u32` takes 1 to 5 bytes.
pub proof fn lemma_uleb_roundtrip(v: nat)
    ensures
        uleb_value(uleb(v)) == v,
        uleb(v).len() >= 1,
        uleb(v)[uleb(v).len() - 1] < 128,
        forall|i: int| 0 <= i < uleb(v).len() - 1 ==> #[trigger] uleb(v)[i] >= 128,
        v < 0x1_0000_0000 ==> uleb(v).len() <= 5,
    decreases v,
{
    if v < 0x1_0000_0000 {
        assert(pow128(5) == 34359738368) by { reveal_with_fuel(pow128, 6); }
        lemma_uleb_len(v, 5);
    }
    if v / 128 == 0 {
        let whole = uleb(v);
        assert(whole.drop_first().len() == 0);
        assert(uleb_value(whole.drop_first()) == 0);
        assert(uleb_value(whole) == (whole[0] % 128) as nat + 128 * uleb_value(whole.drop_first()));
    }
    if v / 128 != 0 {
        lemma_uleb_roundtrip(v / 128);
        let rest = uleb(v / 128);
        let whole = uleb(v);
        assert(whole.drop_first() =~= rest);
        let lo = (v % 128) as u8;
        assert(whole[0] == (lo + 128) as u8);
        assert(((lo + 128) as u8) % 128 == lo);
        assert(uleb_value(whole) == (whole[0] % 128) as nat + 128 * uleb_value(rest));
        assert forall|i: int| 0 <= i < whole.len() - 1 implies #[trigger] whole[i] >= 128 by {
            if i > 0 {
                assert(whole[i] == rest[i - 1]);
            }
        }
    }
}

/// `128^k`.
pub open spec fn pow128(k: nat) -> nat
    decreases k,
{
    if k == 0 { 1 } else { 128 * pow128((k - 1) as nat) }
}

/// A value below `128^k` takes at most `k` LEB128 bytes.
pub proof fn lemma_uleb_len(v: nat, k: nat)
    requires v < pow128(k), k >= 1,
    ensures uleb(v).len() <= k,
    decreases v,
{
    if v / 128 != 0 {
        assert(k >= 2) by {
            if k == 1 { assert(pow128(1) == 128) by { assert(pow128(0) == 1); } }
        }
        assert(v / 128 < pow128((k - 1) as nat));
        lemma_uleb_len(v / 128, (k - 1) as nat);
    }
}

/// `n` zero bits written as a value are zero bits.
pub proof fn lemma_value_bits_zero(n: nat)
    requires n <= 32,
    ensures value_bits(0, n) =~= zeros(n),
{
    assert forall|i: int| 0 <= i < n implies #[trigger] value_bits(0, n)[i] == false by {
        let sh: u32 = (n - 1 - i) as u32;
        assert(((0u32 >> sh) & 1) == 0) by (bit_vector);
    }
}

/// Encode `value` as unsigned LEB128.
pub fn uleb_encode(value: u32) -> (r: Vec<u8>)
    ensures r@ == uleb(value as nat),
{
    let mut result: Vec<u8> = Vec::new();
    let mut v: u32 = value;
    loop
        invariant_except_break
            result@ + uleb(v as nat) == uleb(value as nat),
        ensures
            result@ == uleb(value as nat),
        decreases v,
    {
        let lo: u8 = (v & 0x7F) as u8;
        assert((v & 0x7F) == v % 128) by (bit_vector);
        assert(v >> 7u32 == v / 128) by (bit_vector);
        let hi = v >> 7;
        if hi != 0 {
            let byte: u8 = lo | 0x80;
            assert(byte == lo + 128) by (bit_vector) requires byte == lo | 0x80, lo < 128;
            let ghost before = result@;
            result.push(byte);
            proof {
                assert(uleb(v as nat) == seq![byte] + uleb(hi as nat));
                assert(result@ + uleb(hi as nat) =~= before + uleb(v as nat));
            }
            v = hi;
        } else {
            let ghost before = result@;
            result.push(lo);
            proof {
                assert(uleb(v as nat) == seq![lo]);
                assert(result@ =~= before + uleb(v as nat));
            }
            break;
        }
    }
    result
}

/// One bit.
pub open spec fn b1(x: bool) -> Seq<bool> {
    seq![x]
}

/// `n` zero bits.
pub open spec fn zeros(n: nat) -> Seq<bool> {
    Seq::new(n, |i: int| false)
}

/// Trailing bits: a one bit, then zeros up to the next byte boundary.
pub open spec fn with_trailing(bits: Seq<bool>) -> Seq<bool> {
    bits + b1(true) + zeros(((8 - (bits.len() + 1) % 8) % 8) as nat)
}

/// Bits of an OBU header: forbidden bit, 4-bit type, extension flag, has-size flag,
/// reserved bit, and with the extension temporal, spatial and reserved fields (all 0).
pub open spec fn obu_header_bits(code: u8, ext: bool) -> Seq<bool> {
    let base = value_bits(0, 1) + value_bits(code as u32, 4) + b1(ext) + b1(true) + value_bits(0, 1);
    if ext { base + value_bits(0, 3) + value_bits(0, 2) + value_bits(0, 3) } else { base }
}

/// Write an OBU header (one byte, or two with the extension).
pub fn write_obu_header(obu_type: ObuType, has_extension: bool) -> (r: Vec<u8>)
    ensures r@ == packed(obu_header_bits(obu_type.code(), has_extension)),
{
    let mut wb = BitWriter::new();
    wb.write_bits(0, 1);
    wb.write_bits(obu_type.as_u8() as u32, 4);
    wb.write_bit(has_extension);
    wb.write_bit(true);
    wb.write_bits(0, 1);
    if has_extension {
        wb.write_bits(0, 3);
        wb.write_bits(0, 2);
        wb.write_bits(0, 3);
    }
    proof { assert(wb@ =~= obu_header_bits(obu_type.code(), has_extension)); }
    wb.into_data()
}

/// A complete OBU: header, LEB128 payload size, payload.
pub open spec fn obu_bytes(code: u8, payload: Seq<u8>) -> Seq<u8> {
    packed(obu_header_bits(code, false)) + uleb((payload.len() as u32) as nat) + payload
}

/// Write a complete OBU (header + LEB128 size + payload).
pub fn write_obu(obu_type: ObuType, payload: &[u8]) -> (r: Vec<u8>)
    ensures r@ == obu_bytes(obu_type.code(), payload@),
{
    let header = write_obu_header(obu_type, false);
    let size = uleb_encode(payload.len() as u32);
    let mut obu: Vec<u8> = Vec::new();
    append(&mut obu, header.as_slice());
    append(&mut obu, size.as_slice());
    append(&mut obu, payload);
    obu
}

/// Append all of `src` to `dst`.
pub fn append(dst: &mut Vec<u8>, src: &[u8])
    ensures final(dst)@ == old(dst)@ + src@,
{
    let mut i: usize = 0;
    while i < src.len()
        invariant
            i <= src@.len(),
            dst@ == old(dst)@ + src@.subrange(0, i as int),
        decreases src@.len() - i,
    {
        dst.push(src[i]);
        i = i + 1;
        proof { assert(dst@ =~= old(dst)@ + src@.subrange(0, i as int)); }
    }
    proof { assert(src@.subrange(0, src@.len() as int) =~= src@); }
}

/// Write a temporal delimiter OBU (empty payload).
pub fn write_temporal_delimiter() -> (r: Vec<u8>)
    ensures r@ == obu_bytes(2, Seq::<u8>::empty()),
{
    let empty: Vec<u8> = Vec::new();
    write_obu(ObuType::TemporalDelimiter, empty.as_slice())
}

/// Append trailing bits: a one bit, then zero bits up to a byte boundary.
pub fn write_trailing_bits(wb: &mut BitWriter)
    requires old(wb).wf(), old(wb)@.len() + 8 <= u32::MAX,
    ensures final(wb).wf(), final(wb)@ == with_trailing(old(wb)@),
{
    wb.write_bit(true);
    let remainder = wb.bit_offset() % 8;
    if remainder != 0 {
        wb.write_bits(0, 8 - remainder);
        proof { lemma_value_bits_zero((8 - remainder) as nat); }
    } else {
        proof { assert(old(wb)@.push(true) + zeros(0) =~= old(wb)@.push(true)); }
    }
    proof {
        assert(old(wb)@.push(true) =~= old(wb)@ + b1(true));
        let z = ((8 - (old(wb)@.len() + 1) % 8) % 8) as nat;
        if remainder != 0 {
            assert(z == 8 - remainder);
        }
    }
}

/// Order hint bits used in the full sequence header.
pub const ORDER_HINT_BITS: u32 = 7;

/// `ceil(log2(n))`, with 0 for n of 0 or 1.
pub open spec fn spec_tile_log2(n: u32) -> nat {
    if n <= 1 { 0 } else { ilog((n - 1) as nat) }
}

/// `ceil(log2(n))`, with 0 for n of 0 or 1.
pub fn tile_log2(n: u32) -> (r: u32)
    ensures r == spec_tile_log2(n), r <= 32,
{
    if n <= 1 {
        return 0;
    }
    ilog_nz(n - 1) as u32
}

/// Number of superblocks (of `sb` pixels) covering `len` pixels.
pub open spec fn div_ceil(len: nat, sb: nat) -> nat {
    ((len + sb - 1) as nat) / sb
}

/// The smaller of two numbers.
pub open spec fn min_nat(a: nat, b: nat) -> nat {
    if a < b { a } else { b }
}

/// Bits of `tile_info()` for one uniform tile: the uniform flag, then one zero
/// increment bit for columns and one for rows where more than one tile is possible.
pub open spec fn tile_info_bits(width: u32, height: u32) -> Seq<bool> {
    let cols = min_nat(div_ceil(width as nat, 64), 64);
    let rows = min_nat(div_ceil(height as nat, 64), 64);
    b1(true)
        + (if spec_tile_log2(cols as u32) > 0 { b1(false) } else { Seq::<bool>::empty() })
        + (if spec_tile_log2(rows as u32) > 0 { b1(false) } else { Seq::<bool>::empty() })
}

/// Superblocks of 64 pixels across `len` pixels.
fn sb_count(len: u32) -> (r: u32)
    ensures r == div_ceil(len as nat, 64),
{
    len / 64 + if len % 64 != 0 { 1 } else { 0 }
}

/// Write `tile_info()` for a single uniformly spaced tile.
pub fn write_tile_info(wb: &mut BitWriter, width: u32, height: u32)
    requires old(wb).wf(), old(wb)@.len() + 3 <= u32::MAX,
    ensures final(wb).wf(), final(wb)@ == old(wb)@ + tile_info_bits(width, height),
{
    let sb_cols = sb_count(width);
    let sb_rows = sb_count(height);
    wb.write_bit(true);
    let cols = if sb_cols < 64 { sb_cols } else { 64 };
    let max_log2_tile_cols = tile_log2(cols);
    if max_log2_tile_cols > 0 {
        wb.write_bit(false);
    }
    let rows = if sb_rows < 64 { sb_rows } else { 64 };
    let max_log2_tile_rows = tile_log2(rows);
    if max_log2_tile_rows > 0 {
        wb.write_bit(false);
    }
    proof {
        let t = tile_info_bits(width, height);
        assert(wb@ =~= old(wb)@ + t);
    }
}


/// The sRGB color description.
pub open spec fn srgb_desc() -> ColorDescription {
    ColorDescription { color_primaries: 1, transfer_characteristics: 13, matrix_coefficients: 1, full_range: false }
}

/// Sequence header, first part: profile, still-picture flags, level or operating point.
pub open spec fn sh_part1(still: bool, bit_depth: u8) -> Seq<bool> {
    let profile: u32 = if bit_depth > 10 { 2 } else { 0 };
    value_bits(profile, 3) + b1(still) + b1(still)
        + (if still { value_bits(8, 5) } else {
            b1(false) + b1(false) + value_bits(0, 5) + value_bits(0, 12) + value_bits(8, 5) + b1(false) })
}

/// Sequence header, second part: widths of the size fields, then the maximum frame size minus one.
pub open spec fn sh_part2(width: u32, height: u32) -> Seq<bool> {
    let w_bits = ilog((width - 1) as nat);
    let h_bits = ilog((height - 1) as nat);
    value_bits((w_bits - 1) as u32, 4) + value_bits((h_bits - 1) as u32, 4)
        + value_bits((width - 1) as u32, w_bits) + value_bits((height - 1) as u32, h_bits)
}

/// Sequence header, third part: frame id, superblock and tool flags.
pub open spec fn sh_part3(still: bool) -> Seq<bool> {
    (if !still { b1(false) } else { Seq::<bool>::empty() })
        + b1(false) + b1(false) + b1(false)
        + (if still { Seq::<bool>::empty() } else {
            b1(false) + b1(false) + b1(false) + b1(false) + b1(true) + b1(false) + b1(false)
                + value_bits(6, 3) + b1(true) + b1(true) })
        + b1(false) + b1(false) + b1(false)
}

/// Sequence header, last part: color config with a color description, film grain flag.
pub open spec fn sh_part4(bit_depth: u8, color: ColorDescription) -> Seq<bool> {
    let profile: u32 = if bit_depth > 10 { 2 } else { 0 };
    b1(bit_depth > 8)
        + (if profile == 2 && bit_depth > 8 { b1(bit_depth >= 12) } else { Seq::<bool>::empty() })
        + b1(true) + b1(true)
        + value_bits(color.color_primaries as u32, 8) + value_bits(color.transfer_characteristics as u32, 8)
        + value_bits(color.matrix_coefficients as u32, 8)
        + b1(false)
}

/// Bits of a sequence header (monochrome, 64x64 superblocks, no optional tools).
pub open spec fn seq_header_bits(width: u32, height: u32, still: bool, bit_depth: u8, color: ColorDescription) -> Seq<bool> {
    sh_part1(still, bit_depth) + sh_part2(width, height) + sh_part3(still) + sh_part4(bit_depth, color)
}

/// The sequence header OBU.
pub open spec fn seq_header_obu(width: u32, height: u32, still: bool, bit_depth: u8, color: ColorDescription) -> Seq<u8> {
    obu_bytes(1, packed(with_trailing(seq_header_bits(width, height, still, bit_depth, color))))
}

/// Write a reduced (still-picture) sequence header OBU, 8-bit sRGB.
pub fn write_sequence_header(width: u32, height: u32) -> (r: Vec<u8>)
    requires width >= 2, height >= 2,
    ensures r@ == seq_header_obu(width, height, true, 8, srgb_desc()),
{
    write_sequence_header_ex(width, height, true, 8, &ColorDescription::srgb())
}

/// Write a full sequence header OBU (inter frames allowed), 8-bit sRGB.
pub fn write_sequence_header_full(width: u32, height: u32) -> (r: Vec<u8>)
    requires width >= 2, height >= 2,
    ensures r@ == seq_header_obu(width, height, false, 8, srgb_desc()),
{
    write_sequence_header_ex(width, height, false, 8, &ColorDescription::srgb())
}

/// Write a sequence header with explicit bit depth and color description.
pub fn write_sequence_header_ex(width: u32, height: u32, still_picture: bool, bit_depth: u8, color: &ColorDescription) -> (r: Vec<u8>)
    requires width >= 2, height >= 2,
    ensures r@ == seq_header_obu(width, height, still_picture, bit_depth, *color),
{
    write_sequence_header_inner(width, height, still_picture, bit_depth, color)
}

fn write_sh_part1(wb: &mut BitWriter, still_picture: bool, bit_depth: u8)
    requires old(wb).wf(), old(wb)@.len() <= 4096,
    ensures final(wb).wf(), final(wb)@ == old(wb)@ + sh_part1(still_picture, bit_depth),
        sh_part1(still_picture, bit_depth).len() <= 40,
{
    let profile: u32 = if bit_depth > 10 { 2 } else { 0 };
    wb.write_bits(profile, 3);
    wb.write_bit(still_picture);
    wb.write_bit(still_picture);
    if still_picture {
        wb.write_bits(8, 5);
    } else {
        wb.write_bit(false);
        wb.write_bit(false);
        wb.write_bits(0, 5);
        wb.write_bits(0, 12);
        wb.write_bits(8, 5);
        wb.write_bit(false);
    }
    proof { assert(wb@ =~= old(wb)@ + sh_part1(still_picture, bit_depth)); }
}

fn write_sh_part2(wb: &mut BitWriter, width: u32, height: u32)
    requires old(wb).wf(), old(wb)@.len() <= 4096, width >= 2, height >= 2,
    ensures final(wb).wf(), final(wb)@ == old(wb)@ + sh_part2(width, height),
        sh_part2(width, height).len() <= 72,
{
    let w_bits = ilog_nz(width - 1) as u32;
    let h_bits = ilog_nz(height - 1) as u32;
    wb.write_bits(w_bits - 1, 4);
    wb.write_bits(h_bits - 1, 4);
    wb.write_bits(width - 1, w_bits);
    wb.write_bits(height - 1, h_bits);
    proof { assert(wb@ =~= old(wb)@ + sh_part2(width, height)); }
}

fn write_sh_part3(wb: &mut BitWriter, still_picture: bool)
    requires old(wb).wf(), old(wb)@.len() <= 4096,
    ensures final(wb).wf(), final(wb)@ == old(wb)@ + sh_part3(still_picture),
        sh_part3(still_picture).len() <= 40,
{
    if !still_picture {
        wb.write_bit(false);
    }
    wb.write_bit(false);
    wb.write_bit(false);
    wb.write_bit(false);
    if !still_picture {
        wb.write_bit(false);
        wb.write_bit(false);
        wb.write_bit(false);
        wb.write_bit(false);
        wb.write_bit(true);
        wb.write_bit(false);
        wb.write_bit(false);
        wb.write_bits(ORDER_HINT_BITS - 1, 3);
        wb.write_bit(true);
        wb.write_bit(true);
    }
    wb.write_bit(false);
    wb.write_bit(false);
    wb.write_bit(false);
    proof { assert(wb@ =~= old(wb)@ + sh_part3(still_picture)); }
}

fn write_sh_part4(wb: &mut BitWriter, bit_depth: u8, color: &ColorDescription)
    requires old(wb).wf(), old(wb)@.len() <= 4096,
    ensures final(wb).wf(), final(wb)@ == old(wb)@ + sh_part4(bit_depth, *color),
        sh_part4(bit_depth, *color).len() <= 40,
{
    let profile: u32 = if bit_depth > 10 { 2 } else { 0 };
    wb.write_bit(bit_depth > 8);
    if profile == 2 && bit_depth > 8 {
        wb.write_bit(bit_depth >= 12);
    }
    wb.write_bit(true);
    wb.write_bit(true);
    wb.write_bits(color.color_primaries as u32, 8);
    wb.write_bits(color.transfer_characteristics as u32, 8);
    wb.write_bits(color.matrix_coefficients as u32, 8);
    wb.write_bit(false);
    proof { assert(wb@ =~= old(wb)@ + sh_part4(bit_depth, *color)); }
}

/// Body of the sequence header writer.
fn write_sequence_header_inner(width: u32, height: u32, still_picture: bool, bit_depth: u8, color: &ColorDescription) -> (r: Vec<u8>)
    requires width >= 2, height >= 2,
    ensures r@ == seq_header_obu(width, height, still_picture, bit_depth, *color),
{
    let mut wb = BitWriter::new();
    write_sh_part1(&mut wb, still_picture, bit_depth);
    write_sh_part2(&mut wb, width, height);
    write_sh_part3(&mut wb, still_picture);
    write_sh_part4(&mut wb, bit_depth, color);
    proof {
        assert(wb@ =~= seq_header_bits(width, height, still_picture, bit_depth, *color));
    }
    write_trailing_bits(&mut wb);
    let payload = wb.into_data();
    write_obu(ObuType::SequenceHeader, payload.as_slice())
}

/// Key frame header, preamble up to the frame size: frame type and flags
/// (full headers only), screen content, order hint and refresh flags (full only).
pub open spec fn kf_part1(reduced: bool) -> Seq<bool> {
    (if !reduced { b1(false) + value_bits(0, 2) + b1(true) + b1(false) } else { Seq::<bool>::empty() })
        + b1(false)
        + (if !reduced { b1(false) + value_bits(0, 7) + value_bits(0xFF, 8) } else { Seq::<bool>::empty() })
        + b1(false)
}

/// Key frame header, after the tile info: quantizer, segmentation, delta-Q,
/// loop filter, transform mode and reduced transform set fields.
pub open spec fn kf_part2(base_qindex: u8) -> Seq<bool> {
    value_bits(base_qindex as u32, 8) + b1(false) + b1(false)
        + b1(false) + b1(false)
        + value_bits(0, 6) + value_bits(0, 6) + value_bits(0, 3) + b1(false)
        + b1(false) + b1(false)
}

/// Bits of a key frame header (before trailing bits).
pub open spec fn kf_header_bits(width: u32, height: u32, base_qindex: u8, reduced: bool) -> Seq<bool> {
    kf_part1(reduced) + tile_info_bits(width, height) + kf_part2(base_qindex)
}

/// Write a key frame header for a reduced (still-picture) sequence header.
pub fn write_key_frame_header(width: u32, height: u32, base_qindex: u8) -> (r: Vec<u8>)
    ensures r@ == packed(with_trailing(kf_header_bits(width, height, base_qindex, true))),
{
    write_key_frame_header_full(width, height, base_qindex, true)
}

fn write_kf_part1(wb: &mut BitWriter, reduced_sh: bool)
    requires old(wb).wf(), old(wb)@.len() <= 4096,
    ensures final(wb).wf(), final(wb)@ == old(wb)@ + kf_part1(reduced_sh), kf_part1(reduced_sh).len() <= 30,
{
    if !reduced_sh {
        wb.write_bit(false);
        wb.write_bits(0, 2);
        wb.write_bit(true);
        wb.write_bit(false);
    }
    wb.write_bit(false);
    if !reduced_sh {
        wb.write_bit(false);
        wb.write_bits(0, ORDER_HINT_BITS);
        wb.write_bits(0xFF, 8);
    }
    wb.write_bit(false);
    proof { assert(wb@ =~= old(wb)@ + kf_part1(reduced_sh)); }
}

fn write_kf_part2(wb: &mut BitWriter, base_qindex: u8)
    requires old(wb).wf(), old(wb)@.len() <= 4096,
    ensures final(wb).wf(), final(wb)@ == old(wb)@ + kf_part2(base_qindex), kf_part2(base_qindex).len() <= 40,
{
    wb.write_bits(base_qindex as u32, 8);
    wb.write_bit(false);
    wb.write_bit(false);
    wb.write_bit(false);
    wb.write_bit(false);
    wb.write_bits(0, 6);
    wb.write_bits(0, 6);
    wb.write_bits(0, 3);
    wb.write_bit(false);
    wb.write_bit(false);
    wb.write_bit(false);
    proof { assert(wb@ =~= old(wb)@ + kf_part2(base_qindex)); }
}

/// Write the uncompressed header of a key frame (monochrome, one tile, no optional tools).
pub fn write_key_frame_header_full(width: u32, height: u32, base_qindex: u8, reduced_sh: bool) -> (r: Vec<u8>)
    ensures r@ == packed(with_trailing(kf_header_bits(width, height, base_qindex, reduced_sh))),
{
    let mut wb = BitWriter::new();
    write_kf_part1(&mut wb, reduced_sh);
    write_tile_info(&mut wb, width, height);
    write_kf_part2(&mut wb, base_qindex);
    proof { assert(wb@ =~= kf_header_bits(width, height, base_qindex, reduced_sh)); }
    write_trailing_bits(&mut wb);
    wb.into_data()
}

/// Inter frame header, first part: frame type and flags, order hint, refresh
/// flags and seven zero reference indices.
pub open spec fn inter_part1(refresh_frame_flags: u8, order_hint: u8) -> Seq<bool> {
    b1(false) + value_bits(1, 2) + b1(true) + b1(true) + b1(false) + b1(false) + b1(false)
        + value_bits(order_hint as u32, 7) + value_bits(refresh_frame_flags as u32, 8)
        + zeros(21)
}

/// Inter frame header, second part: size, filter and tile fields, quantizer,
/// loop filter, transform mode, skip mode, reduced set and seven global motion flags.
pub open spec fn inter_part2(base_qindex: u8) -> Seq<bool> {
    b1(false) + b1(true) + b1(false) + b1(false) + b1(true)
        + value_bits(base_qindex as u32, 8) + b1(false) + b1(false) + b1(false) + b1(false)
        + value_bits(0, 6) + value_bits(0, 6) + value_bits(0, 3) + b1(false)
        + b1(false) + b1(false) + b1(false)
        + zeros(7)
}

/// Bits of an inter frame header (before trailing bits).
pub open spec fn inter_header_bits(base_qindex: u8, refresh_frame_flags: u8, order_hint: u8) -> Seq<bool> {
    inter_part1(refresh_frame_flags, order_hint) + inter_part2(base_qindex)
}

fn write_inter_part1(wb: &mut BitWriter, refresh_frame_flags: u8, order_hint: u8)
    requires old(wb).wf(), old(wb)@.len() <= 4096,
    ensures final(wb).wf(), final(wb)@ == old(wb)@ + inter_part1(refresh_frame_flags, order_hint),
        inter_part1(refresh_frame_flags, order_hint).len() <= 60,
{
    wb.write_bit(false);
    wb.write_bits(1, 2);
    wb.write_bit(true);
    wb.write_bit(true);
    wb.write_bit(false);
    wb.write_bit(false);
    wb.write_bit(false);
    wb.write_bits(order_hint as u32, ORDER_HINT_BITS);
    wb.write_bits(refresh_frame_flags as u32, 8);
    let ghost mid = wb@;
    let mut k: u32 = 0;
    while k < 7
        invariant
            k <= 7,
            wb.wf(),
            mid.len() <= 4200,
            wb@ == mid + zeros(3 * k as nat),
        decreases 7 - k,
    {
        wb.write_bits(0, 3);
        proof {
            lemma_value_bits_zero(3);
            assert(mid + zeros(3 * k as nat) + zeros(3) =~= mid + zeros(3 * (k + 1) as nat));
        }
        k = k + 1;
    }
    proof { assert(wb@ =~= old(wb)@ + inter_part1(refresh_frame_flags, order_hint)); }
}

fn write_inter_part2(wb: &mut BitWriter, base_qindex: u8)
    requires old(wb).wf(), old(wb)@.len() <= 4096,
    ensures final(wb).wf(), final(wb)@ == old(wb)@ + inter_part2(base_qindex), inter_part2(base_qindex).len() <= 60,
{
    wb.write_bit(false);
    wb.write_bit(true);
    wb.write_bit(false);
    wb.write_bit(false);
    wb.write_bit(true);
    wb.write_bits(base_qindex as u32, 8);
    wb.write_bit(false);
    wb.write_bit(false);
    wb.write_bit(false);
    wb.write_bit(false);
    wb.write_bits(0, 6);
    wb.write_bits(0, 6);
    wb.write_bits(0, 3);
    wb.write_bit(false);
    wb.write_bit(false);
    wb.write_bit(false);
    wb.write_bit(false);
    let ghost mid = wb@;
    let mut k: u32 = 0;
    while k < 7
        invariant
            k <= 7,
            wb.wf(),
            mid.len() <= 4200,
            wb@ == mid + zeros(k as nat),
        decreases 7 - k,
    {
        wb.write_bit(false);
        proof { assert(mid + zeros(k as nat) + seq![false] =~= mid + zeros((k + 1) as nat)); }
        k = k + 1;
    }
    proof { assert(wb@ =~= old(wb)@ + inter_part2(base_qindex)); }
}

/// Write an inter frame header (full sequence header, error-resilient, one tile).
pub fn write_inter_frame_header(base_qindex: u8, refresh_frame_flags: u8, order_hint: u8) -> (r: Vec<u8>)
    ensures r@ == packed(with_trailing(inter_header_bits(base_qindex, refresh_frame_flags, order_hint))),
{
    let mut wb = BitWriter::new();
    write_inter_part1(&mut wb, refresh_frame_flags, order_hint);
    write_inter_part2(&mut wb, base_qindex);
    proof { assert(wb@ =~= inter_header_bits(base_qindex, refresh_frame_flags, order_hint)); }
    write_trailing_bits(&mut wb);
    wb.into_data()
}

/// The one-byte tile group header: a zero start/end flag and trailing bits.
pub open spec fn tile_group_header() -> Seq<u8> {
    packed(with_trailing(b1(false)))
}

/// Build the tile group of a single-tile frame: header byte, then the tile data.
pub fn build_tile_group_single(tile_data: &[u8]) -> (r: Vec<u8>)
    ensures r@ == tile_group_header() + tile_data@,
{
    let mut wb = BitWriter::new();
    wb.write_bit(false);
    proof { assert(wb@ =~= b1(false)); }
    write_trailing_bits(&mut wb);
    let header = wb.into_data();
    let mut result: Vec<u8> = Vec::new();
    append(&mut result, header.as_slice());
    append(&mut result, tile_data);
    proof { assert(result@ =~= tile_group_header() + tile_data@); }
    result
}

/// The four little-endian bytes of `x`.
pub open spec fn le4(x: u32) -> Seq<u8> {
    seq![(x % 256) as u8, ((x / 256) % 256) as u8, ((x / 65536) % 256) as u8, ((x / 16777216) % 256) as u8]
}

/// Tile `k` of `n` in a multi-tile group: its size minus one (saturating, four bytes
/// little-endian) unless it is the last tile, then its data.
pub open spec fn tile_piece(tiles: Seq<Vec<u8>>, k: int) -> Seq<u8> {
    if k < tiles.len() - 1 {
        le4((if (tiles[k]@.len() as u32) >= 1 { (tiles[k]@.len() as u32) - 1 } else { 0 }) as u32) + tiles[k]@
    } else {
        tiles[k]@
    }
}

/// The pieces of the first `i` tiles, in order.
pub open spec fn tiles_upto(tiles: Seq<Vec<u8>>, i: int) -> Seq<u8>
    decreases i,
{
    if i <= 0 { Seq::empty() } else { tiles_upto(tiles, i - 1) + tile_piece(tiles, i - 1) }
}

/// Build a tile group: one tile as in the single-tile case (no tile: empty data);
/// otherwise the header byte, then every tile preceded, except the last, by its size minus one.
pub fn build_tile_group_multi(tile_bitstreams: &[Vec<u8>]) -> (r: Vec<u8>)
    ensures
        tile_bitstreams@.len() == 0 ==> r@ == tile_group_header(),
        tile_bitstreams@.len() == 1 ==> r@ == tile_group_header() + tile_bitstreams@[0]@,
        tile_bitstreams@.len() > 1 ==> r@ == tile_group_header() + tiles_upto(tile_bitstreams@, tile_bitstreams@.len() as int),
{
    let n = tile_bitstreams.len();
    if n <= 1 {
        if n == 1 {
            return build_tile_group_single(tile_bitstreams[0].as_slice());
        }
        let empty: Vec<u8> = Vec::new();
        let r = build_tile_group_single(empty.as_slice());
        proof { assert(r@ =~= tile_group_header()); }
        return r;
    }
    let header = build_tile_group_single(&[]);
    proof { assert(header@ =~= tile_group_header()); }
    let mut result: Vec<u8> = Vec::new();
    append(&mut result, header.as_slice());
    let mut i: usize = 0;
    while i < n
        invariant
            n == tile_bitstreams@.len(),
            n > 1,
            i <= n,
            result@ == tile_group_header() + tiles_upto(tile_bitstreams@, i as int),
        decreases n - i,
    {
        let tile = &tile_bitstreams[i];
        let ghost before = result@;
        if i < n - 1 {
            let len32: u32 = tile.len() as u32;
            let size_minus_1: u32 = len32.saturating_sub(1);
            let b0: u8 = (size_minus_1 % 256) as u8;
            let b1v: u8 = ((size_minus_1 / 256) % 256) as u8;
            let b2: u8 = ((size_minus_1 / 65536) % 256) as u8;
            let b3: u8 = ((size_minus_1 / 16777216) % 256) as u8;
            result.push(b0);
            result.push(b1v);
            result.push(b2);
            result.push(b3);
            proof {
                assert(result@ =~= before + le4(size_minus_1));
            }
        }
        append(&mut result, tile.as_slice());
        proof {
            assert(tiles_upto(tile_bitstreams@, (i + 1) as int)
                == tiles_upto(tile_bitstreams@, i as int) + tile_piece(tile_bitstreams@, i as int));
            assert(result@ =~= tile_group_header() + tiles_upto(tile_bitstreams@, (i + 1) as int));
        }
        i = i + 1;
    }
    result
}

/// A minimal still-image bitstream: temporal delimiter, reduced sequence header,
/// and a frame OBU holding the key frame header and a single-tile group.
pub open spec fn still_frame_bytes(width: u32, height: u32, base_qindex: u8, tile: Seq<u8>) -> Seq<u8> {
    obu_bytes(2, Seq::<u8>::empty())
        + seq_header_obu(width, height, true, 8, srgb_desc())
        + obu_bytes(6, packed(with_trailing(kf_header_bits(width, height, base_qindex, true)))
            + (tile_group_header() + tile))
}

/// Write a complete minimal AV1 bitstream for a still image.
pub fn write_still_frame(width: u32, height: u32, base_qindex: u8, tile_data: &[u8]) -> (r: Vec<u8>)
    requires width >= 2, height >= 2,
    ensures r@ == still_frame_bytes(width, height, base_qindex, tile_data@),
{
    let mut bitstream: Vec<u8> = Vec::new();
    let td = write_temporal_delimiter();
    append(&mut bitstream, td.as_slice());
    let sh = write_sequence_header(width, height);
    append(&mut bitstream, sh.as_slice());
    let fh_bytes = write_key_frame_header(width, height, base_qindex);
    let tg_bytes = build_tile_group_single(tile_data);
    let mut frame_payload: Vec<u8> = Vec::new();
    append(&mut frame_payload, fh_bytes.as_slice());
    append(&mut frame_payload, tg_bytes.as_slice());
    let frame = write_obu(ObuType::Frame, frame_payload.as_slice());
    append(&mut bitstream, frame.as_slice());
    proof {
        assert(bitstream@ =~= still_frame_bytes(width, height, base_qindex, tile_data@));
    }
    bitstream
}

/// Write an inter frame as a frame OBU: the inter frame header followed by `tile_group_data`.
pub fn write_inter_frame(base_qindex: u8, refresh_frame_flags: u8, order_hint: u8, tile_group_data: &[u8]) -> (r: Vec<u8>)
    ensures r@ == obu_bytes(6, packed(with_trailing(inter_header_bits(base_qindex, refresh_frame_flags, order_hint)))
        + tile_group_data@),
{
    let header = write_inter_frame_header(base_qindex, refresh_frame_flags, order_hint);
    let mut payload: Vec<u8> = Vec::new();
    append(&mut payload, header.as_slice());
    append(&mut payload, tile_group_data);
    write_obu(ObuType::Frame, payload.as_slice())
}

} // verus!
