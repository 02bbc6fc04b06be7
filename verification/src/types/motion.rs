//! Motion vector types.
use vstd::prelude::*;

verus! {

/// Motion vector with 1/8-pixel precision (three fractional bits).
#[derive(Debug, Clone, Copy, PartialEq, Eq, Structural, Hash, Default)]
pub struct Mv {
    pub x: i16,
    pub y: i16,
}

/// Full-pel coordinate of a 1/8-pel coordinate: `(x + 3 + (x >= 0)) >> 3`.
pub open spec fn spec_rawpel(x: int) -> int {
    if x >= 0 { (x + 4) / 8 } else { (x + 3) / 8 }
}

/// The packed form of a motion vector: `x` in the low 16 bits, `y` in the high 16 bits.
pub open spec fn spec_mv_packed(mv: Mv) -> u32 {
    ((mv.x as u16) as int + (mv.y as u16) as int * 65536) as u32
}

/// The motion vector unpacked from `v`: the low 16 bits as `x`, the high 16 bits as `y`.
pub open spec fn spec_mv_unpacked(v: u32) -> Mv {
    Mv { x: (v % 65536) as u16 as i16, y: (v / 65536) as u16 as i16 }
}

impl Mv {
    /// Invalid MV sentinel (0x80008000 packed).
    pub fn invalid() -> (r: Mv)
        ensures r.x == i16::MIN && r.y == i16::MIN,
    {
        Mv { x: i16::MIN, y: i16::MIN }
    }

    /// Zero motion vector.
    pub fn zero() -> (r: Mv)
        ensures r.x == 0 && r.y == 0,
    {
        Mv { x: 0, y: 0 }
    }

    /// Pack into a `u32`: `x` in the low half, `y` in the high half.
    pub fn as_int(self) -> (r: u32)
        ensures r == spec_mv_packed(self),
    {
        let lo: u32 = (self.x as u16) as u32;
        let hi: u32 = (self.y as u16) as u32;
        assert((lo | (hi << 16)) == lo + hi * 65536) by (bit_vector)
            requires lo < 65536, hi < 65536;
        lo | (hi << 16)
    }

    /// Unpack from a `u32` (inverse of `as_int`).
    pub fn from_int(v: u32) -> (r: Mv)
        ensures
            r == spec_mv_unpacked(v),
    {
        assert((v >> 16) == v / 65536) by (bit_vector);
        assert((v as u16) == (v % 65536) as u16) by (bit_vector);
        Mv { x: v as u16 as i16, y: (v >> 16) as u16 as i16 }
    }

    /// Convert a sub-pel MV to a full-pel MV.
    pub fn to_fullpel(self) -> (r: Mv)
        requires
            self.x <= 32763,
            self.y <= 32763,
        ensures
            r.x == spec_rawpel(self.x as int),
            r.y == spec_rawpel(self.y as int),
    {
        Mv { x: get_mv_rawpel(self.x), y: get_mv_rawpel(self.y) }
    }

    /// Convert a full-pel MV to a sub-pel MV (multiply by 8).
    pub fn to_subpel(self) -> (r: Mv)
        requires
            -4096 <= self.x < 4096,
            -4096 <= self.y < 4096,
        ensures
            r.x == self.x * 8,
            r.y == self.y * 8,
    {
        Mv { x: get_mv_subpel(self.x), y: get_mv_subpel(self.y) }
    }

    /// Clamp each component to the given bounds.
    pub fn clamp(self, min_col: i16, max_col: i16, min_row: i16, max_row: i16) -> (r: Mv)
        requires
            min_col <= max_col,
            min_row <= max_row,
        ensures
            r.x == (if self.x < min_col { min_col } else if self.x > max_col { max_col } else { self.x }),
            r.y == (if self.y < min_row { min_row } else if self.y > max_row { max_row } else { self.y }),
    {
        let x = if self.x < min_col { min_col } else if self.x > max_col { max_col } else { self.x };
        let y = if self.y < min_row { min_row } else if self.y > max_row { max_row } else { self.y };
        Mv { x, y }
    }
}

/// Packing law: unpacking a packed motion vector gives it back
/// (`Mv::from_int(mv.as_int()) == mv`).
pub proof fn lemma_mv_pack_roundtrip(mv: Mv)
    ensures
        spec_mv_unpacked(spec_mv_packed(mv)) == mv,
{
    let x = mv.x;
    let y = mv.y;
    let lo = x as u16;
    let hi = y as u16;
    assert((lo as int + hi as int * 65536) % 65536 == lo as int);
    assert((lo as int + hi as int * 65536) / 65536 == hi as int);
    assert((x as u16) as i16 == x && (y as u16) as i16 == y) by (bit_vector);
}

/// Packing law: packing an unpacked word gives it back (`Mv::from_int(v).as_int() == v`).
pub proof fn lemma_mv_unpack_roundtrip(v: u32)
    ensures
        spec_mv_packed(spec_mv_unpacked(v)) == v,
{
    let lo: u16 = (v % 65536) as u16;
    let hi: u16 = (v / 65536) as u16;
    assert((lo as i16) as u16 == lo && (hi as i16) as u16 == hi) by (bit_vector);
    assert(lo as int == v % 65536);
    assert(hi as int == v / 65536);
}

/// Full-pel conversion of a 1/8-pel coordinate: `(x + 3 + (x >= 0)) >> 3`.
pub fn get_mv_rawpel(x: i16) -> (r: i16)
    requires x <= 32763,
    ensures r == spec_rawpel(x as int),
{
    let bias: i16 = if x >= 0 { 4 } else { 3 };
    let s: i16 = x + bias;
    assert(s >> 3 == s / 8) by (bit_vector);
    s >> 3
}

/// Sub-pel conversion of a full-pel coordinate: `x * 8`.
pub fn get_mv_subpel(x: i16) -> (r: i16)
    requires -4096 <= x < 4096,
    ensures r == x * 8,
{
    x * 8
}

/// Round-trip law: scaling a full-pel coordinate to 1/8 pel and back gives it again.
pub proof fn lemma_subpel_fullpel_roundtrip(x: int)
    requires -4096 <= x < 4096,
    ensures spec_rawpel(x * 8) == x,
{
    if x >= 0 {
        assert((x * 8 + 4) / 8 == x);
    } else {
        assert((x * 8 + 3) / 8 == x);
    }
}

/// Candidate motion vector with a weight, for the MV stack.
#[derive(Debug, Clone, Copy, Default)]
pub struct CandidateMv {
    pub this_mv: Mv,
    pub comp_mv: Mv,
    pub weight: i32,
}

/// Full-pel MV search limits.
#[derive(Debug, Clone, Copy, Default)]
pub struct FullMvLimits {
    pub col_min: i32,
    pub col_max: i32,
    pub row_min: i32,
    pub row_max: i32,
}

/// Sub-pel MV search limits.
#[derive(Debug, Clone, Copy, Default)]
pub struct SubpelMvLimits {
    pub col_min: i32,
    pub col_max: i32,
    pub row_min: i32,
    pub row_max: i32,
}

/// Global motion transformation type.
#[derive(Debug, Clone, Copy, PartialEq, Eq, Structural, Hash)]
pub enum TransformationType {
    Identity,
    Translation,
    RotZoom,
    Affine,
}

impl TransformationType {
    pub const COUNT: usize = 4;
}

/// Maximum parameters in a warped motion model.
pub const MAX_PARAMDIM: usize = 6;
/// Bits of precision of the warped motion model.
pub const WARPEDMODEL_PREC_BITS: u32 = 16;
pub const GM_TRANS_PREC_BITS: u32 = 6;
pub const GM_ABS_TRANS_BITS: u32 = 12;
pub const GM_ALPHA_PREC_BITS: u32 = 15;
pub const GM_ABS_ALPHA_BITS: u32 = 12;
pub const GM_TRANS_PREC_DIFF: u32 = 10;
pub const GM_ALPHA_PREC_DIFF: u32 = 1;
/// Maximum number of MV reference candidates.
pub const MAX_MV_REF_CANDIDATES: usize = 2;
/// Maximum reference MV stack size.
pub const MAX_REF_MV_STACK_SIZE: usize = 8;

/// Warped motion parameters: affine matrix `[m0..m5]` and derived shears.
#[derive(Debug, Clone, Copy)]
pub struct WarpedMotionParams {
    pub wm_type: TransformationType,
    pub wmmat: [i32; 6],
    pub alpha: i16,
    pub beta: i16,
    pub gamma: i16,
    pub delta: i16,
    pub invalid: bool,
}

impl Default for WarpedMotionParams {
    /// The identity model: translation 0, diagonal `1 << 16`.
    fn default() -> (r: Self)
        ensures
            r.wm_type == TransformationType::Identity,
            r.wmmat@ == seq![0i32, 0, 65536, 0, 0, 65536],
            r.alpha == 0 && r.beta == 0 && r.gamma == 0 && r.delta == 0,
            !r.invalid,
    {
        WarpedMotionParams {
            wm_type: TransformationType::Identity,
            wmmat: [0, 0, 65536, 0, 0, 65536],
            alpha: 0,
            beta: 0,
            gamma: 0,
            delta: 0,
            invalid: false,
        }
    }
}

} // verus!
