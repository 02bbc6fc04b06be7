//! Motion vector differences: joint type, then per nonzero component a sign,
//! a magnitude class, the integer offset within the class and the fraction.
use vstd::prelude::*;
use vstd::arithmetic::power2::{pow2, lemma2_to64};
use vstd::bits::{lemma_u32_shl_is_mul, lemma_u32_pow2_no_overflow};
use crate::entropy::range_coder::{CodedSymbol, ilog, ilog_nz, lemma_ilog_bounds};
use crate::entropy::writer::{AomWriter, literal_symbols};

verus! {

/// Which components of a motion vector difference are nonzero.
#[derive(Debug, Clone, Copy, PartialEq, Eq)]
pub enum MvJointType {
    /// Both components zero.
    Zero,
    /// Horizontal nonzero, vertical zero.
    HnzVz,
    /// Horizontal zero, vertical nonzero.
    HzVnz,
    /// Both nonzero.
    HnzVnz,
}

/// Number of magnitude classes.
pub const MV_CLASSES: usize = 11;

/// Number of fractional symbols.
pub const MV_FP_SIZE: usize = 4;

/// Motion vector coding CDFs.
#[derive(Debug, Clone)]
pub struct MvContext {
    /// Joint type CDF.
    pub joint_cdf: [u16; 5],
    /// Sign CDF per component.
    pub sign_cdf: [[u16; 3]; 2],
    /// Class CDF per component.
    pub class_cdf: [[u16; 12]; 2],
    /// Class-0 bit CDF per component.
    pub class0_bit_cdf: [[u16; 3]; 2],
    /// Fraction CDF per component and class-0 context.
    pub fp_cdf: [[[u16; 5]; 2]; 2],
    /// High-precision bit CDF per component.
    pub hp_cdf: [[u16; 3]; 2],
}

impl Default for MvContext {
    fn default() -> (r: Self)
        ensures
            r.joint_cdf == [12288u16, 8192, 4096, 0, 0],
            r.sign_cdf == [[16384u16, 0, 0], [16384u16, 0, 0]],
            r.class_cdf == [[0u16, 0, 0, 0, 0, 0, 0, 0, 0, 0, 0, 0], [0u16, 0, 0, 0, 0, 0, 0, 0, 0, 0, 0, 0]],
            r.class0_bit_cdf == [[16384u16, 0, 0], [16384u16, 0, 0]],
            r.fp_cdf == [[[0u16, 0, 0, 0, 0], [0u16, 0, 0, 0, 0]], [[0u16, 0, 0, 0, 0], [0u16, 0, 0, 0, 0]]],
            r.hp_cdf == [[16384u16, 0, 0], [16384u16, 0, 0]],
    {
        MvContext {
            joint_cdf: [12288u16, 8192, 4096, 0, 0],
            sign_cdf: [[16384u16, 0, 0], [16384u16, 0, 0]],
            class_cdf: [[0u16, 0, 0, 0, 0, 0, 0, 0, 0, 0, 0, 0], [0u16, 0, 0, 0, 0, 0, 0, 0, 0, 0, 0, 0]],
            class0_bit_cdf: [[16384u16, 0, 0], [16384u16, 0, 0]],
            fp_cdf: [[[0u16, 0, 0, 0, 0], [0u16, 0, 0, 0, 0]], [[0u16, 0, 0, 0, 0], [0u16, 0, 0, 0, 0]]],
            hp_cdf: [[16384u16, 0, 0], [16384u16, 0, 0]],
        }
    }
}

/// Magnitude class of a full-pel magnitude: `floor(log2(full_pel))`, at most 10 (0 for 0).
pub open spec fn spec_mv_class(full_pel: nat) -> nat {
    if full_pel == 0 { 0 } else if ilog(full_pel) - 1 <= 10 { (ilog(full_pel) - 1) as nat } else { 10 }
}

/// Class and in-class offset of an eighth-pel magnitude `mag`.
pub open spec fn spec_mv_class_and_offset(mag: u32) -> (u8, u32) {
    let full_pel = (mag / 8) as nat;
    if full_pel == 0 {
        (0, 0)
    } else {
        (spec_mv_class(full_pel) as u8, (full_pel - pow2(spec_mv_class(full_pel))) as u32)
    }
}

/// The coded symbols of one motion vector component.
pub open spec fn mv_component_symbols(comp: i16, allow_hp: bool) -> Seq<CodedSymbol> {
    let mag: u32 = (if comp < 0 { -comp } else { comp as int }) as u32;
    let sign = seq![CodedSymbol::Bool(comp < 0, 16384)];
    if mag == 0 {
        sign
    } else {
        let (class, offset) = spec_mv_class_and_offset(mag);
        let frac: u32 = mag % 8;
        sign + literal_symbols(class as u32, 4)
            + (if class == 0 { seq![CodedSymbol::Bool(offset > 0, 16384)] } else { literal_symbols(offset, class as nat) })
            + literal_symbols(frac / 2, 2)
            + (if allow_hp { seq![CodedSymbol::Bool(frac % 2 != 0, 16384)] } else { Seq::empty() })
    }
}

/// The joint type of a motion vector difference, as its 2-bit code.
pub open spec fn spec_mv_joint(mvd_x: i16, mvd_y: i16) -> u32 {
    ((if mvd_x != 0 { 1int } else { 0 }) + (if mvd_y != 0 { 2int } else { 0 })) as u32
}

/// The coded symbols of a motion vector difference.
pub open spec fn mv_symbols(mvd_x: i16, mvd_y: i16, allow_hp: bool) -> Seq<CodedSymbol> {
    literal_symbols(spec_mv_joint(mvd_x, mvd_y), 2)
        + (if mvd_x != 0 { mv_component_symbols(mvd_x, allow_hp) } else { Seq::empty() })
        + (if mvd_y != 0 { mv_component_symbols(mvd_y, allow_hp) } else { Seq::empty() })
}

/// Class and in-class offset of an eighth-pel magnitude: the full-pel part lies in
/// `[2^class, 2^(class + 1))` below class 10.
pub fn mv_class_and_offset(mag: u32) -> (r: (u8, u32))
    ensures
        r == spec_mv_class_and_offset(mag),
        r.0 <= 10,
{
    let full_pel: u32 = mag >> 3;
    assert(mag >> 3u32 == mag / 8) by (bit_vector);
    if full_pel == 0 {
        return (0, 0);
    }
    let bits: i32 = ilog_nz(full_pel);
    let class: u32 = if bits - 1 < 10 { (bits - 1) as u32 } else { 10 };
    proof {
        lemma_ilog_bounds(full_pel as nat);
        lemma_u32_pow2_no_overflow(class as nat);
        lemma2_to64();
        if class < 10 {
            assert(class as nat == (ilog(full_pel as nat) - 1) as nat);
        } else {
            if (ilog(full_pel as nat) - 1) as nat > 10 {
                vstd::arithmetic::power2::lemma_pow2_strictly_increases(10, (ilog(full_pel as nat) - 1) as nat);
            }
        }
        lemma_u32_shl_is_mul(1, class);
    }
    let base: u32 = 1u32 << class;
    (class as u8, full_pel - base)
}

/// Write one component: its sign, and for a nonzero magnitude the class as a 4-bit
/// literal, the offset (one bit in class 0, else `class` bits), the quarter-pel
/// fraction in two bits and, with high precision, the eighth-pel bit.
fn write_mv_component(writer: &mut AomWriter, comp: i16, allow_hp: bool)
    requires old(writer).room(18),
    ensures
        final(writer).ec.wf(),
        final(writer).ec@.offs <= old(writer).ec@.offs + 7 * 18,
        final(writer).allow_update_cdf == old(writer).allow_update_cdf,
        final(writer).ec.base() == old(writer).ec.base(),
        final(writer).ec.coded() == old(writer).ec.coded() + mv_component_symbols(comp, allow_hp),
{
    let mag: u32 = if comp < 0 { (0i32 - comp as i32) as u32 } else { comp as u32 };
    writer.write_bit(comp < 0);
    if mag == 0 {
        return;
    }
    let (class, offset) = mv_class_and_offset(mag);
    writer.write_literal(class as u32, 4);
    if class == 0 {
        writer.write_bit(offset > 0);
    } else {
        writer.write_literal(offset, class as u32);
    }
    let frac: u32 = mag & 7;
    assert(mag & 7u32 == mag % 8) by (bit_vector);
    assert(frac >> 1u32 == frac / 2) by (bit_vector);
    assert((frac & 1u32 != 0) == (frac % 2 != 0)) by (bit_vector);
    writer.write_literal(frac >> 1, 2);
    if allow_hp {
        writer.write_bit(frac & 1 != 0);
    }
}

/// Write a motion vector difference: the joint type as a 2-bit literal, then each
/// nonzero component.
pub fn write_mv(writer: &mut AomWriter, mvd_x: i16, mvd_y: i16, allow_hp: bool)
    requires old(writer).room(38),
    ensures
        final(writer).ec.wf(),
        final(writer).ec@.offs <= old(writer).ec@.offs + 7 * 38,
        final(writer).allow_update_cdf == old(writer).allow_update_cdf,
        final(writer).ec.base() == old(writer).ec.base(),
        final(writer).ec.coded() == old(writer).ec.coded() + mv_symbols(mvd_x, mvd_y, allow_hp),
{
    let joint = match (mvd_x != 0, mvd_y != 0) {
        (false, false) => MvJointType::Zero,
        (true, false) => MvJointType::HnzVz,
        (false, true) => MvJointType::HzVnz,
        (true, true) => MvJointType::HnzVnz,
    };
    let code: u32 = match joint {
        MvJointType::Zero => 0,
        MvJointType::HnzVz => 1,
        MvJointType::HzVnz => 2,
        MvJointType::HnzVnz => 3,
    };
    writer.write_literal(code, 2);
    let ghost after_joint = writer.ec.coded();
    if mvd_x != 0 {
        write_mv_component(writer, mvd_x, allow_hp);
    }
    let ghost after_x = writer.ec.coded();
    if mvd_y != 0 {
        write_mv_component(writer, mvd_y, allow_hp);
    }
    proof {
        let a = literal_symbols(spec_mv_joint(mvd_x, mvd_y), 2);
        let b = if mvd_x != 0 { mv_component_symbols(mvd_x, allow_hp) } else { Seq::empty() };
        let c = if mvd_y != 0 { mv_component_symbols(mvd_y, allow_hp) } else { Seq::empty() };
        assert(after_x =~= old(writer).ec.coded() + a + b);
        assert(writer.ec.coded() =~= old(writer).ec.coded() + a + b + c);
        assert(old(writer).ec.coded() + a + b + c =~= old(writer).ec.coded() + (a + b + c));
    }
}

} // verus!
