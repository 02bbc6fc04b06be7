//! Forward transforms (DCT, ADST, identity) on transform coefficients.
use vstd::prelude::*;
use vstd::arithmetic::power2::pow2;
use crate::dsp::fdct_wide::{fdct_wide, spec_fdct_wide};

verus! {

/// Cosine table: `round(cos(j * pi / 128) * 2^12)`.
pub const COSPI: [i32; 64] = [
    4096, 4095, 4091, 4085, 4076, 4065, 4052, 4036, 4017, 3996, 3973, 3948, 3920, 3889, 3857, 3822,
    3784, 3745, 3703, 3659, 3612, 3564, 3513, 3461, 3406, 3349, 3290, 3229, 3166, 3102, 3035, 2967,
    2896, 2824, 2751, 2675, 2598, 2520, 2440, 2359, 2276, 2191, 2106, 2019, 1931, 1842, 1751, 1660,
    1567, 1474, 1380, 1285, 1189, 1092, 995, 897, 799, 700, 601, 501, 401, 301, 201, 101,
];

/// Sine constants of the 4-point ADST (Q12).
pub const SINPI: [i32; 5] = [0, 1321, 2482, 3344, 3803];

/// Precision of the cosine constants.
pub const COS_BIT: u32 = 12;

/// `sqrt(2)` in Q12.
pub const NEW_SQRT2: i32 = 5793;
/// Precision of [`NEW_SQRT2`].
pub const NEW_SQRT2_BITS: u32 = 12;

/// `value / 2^bit` rounded half up (`value` for `bit == 0`).
pub open spec fn spec_round_shift(value: int, bit: nat) -> int {
    if bit == 0 { value } else { (value + pow2((bit - 1) as nat)) / (pow2(bit) as int) }
}

/// Arithmetic right shift of an `i64` is floor division by a power of two.
pub proof fn lemma_i64_shr(y: i64, b: u32)
    requires b < 64,
    ensures (y >> b) as int == (y as int) / (pow2(b as nat) as int),
    decreases b,
{
    if b == 0 {
        assert(y >> b == y) by (bit_vector) requires b == 0;
        vstd::arithmetic::power2::lemma2_to64();
        assert((y as int) / 1 == y as int);
    } else {
        let c: u32 = (b - 1) as u32;
        lemma_i64_shr(y, c);
        let z: i64 = y >> c;
        assert(y >> b == z / 2) by (bit_vector)
            requires b == c + 1, c < 63, z == y >> c;
        let p = pow2(c as nat) as int;
        vstd::arithmetic::power2::lemma_pow2_unfold(b as nat);
        vstd::arithmetic::power2::lemma_pow2_pos(c as nat);
        lemma_floor_div_twice(y as int, p);
        assert(pow2(b as nat) == 2 * pow2(c as nat));
        assert((z as int) == (y as int) / p);
        assert((y >> b) as int == (z as int) / 2);
        assert((z as int) / 2 == (y as int) / (2 * p));
    }
}

/// Floor division by `p` then by 2 is floor division by `2 * p`.
pub proof fn lemma_floor_div_twice(y: int, p: int)
    requires p > 0,
    ensures (y / p) / 2 == y / (2 * p),
{
    let q1 = y / p;
    let r1 = y % p;
    let q2 = q1 / 2;
    let r2 = q1 % 2;
    vstd::arithmetic::div_mod::lemma_fundamental_div_mod(y, p);
    vstd::arithmetic::div_mod::lemma_fundamental_div_mod(q1, 2);
    assert(y == (2 * p) * q2 + (p * r2 + r1)) by (nonlinear_arith)
        requires y == p * q1 + r1, q1 == 2 * q2 + r2;
    assert(0 <= p * r2 + r1 < 2 * p) by (nonlinear_arith)
        requires 0 <= r1 < p, 0 <= r2 < 2, p > 0;
    vstd::arithmetic::div_mod::lemma_fundamental_div_mod_converse(y, 2 * p, q2, p * r2 + r1);
}

/// Round-shift right by `bit`.
pub fn round_shift(value: i32, bit: u32) -> (r: i32)
    requires
        bit <= 31,
        bit > 0 ==> value + pow2((bit - 1) as nat) <= i32::MAX,
    ensures r == spec_round_shift(value as int, bit as nat),
{
    if bit == 0 {
        value
    } else {
        proof {
            vstd::bits::lemma_u32_shl_is_mul(1, (bit - 1) as u32);
            vstd::arithmetic::power2::lemma2_to64();
            if bit - 1 < 30 {
                vstd::arithmetic::power2::lemma_pow2_strictly_increases((bit - 1) as nat, 30);
            }
        }
        let y: i32 = value + (1u32 << (bit - 1)) as i32;
        proof { lemma_i64_shr(y as i64, bit); }
        ((y as i64) >> bit) as i32
    }
}

/// Round-shift an `i64` right by `bit`, truncated to `i32`.
pub fn round_shift_i64(value: i64, bit: u32) -> (r: i32)
    requires
        bit <= 63,
        bit > 0 ==> value + pow2((bit - 1) as nat) <= i64::MAX,
    ensures r == spec_round_shift(value as int, bit as nat) as i32,
{
    if bit == 0 {
        value as i32
    } else {
        proof {
            vstd::bits::lemma_u64_shl_is_mul(1, (bit - 1) as u64);
            vstd::arithmetic::power2::lemma2_to64_rest();
            if bit - 1 < 62 {
                vstd::arithmetic::power2::lemma_pow2_strictly_increases((bit - 1) as nat, 62);
            }
        }
        let y: i64 = value + (1u64 << (bit - 1)) as i64;
        proof { lemma_i64_shr(y, bit); }
        (y >> bit) as i32
    }
}

/// Half butterfly: `(w0 * in0 + w1 * in1)` round-shifted by `cos_bit`, truncated to `i32`.
pub fn half_btf(w0: i32, in0: i32, w1: i32, in1: i32, cos_bit: u32) -> (r: i32)
    requires
        1 <= cos_bit <= 62,
        w0 * in0 + w1 * in1 + pow2((cos_bit - 1) as nat) <= i64::MAX,
        i64::MIN <= w0 * in0 + w1 * in1,
    ensures r == spec_round_shift(w0 * in0 + w1 * in1, cos_bit as nat) as i32,
{
    proof {
        assert(-0x4000_0000_0000_0000 <= w0 * in0 <= 0x4000_0000_0000_0000) by (nonlinear_arith)
            requires -0x8000_0000 <= w0 < 0x8000_0000, -0x8000_0000 <= in0 < 0x8000_0000;
        assert(-0x4000_0000_0000_0000 <= w1 * in1 <= 0x4000_0000_0000_0000) by (nonlinear_arith)
            requires -0x8000_0000 <= w1 < 0x8000_0000, -0x8000_0000 <= in1 < 0x8000_0000;
    }
    let result: i64 = w0 as i64 * in0 as i64 + w1 as i64 * in1 as i64;
    round_shift_i64(result, cos_bit)
}

/// A half butterfly with 12-bit constants: `(w0 * a + w1 * b + 2048) / 4096`.
#[verifier::opaque]
pub open spec fn btf(w0: int, a: int, w1: int, b: int) -> int {
    (w0 * a + w1 * b + 2048) / 4096
}

/// [`half_btf`] at precision 12 with constants of at most `2^12` on operands below
/// `2^30` (the result then stays in `i32`).
pub(crate) fn hb(w0: i32, a: i32, w1: i32, b: i32) -> (r: i32)
    requires
        -4096 <= w0 <= 4096, -4096 <= w1 <= 4096,
        -0x3fff_ffff <= a <= 0x3fff_ffff, -0x3fff_ffff <= b <= 0x3fff_ffff,
    ensures
        r == btf(w0 as int, a as int, w1 as int, b as int),
        r * 4096 <= w0 * a + w1 * b + 2048 < r * 4096 + 4096,
{
    proof {
        reveal(btf);
        vstd::arithmetic::power2::lemma2_to64();
        assert(-0x3ff_ffff_f000 <= w0 * a <= 0x3ff_ffff_f000) by (nonlinear_arith)
            requires -4096 <= w0 <= 4096, -0x3fff_ffff <= a <= 0x3fff_ffff;
        assert(-0x3ff_ffff_f000 <= w1 * b <= 0x3ff_ffff_f000) by (nonlinear_arith)
            requires -4096 <= w1 <= 4096, -0x3fff_ffff <= b <= 0x3fff_ffff;
        vstd::arithmetic::div_mod::lemma_fundamental_div_mod(w0 * a + w1 * b + 2048, 4096);
    }
    half_btf(w0, a, w1, b, 12)
}


/// Largest input magnitude accepted by the 1D forward transforms (`2^24`): the largest
/// power of two for which the proved output bound of the 16-point DCT (81 times the
/// input bound, plus 90) stays inside `i32`.
pub const TXFM_INPUT_MAX: i32 = 16777216;

/// The entries of `x` as integers.
pub open spec fn ints(x: Seq<i32>) -> Seq<int> {
    x.map(|i: int, v: i32| v as int)
}

/// The first `n` entries of `x` lie in `[-b, b]`.
pub open spec fn bounded(x: Seq<i32>, n: nat, b: int) -> bool {
    &&& n <= x.len()
    &&& forall|i: int| 0 <= i < n ==> -b <= #[trigger] x[i] <= b
}

/// The first `n` entries of `x` lie in `[-b, b]`.
pub open spec fn bounded_int(x: Seq<int>, n: nat, b: int) -> bool {
    &&& n <= x.len()
    &&& forall|i: int| 0 <= i < n ==> -b <= #[trigger] x[i] <= b
}

/// A half butterfly of operands bounded by `ba` and `bb` is bounded by `ba + bb + 1`.
pub proof fn lemma_btf_bound(w0: int, a: int, w1: int, b: int, ba: int, bb: int)
    requires
        -4096 <= w0 <= 4096, -4096 <= w1 <= 4096,
        -ba <= a <= ba, -bb <= b <= bb,
    ensures -(ba + bb + 1) <= btf(w0, a, w1, b) <= ba + bb + 1,
{
    reveal(btf);
    assert(-4096 * ba <= w0 * a <= 4096 * ba) by (nonlinear_arith)
        requires -4096 <= w0 <= 4096, -ba <= a <= ba;
    assert(-4096 * bb <= w1 * b <= 4096 * bb) by (nonlinear_arith)
        requires -4096 <= w1 <= 4096, -bb <= b <= bb;
    vstd::arithmetic::div_mod::lemma_fundamental_div_mod(w0 * a + w1 * b + 2048, 4096);
}

/// 4-point forward DCT.
pub open spec fn spec_fdct4(x: Seq<i32>) -> Seq<int> {
    let x0 = x[0] as int;
    let x1 = x[1] as int;
    let x2 = x[2] as int;
    let x3 = x[3] as int;
    let b0 = x0 + x3;
    let b1 = x1 + x2;
    let b2 = -x2 + x1;
    let b3 = -x3 + x0;
    let y0 = btf(2896, b0, 2896, b1);
    let y1 = btf(1567, b2, 3784, b3);
    let y2 = btf(-2896, b1, 2896, b0);
    let y3 = btf(1567, b3, -3784, b2);
    seq![y0, y1, y2, y3]
}

/// 4-point forward DCT.
pub fn fdct4(input: &[i32], output: &mut [i32])
    requires
        input@.len() >= 4,
        old(output)@.len() >= 4,
        bounded(input@, 4, TXFM_INPUT_MAX as int),
    ensures
        final(output)@.len() == old(output)@.len(),
        forall|i: int| 0 <= i < 4 ==> final(output)@[i] == #[trigger] spec_fdct4(input@)[i],
        forall|i: int| 4 <= i < old(output)@.len() ==> final(output)@[i] == old(output)@[i],
{
    let x0: i32 = input[0];
    let x1: i32 = input[1];
    let x2: i32 = input[2];
    let x3: i32 = input[3];
    proof {
        assert(-TXFM_INPUT_MAX <= x0 <= TXFM_INPUT_MAX);
        assert(-TXFM_INPUT_MAX <= x1 <= TXFM_INPUT_MAX);
        assert(-TXFM_INPUT_MAX <= x2 <= TXFM_INPUT_MAX);
        assert(-TXFM_INPUT_MAX <= x3 <= TXFM_INPUT_MAX);
    }
    let b0: i32 = x0 + x3;
    assert(-2 * TXFM_INPUT_MAX - 2 <= b0 <= 2 * TXFM_INPUT_MAX + 2);
    let b1: i32 = x1 + x2;
    assert(-2 * TXFM_INPUT_MAX - 2 <= b1 <= 2 * TXFM_INPUT_MAX + 2);
    let b2: i32 = -x2 + x1;
    assert(-2 * TXFM_INPUT_MAX - 2 <= b2 <= 2 * TXFM_INPUT_MAX + 2);
    let b3: i32 = -x3 + x0;
    assert(-2 * TXFM_INPUT_MAX - 2 <= b3 <= 2 * TXFM_INPUT_MAX + 2);
    let y0: i32 = hb(2896, b0, 2896, b1);
    assert(-5 * TXFM_INPUT_MAX - 5 <= y0 <= 5 * TXFM_INPUT_MAX + 5);
    let y1: i32 = hb(1567, b2, 3784, b3);
    assert(-5 * TXFM_INPUT_MAX - 5 <= y1 <= 5 * TXFM_INPUT_MAX + 5);
    let y2: i32 = hb(-2896, b1, 2896, b0);
    assert(-5 * TXFM_INPUT_MAX - 5 <= y2 <= 5 * TXFM_INPUT_MAX + 5);
    let y3: i32 = hb(1567, b3, -3784, b2);
    assert(-5 * TXFM_INPUT_MAX - 5 <= y3 <= 5 * TXFM_INPUT_MAX + 5);
    output[0] = y0;
    output[1] = y1;
    output[2] = y2;
    output[3] = y3;
}

/// Each output of [`spec_fdct4`] is at most 5 times the input bound, plus 5.
pub proof fn lemma_fdct4_gain(x: Seq<i32>, b: int)
    requires b >= 0, bounded(x, 4, b),
    ensures bounded_int(spec_fdct4(x), 4, 5 * b + 5),
{
    let x0 = x[0] as int;
    assert(-b <= x0 <= b);
    let x1 = x[1] as int;
    assert(-b <= x1 <= b);
    let x2 = x[2] as int;
    assert(-b <= x2 <= b);
    let x3 = x[3] as int;
    assert(-b <= x3 <= b);
    let b0 = x0 + x3;
    assert(-2 * b - 2 <= b0 <= 2 * b + 2);
    let b1 = x1 + x2;
    assert(-2 * b - 2 <= b1 <= 2 * b + 2);
    let b2 = -x2 + x1;
    assert(-2 * b - 2 <= b2 <= 2 * b + 2);
    let b3 = -x3 + x0;
    assert(-2 * b - 2 <= b3 <= 2 * b + 2);
    lemma_btf_bound(2896, b0, 2896, b1, 2 * b + 2, 2 * b + 2);
    let y0 = btf(2896, b0, 2896, b1);
    assert(-5 * b - 5 <= y0 <= 5 * b + 5);
    lemma_btf_bound(1567, b2, 3784, b3, 2 * b + 2, 2 * b + 2);
    let y1 = btf(1567, b2, 3784, b3);
    assert(-5 * b - 5 <= y1 <= 5 * b + 5);
    lemma_btf_bound(-2896, b1, 2896, b0, 2 * b + 2, 2 * b + 2);
    let y2 = btf(-2896, b1, 2896, b0);
    assert(-5 * b - 5 <= y2 <= 5 * b + 5);
    lemma_btf_bound(1567, b3, -3784, b2, 2 * b + 2, 2 * b + 2);
    let y3 = btf(1567, b3, -3784, b2);
    assert(-5 * b - 5 <= y3 <= 5 * b + 5);
    assert(bounded_int(spec_fdct4(x), 4, 5 * b + 5));
}

/// 8-point forward DCT.
pub open spec fn spec_fdct8(x: Seq<i32>) -> Seq<int> {
    let x0 = x[0] as int;
    let x1 = x[1] as int;
    let x2 = x[2] as int;
    let x3 = x[3] as int;
    let x4 = x[4] as int;
    let x5 = x[5] as int;
    let x6 = x[6] as int;
    let x7 = x[7] as int;
    let a0 = x0 + x7;
    let a1 = x1 + x6;
    let a2 = x2 + x5;
    let a3 = x3 + x4;
    let a4 = -x4 + x3;
    let a5 = -x5 + x2;
    let a6 = -x6 + x1;
    let a7 = -x7 + x0;
    let b0 = a0 + a3;
    let b1 = a1 + a2;
    let b2 = -a2 + a1;
    let b3 = -a3 + a0;
    let b5 = btf(-2896, a5, 2896, a6);
    let b6 = btf(2896, a6, 2896, a5);
    let c0 = btf(2896, b0, 2896, b1);
    let c1 = btf(-2896, b1, 2896, b0);
    let c2 = btf(1567, b2, 3784, b3);
    let c3 = btf(1567, b3, -3784, b2);
    let c4 = a4 + b5;
    let c5 = -b5 + a4;
    let c6 = -b6 + a7;
    let c7 = a7 + b6;
    let d4 = btf(799, c4, 4017, c7);
    let d5 = btf(3406, c5, 2276, c6);
    let d6 = btf(3406, c6, -2276, c5);
    let d7 = btf(799, c7, -4017, c4);
    seq![c0, d4, c2, d6, c1, d5, c3, d7]
}

/// 8-point forward DCT.
pub fn fdct8(input: &[i32], output: &mut [i32])
    requires
        input@.len() >= 8,
        old(output)@.len() >= 8,
        bounded(input@, 8, TXFM_INPUT_MAX as int),
    ensures
        final(output)@.len() == old(output)@.len(),
        forall|i: int| 0 <= i < 8 ==> final(output)@[i] == #[trigger] spec_fdct8(input@)[i],
        forall|i: int| 8 <= i < old(output)@.len() ==> final(output)@[i] == old(output)@[i],
{
    let x0: i32 = input[0];
    let x1: i32 = input[1];
    let x2: i32 = input[2];
    let x3: i32 = input[3];
    let x4: i32 = input[4];
    let x5: i32 = input[5];
    let x6: i32 = input[6];
    let x7: i32 = input[7];
    proof {
        assert(-TXFM_INPUT_MAX <= x0 <= TXFM_INPUT_MAX);
        assert(-TXFM_INPUT_MAX <= x1 <= TXFM_INPUT_MAX);
        assert(-TXFM_INPUT_MAX <= x2 <= TXFM_INPUT_MAX);
        assert(-TXFM_INPUT_MAX <= x3 <= TXFM_INPUT_MAX);
        assert(-TXFM_INPUT_MAX <= x4 <= TXFM_INPUT_MAX);
        assert(-TXFM_INPUT_MAX <= x5 <= TXFM_INPUT_MAX);
        assert(-TXFM_INPUT_MAX <= x6 <= TXFM_INPUT_MAX);
        assert(-TXFM_INPUT_MAX <= x7 <= TXFM_INPUT_MAX);
    }
    let a0: i32 = x0 + x7;
    assert(-2 * TXFM_INPUT_MAX - 2 <= a0 <= 2 * TXFM_INPUT_MAX + 2);
    let a1: i32 = x1 + x6;
    assert(-2 * TXFM_INPUT_MAX - 2 <= a1 <= 2 * TXFM_INPUT_MAX + 2);
    let a2: i32 = x2 + x5;
    assert(-2 * TXFM_INPUT_MAX - 2 <= a2 <= 2 * TXFM_INPUT_MAX + 2);
    let a3: i32 = x3 + x4;
    assert(-2 * TXFM_INPUT_MAX - 2 <= a3 <= 2 * TXFM_INPUT_MAX + 2);
    let a4: i32 = -x4 + x3;
    assert(-2 * TXFM_INPUT_MAX - 2 <= a4 <= 2 * TXFM_INPUT_MAX + 2);
    let a5: i32 = -x5 + x2;
    assert(-2 * TXFM_INPUT_MAX - 2 <= a5 <= 2 * TXFM_INPUT_MAX + 2);
    let a6: i32 = -x6 + x1;
    assert(-2 * TXFM_INPUT_MAX - 2 <= a6 <= 2 * TXFM_INPUT_MAX + 2);
    let a7: i32 = -x7 + x0;
    assert(-2 * TXFM_INPUT_MAX - 2 <= a7 <= 2 * TXFM_INPUT_MAX + 2);
    let b0: i32 = a0 + a3;
    assert(-4 * TXFM_INPUT_MAX - 4 <= b0 <= 4 * TXFM_INPUT_MAX + 4);
    let b1: i32 = a1 + a2;
    assert(-4 * TXFM_INPUT_MAX - 4 <= b1 <= 4 * TXFM_INPUT_MAX + 4);
    let b2: i32 = -a2 + a1;
    assert(-4 * TXFM_INPUT_MAX - 4 <= b2 <= 4 * TXFM_INPUT_MAX + 4);
    let b3: i32 = -a3 + a0;
    assert(-4 * TXFM_INPUT_MAX - 4 <= b3 <= 4 * TXFM_INPUT_MAX + 4);
    let b5: i32 = hb(-2896, a5, 2896, a6);
    assert(-5 * TXFM_INPUT_MAX - 5 <= b5 <= 5 * TXFM_INPUT_MAX + 5);
    let b6: i32 = hb(2896, a6, 2896, a5);
    assert(-5 * TXFM_INPUT_MAX - 5 <= b6 <= 5 * TXFM_INPUT_MAX + 5);
    let c0: i32 = hb(2896, b0, 2896, b1);
    assert(-9 * TXFM_INPUT_MAX - 9 <= c0 <= 9 * TXFM_INPUT_MAX + 9);
    let c1: i32 = hb(-2896, b1, 2896, b0);
    assert(-9 * TXFM_INPUT_MAX - 9 <= c1 <= 9 * TXFM_INPUT_MAX + 9);
    let c2: i32 = hb(1567, b2, 3784, b3);
    assert(-9 * TXFM_INPUT_MAX - 9 <= c2 <= 9 * TXFM_INPUT_MAX + 9);
    let c3: i32 = hb(1567, b3, -3784, b2);
    assert(-9 * TXFM_INPUT_MAX - 9 <= c3 <= 9 * TXFM_INPUT_MAX + 9);
    let c4: i32 = a4 + b5;
    assert(-7 * TXFM_INPUT_MAX - 7 <= c4 <= 7 * TXFM_INPUT_MAX + 7);
    let c5: i32 = -b5 + a4;
    assert(-7 * TXFM_INPUT_MAX - 7 <= c5 <= 7 * TXFM_INPUT_MAX + 7);
    let c6: i32 = -b6 + a7;
    assert(-7 * TXFM_INPUT_MAX - 7 <= c6 <= 7 * TXFM_INPUT_MAX + 7);
    let c7: i32 = a7 + b6;
    assert(-7 * TXFM_INPUT_MAX - 7 <= c7 <= 7 * TXFM_INPUT_MAX + 7);
    let d4: i32 = hb(799, c4, 4017, c7);
    assert(-15 * TXFM_INPUT_MAX - 15 <= d4 <= 15 * TXFM_INPUT_MAX + 15);
    let d5: i32 = hb(3406, c5, 2276, c6);
    assert(-15 * TXFM_INPUT_MAX - 15 <= d5 <= 15 * TXFM_INPUT_MAX + 15);
    let d6: i32 = hb(3406, c6, -2276, c5);
    assert(-15 * TXFM_INPUT_MAX - 15 <= d6 <= 15 * TXFM_INPUT_MAX + 15);
    let d7: i32 = hb(799, c7, -4017, c4);
    assert(-15 * TXFM_INPUT_MAX - 15 <= d7 <= 15 * TXFM_INPUT_MAX + 15);
    output[0] = c0;
    output[1] = d4;
    output[2] = c2;
    output[3] = d6;
    output[4] = c1;
    output[5] = d5;
    output[6] = c3;
    output[7] = d7;
}

/// Each output of [`spec_fdct8`] is at most 15 times the input bound, plus 15.
pub proof fn lemma_fdct8_gain(x: Seq<i32>, b: int)
    requires b >= 0, bounded(x, 8, b),
    ensures bounded_int(spec_fdct8(x), 8, 15 * b + 15),
{
    let x0 = x[0] as int;
    assert(-b <= x0 <= b);
    let x1 = x[1] as int;
    assert(-b <= x1 <= b);
    let x2 = x[2] as int;
    assert(-b <= x2 <= b);
    let x3 = x[3] as int;
    assert(-b <= x3 <= b);
    let x4 = x[4] as int;
    assert(-b <= x4 <= b);
    let x5 = x[5] as int;
    assert(-b <= x5 <= b);
    let x6 = x[6] as int;
    assert(-b <= x6 <= b);
    let x7 = x[7] as int;
    assert(-b <= x7 <= b);
    let a0 = x0 + x7;
    assert(-2 * b - 2 <= a0 <= 2 * b + 2);
    let a1 = x1 + x6;
    assert(-2 * b - 2 <= a1 <= 2 * b + 2);
    let a2 = x2 + x5;
    assert(-2 * b - 2 <= a2 <= 2 * b + 2);
    let a3 = x3 + x4;
    assert(-2 * b - 2 <= a3 <= 2 * b + 2);
    let a4 = -x4 + x3;
    assert(-2 * b - 2 <= a4 <= 2 * b + 2);
    let a5 = -x5 + x2;
    assert(-2 * b - 2 <= a5 <= 2 * b + 2);
    let a6 = -x6 + x1;
    assert(-2 * b - 2 <= a6 <= 2 * b + 2);
    let a7 = -x7 + x0;
    assert(-2 * b - 2 <= a7 <= 2 * b + 2);
    let b0 = a0 + a3;
    assert(-4 * b - 4 <= b0 <= 4 * b + 4);
    let b1 = a1 + a2;
    assert(-4 * b - 4 <= b1 <= 4 * b + 4);
    let b2 = -a2 + a1;
    assert(-4 * b - 4 <= b2 <= 4 * b + 4);
    let b3 = -a3 + a0;
    assert(-4 * b - 4 <= b3 <= 4 * b + 4);
    lemma_btf_bound(-2896, a5, 2896, a6, 2 * b + 2, 2 * b + 2);
    let b5 = btf(-2896, a5, 2896, a6);
    assert(-5 * b - 5 <= b5 <= 5 * b + 5);
    lemma_btf_bound(2896, a6, 2896, a5, 2 * b + 2, 2 * b + 2);
    let b6 = btf(2896, a6, 2896, a5);
    assert(-5 * b - 5 <= b6 <= 5 * b + 5);
    lemma_btf_bound(2896, b0, 2896, b1, 4 * b + 4, 4 * b + 4);
    let c0 = btf(2896, b0, 2896, b1);
    assert(-9 * b - 9 <= c0 <= 9 * b + 9);
    lemma_btf_bound(-2896, b1, 2896, b0, 4 * b + 4, 4 * b + 4);
    let c1 = btf(-2896, b1, 2896, b0);
    assert(-9 * b - 9 <= c1 <= 9 * b + 9);
    lemma_btf_bound(1567, b2, 3784, b3, 4 * b + 4, 4 * b + 4);
    let c2 = btf(1567, b2, 3784, b3);
    assert(-9 * b - 9 <= c2 <= 9 * b + 9);
    lemma_btf_bound(1567, b3, -3784, b2, 4 * b + 4, 4 * b + 4);
    let c3 = btf(1567, b3, -3784, b2);
    assert(-9 * b - 9 <= c3 <= 9 * b + 9);
    let c4 = a4 + b5;
    assert(-7 * b - 7 <= c4 <= 7 * b + 7);
    let c5 = -b5 + a4;
    assert(-7 * b - 7 <= c5 <= 7 * b + 7);
    let c6 = -b6 + a7;
    assert(-7 * b - 7 <= c6 <= 7 * b + 7);
    let c7 = a7 + b6;
    assert(-7 * b - 7 <= c7 <= 7 * b + 7);
    lemma_btf_bound(799, c4, 4017, c7, 7 * b + 7, 7 * b + 7);
    let d4 = btf(799, c4, 4017, c7);
    assert(-15 * b - 15 <= d4 <= 15 * b + 15);
    lemma_btf_bound(3406, c5, 2276, c6, 7 * b + 7, 7 * b + 7);
    let d5 = btf(3406, c5, 2276, c6);
    assert(-15 * b - 15 <= d5 <= 15 * b + 15);
    lemma_btf_bound(3406, c6, -2276, c5, 7 * b + 7, 7 * b + 7);
    let d6 = btf(3406, c6, -2276, c5);
    assert(-15 * b - 15 <= d6 <= 15 * b + 15);
    lemma_btf_bound(799, c7, -4017, c4, 7 * b + 7, 7 * b + 7);
    let d7 = btf(799, c7, -4017, c4);
    assert(-15 * b - 15 <= d7 <= 15 * b + 15);
    assert(bounded_int(spec_fdct8(x), 8, 15 * b + 15));
}

/// 8-point forward ADST.
pub open spec fn spec_fadst8(x: Seq<i32>) -> Seq<int> {
    let x0 = x[0] as int;
    let x1 = x[1] as int;
    let x2 = x[2] as int;
    let x3 = x[3] as int;
    let x4 = x[4] as int;
    let x5 = x[5] as int;
    let x6 = x[6] as int;
    let x7 = x[7] as int;
    let a0 = x0;
    let a1 = -x7;
    let a2 = -x3;
    let a3 = x4;
    let a4 = -x1;
    let a5 = x6;
    let a6 = x2;
    let a7 = -x5;
    let b2 = btf(2896, a2, 2896, a3);
    let b3 = btf(2896, a2, -2896, a3);
    let b6 = btf(2896, a6, 2896, a7);
    let b7 = btf(2896, a6, -2896, a7);
    let c0 = a0 + b2;
    let c1 = a1 + b3;
    let c2 = a0 - b2;
    let c3 = a1 - b3;
    let c4 = a4 + b6;
    let c5 = a5 + b7;
    let c6 = a4 - b6;
    let c7 = a5 - b7;
    let d4 = btf(3784, c4, 1567, c5);
    let d5 = btf(1567, c4, -3784, c5);
    let d6 = btf(-1567, c6, 3784, c7);
    let d7 = btf(3784, c6, 1567, c7);
    let e0 = c0 + d4;
    let e1 = c1 + d5;
    let e2 = c2 + d6;
    let e3 = c3 + d7;
    let e4 = c0 - d4;
    let e5 = c1 - d5;
    let e6 = c2 - d6;
    let e7 = c3 - d7;
    let f0 = btf(4076, e0, 401, e1);
    let f1 = btf(401, e0, -4076, e1);
    let f2 = btf(3612, e2, 1931, e3);
    let f3 = btf(1931, e2, -3612, e3);
    let f4 = btf(2598, e4, 3166, e5);
    let f5 = btf(3166, e4, -2598, e5);
    let f6 = btf(1189, e6, 3920, e7);
    let f7 = btf(3920, e6, -1189, e7);
    let g1 = -f4;
    let g3 = -f2;
    let g5 = -f7;
    let g7 = -f1;
    seq![f0, g1, f6, g3, f3, g5, f5, g7]
}

/// 8-point forward ADST.
#[verifier::rlimit(100)]
pub fn fadst8(input: &[i32], output: &mut [i32])
    requires
        input@.len() >= 8,
        old(output)@.len() >= 8,
        bounded(input@, 8, TXFM_INPUT_MAX as int),
    ensures
        final(output)@.len() == old(output)@.len(),
        forall|i: int| 0 <= i < 8 ==> final(output)@[i] == #[trigger] spec_fadst8(input@)[i],
        forall|i: int| 8 <= i < old(output)@.len() ==> final(output)@[i] == old(output)@[i],
{
    let x0: i32 = input[0];
    let x1: i32 = input[1];
    let x2: i32 = input[2];
    let x3: i32 = input[3];
    let x4: i32 = input[4];
    let x5: i32 = input[5];
    let x6: i32 = input[6];
    let x7: i32 = input[7];
    proof {
        assert(-TXFM_INPUT_MAX <= x0 <= TXFM_INPUT_MAX);
        assert(-TXFM_INPUT_MAX <= x1 <= TXFM_INPUT_MAX);
        assert(-TXFM_INPUT_MAX <= x2 <= TXFM_INPUT_MAX);
        assert(-TXFM_INPUT_MAX <= x3 <= TXFM_INPUT_MAX);
        assert(-TXFM_INPUT_MAX <= x4 <= TXFM_INPUT_MAX);
        assert(-TXFM_INPUT_MAX <= x5 <= TXFM_INPUT_MAX);
        assert(-TXFM_INPUT_MAX <= x6 <= TXFM_INPUT_MAX);
        assert(-TXFM_INPUT_MAX <= x7 <= TXFM_INPUT_MAX);
    }
    let a0: i32 = x0;
    assert(-1 * TXFM_INPUT_MAX - 1 <= a0 <= 1 * TXFM_INPUT_MAX + 1);
    let a1: i32 = -x7;
    assert(-1 * TXFM_INPUT_MAX - 1 <= a1 <= 1 * TXFM_INPUT_MAX + 1);
    let a2: i32 = -x3;
    assert(-1 * TXFM_INPUT_MAX - 1 <= a2 <= 1 * TXFM_INPUT_MAX + 1);
    let a3: i32 = x4;
    assert(-1 * TXFM_INPUT_MAX - 1 <= a3 <= 1 * TXFM_INPUT_MAX + 1);
    let a4: i32 = -x1;
    assert(-1 * TXFM_INPUT_MAX - 1 <= a4 <= 1 * TXFM_INPUT_MAX + 1);
    let a5: i32 = x6;
    assert(-1 * TXFM_INPUT_MAX - 1 <= a5 <= 1 * TXFM_INPUT_MAX + 1);
    let a6: i32 = x2;
    assert(-1 * TXFM_INPUT_MAX - 1 <= a6 <= 1 * TXFM_INPUT_MAX + 1);
    let a7: i32 = -x5;
    assert(-1 * TXFM_INPUT_MAX - 1 <= a7 <= 1 * TXFM_INPUT_MAX + 1);
    let b2: i32 = hb(2896, a2, 2896, a3);
    assert(-3 * TXFM_INPUT_MAX - 3 <= b2 <= 3 * TXFM_INPUT_MAX + 3);
    let b3: i32 = hb(2896, a2, -2896, a3);
    assert(-3 * TXFM_INPUT_MAX - 3 <= b3 <= 3 * TXFM_INPUT_MAX + 3);
    let b6: i32 = hb(2896, a6, 2896, a7);
    assert(-3 * TXFM_INPUT_MAX - 3 <= b6 <= 3 * TXFM_INPUT_MAX + 3);
    let b7: i32 = hb(2896, a6, -2896, a7);
    assert(-3 * TXFM_INPUT_MAX - 3 <= b7 <= 3 * TXFM_INPUT_MAX + 3);
    let c0: i32 = a0 + b2;
    assert(-4 * TXFM_INPUT_MAX - 4 <= c0 <= 4 * TXFM_INPUT_MAX + 4);
    let c1: i32 = a1 + b3;
    assert(-4 * TXFM_INPUT_MAX - 4 <= c1 <= 4 * TXFM_INPUT_MAX + 4);
    let c2: i32 = a0 - b2;
    assert(-4 * TXFM_INPUT_MAX - 4 <= c2 <= 4 * TXFM_INPUT_MAX + 4);
    let c3: i32 = a1 - b3;
    assert(-4 * TXFM_INPUT_MAX - 4 <= c3 <= 4 * TXFM_INPUT_MAX + 4);
    let c4: i32 = a4 + b6;
    assert(-4 * TXFM_INPUT_MAX - 4 <= c4 <= 4 * TXFM_INPUT_MAX + 4);
    let c5: i32 = a5 + b7;
    assert(-4 * TXFM_INPUT_MAX - 4 <= c5 <= 4 * TXFM_INPUT_MAX + 4);
    let c6: i32 = a4 - b6;
    assert(-4 * TXFM_INPUT_MAX - 4 <= c6 <= 4 * TXFM_INPUT_MAX + 4);
    let c7: i32 = a5 - b7;
    assert(-4 * TXFM_INPUT_MAX - 4 <= c7 <= 4 * TXFM_INPUT_MAX + 4);
    let d4: i32 = hb(3784, c4, 1567, c5);
    assert(-9 * TXFM_INPUT_MAX - 9 <= d4 <= 9 * TXFM_INPUT_MAX + 9);
    let d5: i32 = hb(1567, c4, -3784, c5);
    assert(-9 * TXFM_INPUT_MAX - 9 <= d5 <= 9 * TXFM_INPUT_MAX + 9);
    let d6: i32 = hb(-1567, c6, 3784, c7);
    assert(-9 * TXFM_INPUT_MAX - 9 <= d6 <= 9 * TXFM_INPUT_MAX + 9);
    let d7: i32 = hb(3784, c6, 1567, c7);
    assert(-9 * TXFM_INPUT_MAX - 9 <= d7 <= 9 * TXFM_INPUT_MAX + 9);
    let e0: i32 = c0 + d4;
    assert(-13 * TXFM_INPUT_MAX - 13 <= e0 <= 13 * TXFM_INPUT_MAX + 13);
    let e1: i32 = c1 + d5;
    assert(-13 * TXFM_INPUT_MAX - 13 <= e1 <= 13 * TXFM_INPUT_MAX + 13);
    let e2: i32 = c2 + d6;
    assert(-13 * TXFM_INPUT_MAX - 13 <= e2 <= 13 * TXFM_INPUT_MAX + 13);
    let e3: i32 = c3 + d7;
    assert(-13 * TXFM_INPUT_MAX - 13 <= e3 <= 13 * TXFM_INPUT_MAX + 13);
    let e4: i32 = c0 - d4;
    assert(-13 * TXFM_INPUT_MAX - 13 <= e4 <= 13 * TXFM_INPUT_MAX + 13);
    let e5: i32 = c1 - d5;
    assert(-13 * TXFM_INPUT_MAX - 13 <= e5 <= 13 * TXFM_INPUT_MAX + 13);
    let e6: i32 = c2 - d6;
    assert(-13 * TXFM_INPUT_MAX - 13 <= e6 <= 13 * TXFM_INPUT_MAX + 13);
    let e7: i32 = c3 - d7;
    assert(-13 * TXFM_INPUT_MAX - 13 <= e7 <= 13 * TXFM_INPUT_MAX + 13);
    let f0: i32 = hb(4076, e0, 401, e1);
    assert(-27 * TXFM_INPUT_MAX - 27 <= f0 <= 27 * TXFM_INPUT_MAX + 27);
    let f1: i32 = hb(401, e0, -4076, e1);
    assert(-27 * TXFM_INPUT_MAX - 27 <= f1 <= 27 * TXFM_INPUT_MAX + 27);
    let f2: i32 = hb(3612, e2, 1931, e3);
    assert(-27 * TXFM_INPUT_MAX - 27 <= f2 <= 27 * TXFM_INPUT_MAX + 27);
    let f3: i32 = hb(1931, e2, -3612, e3);
    assert(-27 * TXFM_INPUT_MAX - 27 <= f3 <= 27 * TXFM_INPUT_MAX + 27);
    let f4: i32 = hb(2598, e4, 3166, e5);
    assert(-27 * TXFM_INPUT_MAX - 27 <= f4 <= 27 * TXFM_INPUT_MAX + 27);
    let f5: i32 = hb(3166, e4, -2598, e5);
    assert(-27 * TXFM_INPUT_MAX - 27 <= f5 <= 27 * TXFM_INPUT_MAX + 27);
    let f6: i32 = hb(1189, e6, 3920, e7);
    assert(-27 * TXFM_INPUT_MAX - 27 <= f6 <= 27 * TXFM_INPUT_MAX + 27);
    let f7: i32 = hb(3920, e6, -1189, e7);
    assert(-27 * TXFM_INPUT_MAX - 27 <= f7 <= 27 * TXFM_INPUT_MAX + 27);
    let g1: i32 = -f4;
    assert(-27 * TXFM_INPUT_MAX - 27 <= g1 <= 27 * TXFM_INPUT_MAX + 27);
    let g3: i32 = -f2;
    assert(-27 * TXFM_INPUT_MAX - 27 <= g3 <= 27 * TXFM_INPUT_MAX + 27);
    let g5: i32 = -f7;
    assert(-27 * TXFM_INPUT_MAX - 27 <= g5 <= 27 * TXFM_INPUT_MAX + 27);
    let g7: i32 = -f1;
    assert(-27 * TXFM_INPUT_MAX - 27 <= g7 <= 27 * TXFM_INPUT_MAX + 27);
    output[0] = f0;
    output[1] = g1;
    output[2] = f6;
    output[3] = g3;
    output[4] = f3;
    output[5] = g5;
    output[6] = f5;
    output[7] = g7;
}

/// Each output of [`spec_fadst8`] is at most 27 times the input bound, plus 27.
#[verifier::rlimit(100)]
pub proof fn lemma_fadst8_gain(x: Seq<i32>, b: int)
    requires b >= 0, bounded(x, 8, b),
    ensures bounded_int(spec_fadst8(x), 8, 27 * b + 27),
{
    let x0 = x[0] as int;
    assert(-b <= x0 <= b);
    let x1 = x[1] as int;
    assert(-b <= x1 <= b);
    let x2 = x[2] as int;
    assert(-b <= x2 <= b);
    let x3 = x[3] as int;
    assert(-b <= x3 <= b);
    let x4 = x[4] as int;
    assert(-b <= x4 <= b);
    let x5 = x[5] as int;
    assert(-b <= x5 <= b);
    let x6 = x[6] as int;
    assert(-b <= x6 <= b);
    let x7 = x[7] as int;
    assert(-b <= x7 <= b);
    let a0 = x0;
    assert(-1 * b - 1 <= a0 <= 1 * b + 1);
    let a1 = -x7;
    assert(-1 * b - 1 <= a1 <= 1 * b + 1);
    let a2 = -x3;
    assert(-1 * b - 1 <= a2 <= 1 * b + 1);
    let a3 = x4;
    assert(-1 * b - 1 <= a3 <= 1 * b + 1);
    let a4 = -x1;
    assert(-1 * b - 1 <= a4 <= 1 * b + 1);
    let a5 = x6;
    assert(-1 * b - 1 <= a5 <= 1 * b + 1);
    let a6 = x2;
    assert(-1 * b - 1 <= a6 <= 1 * b + 1);
    let a7 = -x5;
    assert(-1 * b - 1 <= a7 <= 1 * b + 1);
    lemma_btf_bound(2896, a2, 2896, a3, 1 * b + 1, 1 * b + 1);
    let b2 = btf(2896, a2, 2896, a3);
    assert(-3 * b - 3 <= b2 <= 3 * b + 3);
    lemma_btf_bound(2896, a2, -2896, a3, 1 * b + 1, 1 * b + 1);
    let b3 = btf(2896, a2, -2896, a3);
    assert(-3 * b - 3 <= b3 <= 3 * b + 3);
    lemma_btf_bound(2896, a6, 2896, a7, 1 * b + 1, 1 * b + 1);
    let b6 = btf(2896, a6, 2896, a7);
    assert(-3 * b - 3 <= b6 <= 3 * b + 3);
    lemma_btf_bound(2896, a6, -2896, a7, 1 * b + 1, 1 * b + 1);
    let b7 = btf(2896, a6, -2896, a7);
    assert(-3 * b - 3 <= b7 <= 3 * b + 3);
    let c0 = a0 + b2;
    assert(-4 * b - 4 <= c0 <= 4 * b + 4);
    let c1 = a1 + b3;
    assert(-4 * b - 4 <= c1 <= 4 * b + 4);
    let c2 = a0 - b2;
    assert(-4 * b - 4 <= c2 <= 4 * b + 4);
    let c3 = a1 - b3;
    assert(-4 * b - 4 <= c3 <= 4 * b + 4);
    let c4 = a4 + b6;
    assert(-4 * b - 4 <= c4 <= 4 * b + 4);
    let c5 = a5 + b7;
    assert(-4 * b - 4 <= c5 <= 4 * b + 4);
    let c6 = a4 - b6;
    assert(-4 * b - 4 <= c6 <= 4 * b + 4);
    let c7 = a5 - b7;
    assert(-4 * b - 4 <= c7 <= 4 * b + 4);
    lemma_btf_bound(3784, c4, 1567, c5, 4 * b + 4, 4 * b + 4);
    let d4 = btf(3784, c4, 1567, c5);
    assert(-9 * b - 9 <= d4 <= 9 * b + 9);
    lemma_btf_bound(1567, c4, -3784, c5, 4 * b + 4, 4 * b + 4);
    let d5 = btf(1567, c4, -3784, c5);
    assert(-9 * b - 9 <= d5 <= 9 * b + 9);
    lemma_btf_bound(-1567, c6, 3784, c7, 4 * b + 4, 4 * b + 4);
    let d6 = btf(-1567, c6, 3784, c7);
    assert(-9 * b - 9 <= d6 <= 9 * b + 9);
    lemma_btf_bound(3784, c6, 1567, c7, 4 * b + 4, 4 * b + 4);
    let d7 = btf(3784, c6, 1567, c7);
    assert(-9 * b - 9 <= d7 <= 9 * b + 9);
    let e0 = c0 + d4;
    assert(-13 * b - 13 <= e0 <= 13 * b + 13);
    let e1 = c1 + d5;
    assert(-13 * b - 13 <= e1 <= 13 * b + 13);
    let e2 = c2 + d6;
    assert(-13 * b - 13 <= e2 <= 13 * b + 13);
    let e3 = c3 + d7;
    assert(-13 * b - 13 <= e3 <= 13 * b + 13);
    let e4 = c0 - d4;
    assert(-13 * b - 13 <= e4 <= 13 * b + 13);
    let e5 = c1 - d5;
    assert(-13 * b - 13 <= e5 <= 13 * b + 13);
    let e6 = c2 - d6;
    assert(-13 * b - 13 <= e6 <= 13 * b + 13);
    let e7 = c3 - d7;
    assert(-13 * b - 13 <= e7 <= 13 * b + 13);
    lemma_btf_bound(4076, e0, 401, e1, 13 * b + 13, 13 * b + 13);
    let f0 = btf(4076, e0, 401, e1);
    assert(-27 * b - 27 <= f0 <= 27 * b + 27);
    lemma_btf_bound(401, e0, -4076, e1, 13 * b + 13, 13 * b + 13);
    let f1 = btf(401, e0, -4076, e1);
    assert(-27 * b - 27 <= f1 <= 27 * b + 27);
    lemma_btf_bound(3612, e2, 1931, e3, 13 * b + 13, 13 * b + 13);
    let f2 = btf(3612, e2, 1931, e3);
    assert(-27 * b - 27 <= f2 <= 27 * b + 27);
    lemma_btf_bound(1931, e2, -3612, e3, 13 * b + 13, 13 * b + 13);
    let f3 = btf(1931, e2, -3612, e3);
    assert(-27 * b - 27 <= f3 <= 27 * b + 27);
    lemma_btf_bound(2598, e4, 3166, e5, 13 * b + 13, 13 * b + 13);
    let f4 = btf(2598, e4, 3166, e5);
    assert(-27 * b - 27 <= f4 <= 27 * b + 27);
    lemma_btf_bound(3166, e4, -2598, e5, 13 * b + 13, 13 * b + 13);
    let f5 = btf(3166, e4, -2598, e5);
    assert(-27 * b - 27 <= f5 <= 27 * b + 27);
    lemma_btf_bound(1189, e6, 3920, e7, 13 * b + 13, 13 * b + 13);
    let f6 = btf(1189, e6, 3920, e7);
    assert(-27 * b - 27 <= f6 <= 27 * b + 27);
    lemma_btf_bound(3920, e6, -1189, e7, 13 * b + 13, 13 * b + 13);
    let f7 = btf(3920, e6, -1189, e7);
    assert(-27 * b - 27 <= f7 <= 27 * b + 27);
    let g1 = -f4;
    assert(-27 * b - 27 <= g1 <= 27 * b + 27);
    let g3 = -f2;
    assert(-27 * b - 27 <= g3 <= 27 * b + 27);
    let g5 = -f7;
    assert(-27 * b - 27 <= g5 <= 27 * b + 27);
    let g7 = -f1;
    assert(-27 * b - 27 <= g7 <= 27 * b + 27);
    assert(bounded_int(spec_fadst8(x), 8, 27 * b + 27));
}

/// First three stages of the 16-point forward DCT.
pub open spec fn spec_fdct16_head(x: Seq<i32>) -> Seq<int> {
    let x0 = x[0] as int;
    let x1 = x[1] as int;
    let x2 = x[2] as int;
    let x3 = x[3] as int;
    let x4 = x[4] as int;
    let x5 = x[5] as int;
    let x6 = x[6] as int;
    let x7 = x[7] as int;
    let x8 = x[8] as int;
    let x9 = x[9] as int;
    let x10 = x[10] as int;
    let x11 = x[11] as int;
    let x12 = x[12] as int;
    let x13 = x[13] as int;
    let x14 = x[14] as int;
    let x15 = x[15] as int;
    let a0 = x0 + x15;
    let a1 = x1 + x14;
    let a2 = x2 + x13;
    let a3 = x3 + x12;
    let a4 = x4 + x11;
    let a5 = x5 + x10;
    let a6 = x6 + x9;
    let a7 = x7 + x8;
    let a15 = -x15 + x0;
    let a14 = -x14 + x1;
    let a13 = -x13 + x2;
    let a12 = -x12 + x3;
    let a11 = -x11 + x4;
    let a10 = -x10 + x5;
    let a9 = -x9 + x6;
    let a8 = -x8 + x7;
    let b0 = a0 + a7;
    let b1 = a1 + a6;
    let b2 = a2 + a5;
    let b3 = a3 + a4;
    let b4 = -a4 + a3;
    let b5 = -a5 + a2;
    let b6 = -a6 + a1;
    let b7 = -a7 + a0;
    let b10 = btf(-2896, a10, 2896, a13);
    let b11 = btf(-2896, a11, 2896, a12);
    let b12 = btf(2896, a12, 2896, a11);
    let b13 = btf(2896, a13, 2896, a10);
    let c0 = b0 + b3;
    let c1 = b1 + b2;
    let c2 = -b2 + b1;
    let c3 = -b3 + b0;
    let c5 = btf(-2896, b5, 2896, b6);
    let c6 = btf(2896, b6, 2896, b5);
    let c8 = a8 + b11;
    let c9 = a9 + b10;
    let c10 = -b10 + a9;
    let c11 = -b11 + a8;
    let c12 = -b12 + a15;
    let c13 = -b13 + a14;
    let c14 = a14 + b13;
    let c15 = a15 + b12;
    seq![c0, c1, c2, c3, b4, c5, c6, b7, c8, c9, c10, c11, c12, c13, c14, c15]
}

/// First three stages of the 16-point forward DCT.
#[verifier::rlimit(100)]
fn fdct16_head(input: &[i32], output: &mut [i32])
    requires
        input@.len() >= 16,
        old(output)@.len() >= 16,
        bounded(input@, 16, TXFM_INPUT_MAX as int),
    ensures
        final(output)@.len() == old(output)@.len(),
        forall|i: int| 0 <= i < 16 ==> final(output)@[i] == #[trigger] spec_fdct16_head(input@)[i],
        forall|i: int| 16 <= i < old(output)@.len() ==> final(output)@[i] == old(output)@[i],
{
    let x0: i32 = input[0];
    let x1: i32 = input[1];
    let x2: i32 = input[2];
    let x3: i32 = input[3];
    let x4: i32 = input[4];
    let x5: i32 = input[5];
    let x6: i32 = input[6];
    let x7: i32 = input[7];
    let x8: i32 = input[8];
    let x9: i32 = input[9];
    let x10: i32 = input[10];
    let x11: i32 = input[11];
    let x12: i32 = input[12];
    let x13: i32 = input[13];
    let x14: i32 = input[14];
    let x15: i32 = input[15];
    proof {
        assert(-TXFM_INPUT_MAX <= x0 <= TXFM_INPUT_MAX);
        assert(-TXFM_INPUT_MAX <= x1 <= TXFM_INPUT_MAX);
        assert(-TXFM_INPUT_MAX <= x2 <= TXFM_INPUT_MAX);
        assert(-TXFM_INPUT_MAX <= x3 <= TXFM_INPUT_MAX);
        assert(-TXFM_INPUT_MAX <= x4 <= TXFM_INPUT_MAX);
        assert(-TXFM_INPUT_MAX <= x5 <= TXFM_INPUT_MAX);
        assert(-TXFM_INPUT_MAX <= x6 <= TXFM_INPUT_MAX);
        assert(-TXFM_INPUT_MAX <= x7 <= TXFM_INPUT_MAX);
        assert(-TXFM_INPUT_MAX <= x8 <= TXFM_INPUT_MAX);
        assert(-TXFM_INPUT_MAX <= x9 <= TXFM_INPUT_MAX);
        assert(-TXFM_INPUT_MAX <= x10 <= TXFM_INPUT_MAX);
        assert(-TXFM_INPUT_MAX <= x11 <= TXFM_INPUT_MAX);
        assert(-TXFM_INPUT_MAX <= x12 <= TXFM_INPUT_MAX);
        assert(-TXFM_INPUT_MAX <= x13 <= TXFM_INPUT_MAX);
        assert(-TXFM_INPUT_MAX <= x14 <= TXFM_INPUT_MAX);
        assert(-TXFM_INPUT_MAX <= x15 <= TXFM_INPUT_MAX);
    }
    let a0: i32 = x0 + x15;
    assert(-2 * TXFM_INPUT_MAX - 2 <= a0 <= 2 * TXFM_INPUT_MAX + 2);
    let a1: i32 = x1 + x14;
    assert(-2 * TXFM_INPUT_MAX - 2 <= a1 <= 2 * TXFM_INPUT_MAX + 2);
    let a2: i32 = x2 + x13;
    assert(-2 * TXFM_INPUT_MAX - 2 <= a2 <= 2 * TXFM_INPUT_MAX + 2);
    let a3: i32 = x3 + x12;
    assert(-2 * TXFM_INPUT_MAX - 2 <= a3 <= 2 * TXFM_INPUT_MAX + 2);
    let a4: i32 = x4 + x11;
    assert(-2 * TXFM_INPUT_MAX - 2 <= a4 <= 2 * TXFM_INPUT_MAX + 2);
    let a5: i32 = x5 + x10;
    assert(-2 * TXFM_INPUT_MAX - 2 <= a5 <= 2 * TXFM_INPUT_MAX + 2);
    let a6: i32 = x6 + x9;
    assert(-2 * TXFM_INPUT_MAX - 2 <= a6 <= 2 * TXFM_INPUT_MAX + 2);
    let a7: i32 = x7 + x8;
    assert(-2 * TXFM_INPUT_MAX - 2 <= a7 <= 2 * TXFM_INPUT_MAX + 2);
    let a15: i32 = -x15 + x0;
    assert(-2 * TXFM_INPUT_MAX - 2 <= a15 <= 2 * TXFM_INPUT_MAX + 2);
    let a14: i32 = -x14 + x1;
    assert(-2 * TXFM_INPUT_MAX - 2 <= a14 <= 2 * TXFM_INPUT_MAX + 2);
    let a13: i32 = -x13 + x2;
    assert(-2 * TXFM_INPUT_MAX - 2 <= a13 <= 2 * TXFM_INPUT_MAX + 2);
    let a12: i32 = -x12 + x3;
    assert(-2 * TXFM_INPUT_MAX - 2 <= a12 <= 2 * TXFM_INPUT_MAX + 2);
    let a11: i32 = -x11 + x4;
    assert(-2 * TXFM_INPUT_MAX - 2 <= a11 <= 2 * TXFM_INPUT_MAX + 2);
    let a10: i32 = -x10 + x5;
    assert(-2 * TXFM_INPUT_MAX - 2 <= a10 <= 2 * TXFM_INPUT_MAX + 2);
    let a9: i32 = -x9 + x6;
    assert(-2 * TXFM_INPUT_MAX - 2 <= a9 <= 2 * TXFM_INPUT_MAX + 2);
    let a8: i32 = -x8 + x7;
    assert(-2 * TXFM_INPUT_MAX - 2 <= a8 <= 2 * TXFM_INPUT_MAX + 2);
    let b0: i32 = a0 + a7;
    assert(-4 * TXFM_INPUT_MAX - 4 <= b0 <= 4 * TXFM_INPUT_MAX + 4);
    let b1: i32 = a1 + a6;
    assert(-4 * TXFM_INPUT_MAX - 4 <= b1 <= 4 * TXFM_INPUT_MAX + 4);
    let b2: i32 = a2 + a5;
    assert(-4 * TXFM_INPUT_MAX - 4 <= b2 <= 4 * TXFM_INPUT_MAX + 4);
    let b3: i32 = a3 + a4;
    assert(-4 * TXFM_INPUT_MAX - 4 <= b3 <= 4 * TXFM_INPUT_MAX + 4);
    let b4: i32 = -a4 + a3;
    assert(-4 * TXFM_INPUT_MAX - 4 <= b4 <= 4 * TXFM_INPUT_MAX + 4);
    let b5: i32 = -a5 + a2;
    assert(-4 * TXFM_INPUT_MAX - 4 <= b5 <= 4 * TXFM_INPUT_MAX + 4);
    let b6: i32 = -a6 + a1;
    assert(-4 * TXFM_INPUT_MAX - 4 <= b6 <= 4 * TXFM_INPUT_MAX + 4);
    let b7: i32 = -a7 + a0;
    assert(-4 * TXFM_INPUT_MAX - 4 <= b7 <= 4 * TXFM_INPUT_MAX + 4);
    let b10: i32 = hb(-2896, a10, 2896, a13);
    assert(-5 * TXFM_INPUT_MAX - 5 <= b10 <= 5 * TXFM_INPUT_MAX + 5);
    let b11: i32 = hb(-2896, a11, 2896, a12);
    assert(-5 * TXFM_INPUT_MAX - 5 <= b11 <= 5 * TXFM_INPUT_MAX + 5);
    let b12: i32 = hb(2896, a12, 2896, a11);
    assert(-5 * TXFM_INPUT_MAX - 5 <= b12 <= 5 * TXFM_INPUT_MAX + 5);
    let b13: i32 = hb(2896, a13, 2896, a10);
    assert(-5 * TXFM_INPUT_MAX - 5 <= b13 <= 5 * TXFM_INPUT_MAX + 5);
    let c0: i32 = b0 + b3;
    assert(-8 * TXFM_INPUT_MAX - 8 <= c0 <= 8 * TXFM_INPUT_MAX + 8);
    let c1: i32 = b1 + b2;
    assert(-8 * TXFM_INPUT_MAX - 8 <= c1 <= 8 * TXFM_INPUT_MAX + 8);
    let c2: i32 = -b2 + b1;
    assert(-8 * TXFM_INPUT_MAX - 8 <= c2 <= 8 * TXFM_INPUT_MAX + 8);
    let c3: i32 = -b3 + b0;
    assert(-8 * TXFM_INPUT_MAX - 8 <= c3 <= 8 * TXFM_INPUT_MAX + 8);
    let c5: i32 = hb(-2896, b5, 2896, b6);
    assert(-9 * TXFM_INPUT_MAX - 9 <= c5 <= 9 * TXFM_INPUT_MAX + 9);
    let c6: i32 = hb(2896, b6, 2896, b5);
    assert(-9 * TXFM_INPUT_MAX - 9 <= c6 <= 9 * TXFM_INPUT_MAX + 9);
    let c8: i32 = a8 + b11;
    assert(-7 * TXFM_INPUT_MAX - 7 <= c8 <= 7 * TXFM_INPUT_MAX + 7);
    let c9: i32 = a9 + b10;
    assert(-7 * TXFM_INPUT_MAX - 7 <= c9 <= 7 * TXFM_INPUT_MAX + 7);
    let c10: i32 = -b10 + a9;
    assert(-7 * TXFM_INPUT_MAX - 7 <= c10 <= 7 * TXFM_INPUT_MAX + 7);
    let c11: i32 = -b11 + a8;
    assert(-7 * TXFM_INPUT_MAX - 7 <= c11 <= 7 * TXFM_INPUT_MAX + 7);
    let c12: i32 = -b12 + a15;
    assert(-7 * TXFM_INPUT_MAX - 7 <= c12 <= 7 * TXFM_INPUT_MAX + 7);
    let c13: i32 = -b13 + a14;
    assert(-7 * TXFM_INPUT_MAX - 7 <= c13 <= 7 * TXFM_INPUT_MAX + 7);
    let c14: i32 = a14 + b13;
    assert(-7 * TXFM_INPUT_MAX - 7 <= c14 <= 7 * TXFM_INPUT_MAX + 7);
    let c15: i32 = a15 + b12;
    assert(-7 * TXFM_INPUT_MAX - 7 <= c15 <= 7 * TXFM_INPUT_MAX + 7);
    output[0] = c0;
    output[1] = c1;
    output[2] = c2;
    output[3] = c3;
    output[4] = b4;
    output[5] = c5;
    output[6] = c6;
    output[7] = b7;
    output[8] = c8;
    output[9] = c9;
    output[10] = c10;
    output[11] = c11;
    output[12] = c12;
    output[13] = c13;
    output[14] = c14;
    output[15] = c15;
}

/// Each output of [`spec_fdct16_head`] is at most 9 times the input bound, plus 9.
#[verifier::rlimit(100)]
#[verifier::spinoff_prover]
pub proof fn lemma_fdct16_head_gain(x: Seq<i32>, b: int)
    requires b >= 0, bounded(x, 16, b),
    ensures bounded_int(spec_fdct16_head(x), 16, 9 * b + 9),
{
    let x0 = x[0] as int;
    assert(-b <= x0 <= b);
    let x1 = x[1] as int;
    assert(-b <= x1 <= b);
    let x2 = x[2] as int;
    assert(-b <= x2 <= b);
    let x3 = x[3] as int;
    assert(-b <= x3 <= b);
    let x4 = x[4] as int;
    assert(-b <= x4 <= b);
    let x5 = x[5] as int;
    assert(-b <= x5 <= b);
    let x6 = x[6] as int;
    assert(-b <= x6 <= b);
    let x7 = x[7] as int;
    assert(-b <= x7 <= b);
    let x8 = x[8] as int;
    assert(-b <= x8 <= b);
    let x9 = x[9] as int;
    assert(-b <= x9 <= b);
    let x10 = x[10] as int;
    assert(-b <= x10 <= b);
    let x11 = x[11] as int;
    assert(-b <= x11 <= b);
    let x12 = x[12] as int;
    assert(-b <= x12 <= b);
    let x13 = x[13] as int;
    assert(-b <= x13 <= b);
    let x14 = x[14] as int;
    assert(-b <= x14 <= b);
    let x15 = x[15] as int;
    assert(-b <= x15 <= b);
    let a0 = x0 + x15;
    assert(-2 * b - 2 <= a0 <= 2 * b + 2);
    let a1 = x1 + x14;
    assert(-2 * b - 2 <= a1 <= 2 * b + 2);
    let a2 = x2 + x13;
    assert(-2 * b - 2 <= a2 <= 2 * b + 2);
    let a3 = x3 + x12;
    assert(-2 * b - 2 <= a3 <= 2 * b + 2);
    let a4 = x4 + x11;
    assert(-2 * b - 2 <= a4 <= 2 * b + 2);
    let a5 = x5 + x10;
    assert(-2 * b - 2 <= a5 <= 2 * b + 2);
    let a6 = x6 + x9;
    assert(-2 * b - 2 <= a6 <= 2 * b + 2);
    let a7 = x7 + x8;
    assert(-2 * b - 2 <= a7 <= 2 * b + 2);
    let a15 = -x15 + x0;
    assert(-2 * b - 2 <= a15 <= 2 * b + 2);
    let a14 = -x14 + x1;
    assert(-2 * b - 2 <= a14 <= 2 * b + 2);
    let a13 = -x13 + x2;
    assert(-2 * b - 2 <= a13 <= 2 * b + 2);
    let a12 = -x12 + x3;
    assert(-2 * b - 2 <= a12 <= 2 * b + 2);
    let a11 = -x11 + x4;
    assert(-2 * b - 2 <= a11 <= 2 * b + 2);
    let a10 = -x10 + x5;
    assert(-2 * b - 2 <= a10 <= 2 * b + 2);
    let a9 = -x9 + x6;
    assert(-2 * b - 2 <= a9 <= 2 * b + 2);
    let a8 = -x8 + x7;
    assert(-2 * b - 2 <= a8 <= 2 * b + 2);
    let b0 = a0 + a7;
    assert(-4 * b - 4 <= b0 <= 4 * b + 4);
    let b1 = a1 + a6;
    assert(-4 * b - 4 <= b1 <= 4 * b + 4);
    let b2 = a2 + a5;
    assert(-4 * b - 4 <= b2 <= 4 * b + 4);
    let b3 = a3 + a4;
    assert(-4 * b - 4 <= b3 <= 4 * b + 4);
    let b4 = -a4 + a3;
    assert(-4 * b - 4 <= b4 <= 4 * b + 4);
    let b5 = -a5 + a2;
    assert(-4 * b - 4 <= b5 <= 4 * b + 4);
    let b6 = -a6 + a1;
    assert(-4 * b - 4 <= b6 <= 4 * b + 4);
    let b7 = -a7 + a0;
    assert(-4 * b - 4 <= b7 <= 4 * b + 4);
    lemma_btf_bound(-2896, a10, 2896, a13, 2 * b + 2, 2 * b + 2);
    let b10 = btf(-2896, a10, 2896, a13);
    assert(-5 * b - 5 <= b10 <= 5 * b + 5);
    lemma_btf_bound(-2896, a11, 2896, a12, 2 * b + 2, 2 * b + 2);
    let b11 = btf(-2896, a11, 2896, a12);
    assert(-5 * b - 5 <= b11 <= 5 * b + 5);
    lemma_btf_bound(2896, a12, 2896, a11, 2 * b + 2, 2 * b + 2);
    let b12 = btf(2896, a12, 2896, a11);
    assert(-5 * b - 5 <= b12 <= 5 * b + 5);
    lemma_btf_bound(2896, a13, 2896, a10, 2 * b + 2, 2 * b + 2);
    let b13 = btf(2896, a13, 2896, a10);
    assert(-5 * b - 5 <= b13 <= 5 * b + 5);
    let c0 = b0 + b3;
    assert(-8 * b - 8 <= c0 <= 8 * b + 8);
    let c1 = b1 + b2;
    assert(-8 * b - 8 <= c1 <= 8 * b + 8);
    let c2 = -b2 + b1;
    assert(-8 * b - 8 <= c2 <= 8 * b + 8);
    let c3 = -b3 + b0;
    assert(-8 * b - 8 <= c3 <= 8 * b + 8);
    lemma_btf_bound(-2896, b5, 2896, b6, 4 * b + 4, 4 * b + 4);
    let c5 = btf(-2896, b5, 2896, b6);
    assert(-9 * b - 9 <= c5 <= 9 * b + 9);
    lemma_btf_bound(2896, b6, 2896, b5, 4 * b + 4, 4 * b + 4);
    let c6 = btf(2896, b6, 2896, b5);
    assert(-9 * b - 9 <= c6 <= 9 * b + 9);
    let c8 = a8 + b11;
    assert(-7 * b - 7 <= c8 <= 7 * b + 7);
    let c9 = a9 + b10;
    assert(-7 * b - 7 <= c9 <= 7 * b + 7);
    let c10 = -b10 + a9;
    assert(-7 * b - 7 <= c10 <= 7 * b + 7);
    let c11 = -b11 + a8;
    assert(-7 * b - 7 <= c11 <= 7 * b + 7);
    let c12 = -b12 + a15;
    assert(-7 * b - 7 <= c12 <= 7 * b + 7);
    let c13 = -b13 + a14;
    assert(-7 * b - 7 <= c13 <= 7 * b + 7);
    let c14 = a14 + b13;
    assert(-7 * b - 7 <= c14 <= 7 * b + 7);
    let c15 = a15 + b12;
    assert(-7 * b - 7 <= c15 <= 7 * b + 7);
    assert(bounded_int(spec_fdct16_head(x), 16, 9 * b + 9));
}

/// Last four stages of the 16-point forward DCT.
pub open spec fn spec_fdct16_tail(x: Seq<i32>) -> Seq<int> {
    let x0 = x[0] as int;
    let x1 = x[1] as int;
    let x2 = x[2] as int;
    let x3 = x[3] as int;
    let x4 = x[4] as int;
    let x5 = x[5] as int;
    let x6 = x[6] as int;
    let x7 = x[7] as int;
    let x8 = x[8] as int;
    let x9 = x[9] as int;
    let x10 = x[10] as int;
    let x11 = x[11] as int;
    let x12 = x[12] as int;
    let x13 = x[13] as int;
    let x14 = x[14] as int;
    let x15 = x[15] as int;
    let d0 = btf(2896, x0, 2896, x1);
    let d1 = btf(-2896, x1, 2896, x0);
    let d2 = btf(1567, x2, 3784, x3);
    let d3 = btf(1567, x3, -3784, x2);
    let d4 = x4 + x5;
    let d5 = -x5 + x4;
    let d6 = -x6 + x7;
    let d7 = x7 + x6;
    let d9 = btf(-3784, x9, 1567, x14);
    let d10 = btf(-1567, x10, -3784, x13);
    let d13 = btf(1567, x13, -3784, x10);
    let d14 = btf(3784, x14, 1567, x9);
    let e4 = btf(799, d4, 4017, d7);
    let e5 = btf(3406, d5, 2276, d6);
    let e6 = btf(3406, d6, -2276, d5);
    let e7 = btf(799, d7, -4017, d4);
    let e8 = x8 + d9;
    let e9 = -d9 + x8;
    let e10 = -d10 + x11;
    let e11 = x11 + d10;
    let e12 = x12 + d13;
    let e13 = -d13 + x12;
    let e14 = -d14 + x15;
    let e15 = x15 + d14;
    let f8 = btf(401, e8, 4076, e15);
    let f9 = btf(3166, e9, 2598, e14);
    let f10 = btf(1931, e10, 3612, e13);
    let f11 = btf(3920, e11, 1189, e12);
    let f12 = btf(3920, e12, -1189, e11);
    let f13 = btf(1931, e13, -3612, e10);
    let f14 = btf(3166, e14, -2598, e9);
    let f15 = btf(401, e15, -4076, e8);
    seq![d0, f8, e4, f12, d2, f10, e6, f14, d1, f9, e5, f13, d3, f11, e7, f15]
}

/// Last four stages of the 16-point forward DCT.
#[verifier::rlimit(100)]
fn fdct16_tail(input: &[i32], output: &mut [i32])
    requires
        input@.len() >= 16,
        old(output)@.len() >= 16,
        bounded(input@, 16, FDCT16_MID_MAX as int),
    ensures
        final(output)@.len() == old(output)@.len(),
        forall|i: int| 0 <= i < 16 ==> final(output)@[i] == #[trigger] spec_fdct16_tail(input@)[i],
        forall|i: int| 16 <= i < old(output)@.len() ==> final(output)@[i] == old(output)@[i],
{
    let x0: i32 = input[0];
    let x1: i32 = input[1];
    let x2: i32 = input[2];
    let x3: i32 = input[3];
    let x4: i32 = input[4];
    let x5: i32 = input[5];
    let x6: i32 = input[6];
    let x7: i32 = input[7];
    let x8: i32 = input[8];
    let x9: i32 = input[9];
    let x10: i32 = input[10];
    let x11: i32 = input[11];
    let x12: i32 = input[12];
    let x13: i32 = input[13];
    let x14: i32 = input[14];
    let x15: i32 = input[15];
    proof {
        assert(-FDCT16_MID_MAX <= x0 <= FDCT16_MID_MAX);
        assert(-FDCT16_MID_MAX <= x1 <= FDCT16_MID_MAX);
        assert(-FDCT16_MID_MAX <= x2 <= FDCT16_MID_MAX);
        assert(-FDCT16_MID_MAX <= x3 <= FDCT16_MID_MAX);
        assert(-FDCT16_MID_MAX <= x4 <= FDCT16_MID_MAX);
        assert(-FDCT16_MID_MAX <= x5 <= FDCT16_MID_MAX);
        assert(-FDCT16_MID_MAX <= x6 <= FDCT16_MID_MAX);
        assert(-FDCT16_MID_MAX <= x7 <= FDCT16_MID_MAX);
        assert(-FDCT16_MID_MAX <= x8 <= FDCT16_MID_MAX);
        assert(-FDCT16_MID_MAX <= x9 <= FDCT16_MID_MAX);
        assert(-FDCT16_MID_MAX <= x10 <= FDCT16_MID_MAX);
        assert(-FDCT16_MID_MAX <= x11 <= FDCT16_MID_MAX);
        assert(-FDCT16_MID_MAX <= x12 <= FDCT16_MID_MAX);
        assert(-FDCT16_MID_MAX <= x13 <= FDCT16_MID_MAX);
        assert(-FDCT16_MID_MAX <= x14 <= FDCT16_MID_MAX);
        assert(-FDCT16_MID_MAX <= x15 <= FDCT16_MID_MAX);
    }
    let d0: i32 = hb(2896, x0, 2896, x1);
    assert(-3 * FDCT16_MID_MAX - 3 <= d0 <= 3 * FDCT16_MID_MAX + 3);
    let d1: i32 = hb(-2896, x1, 2896, x0);
    assert(-3 * FDCT16_MID_MAX - 3 <= d1 <= 3 * FDCT16_MID_MAX + 3);
    let d2: i32 = hb(1567, x2, 3784, x3);
    assert(-3 * FDCT16_MID_MAX - 3 <= d2 <= 3 * FDCT16_MID_MAX + 3);
    let d3: i32 = hb(1567, x3, -3784, x2);
    assert(-3 * FDCT16_MID_MAX - 3 <= d3 <= 3 * FDCT16_MID_MAX + 3);
    let d4: i32 = x4 + x5;
    assert(-2 * FDCT16_MID_MAX - 2 <= d4 <= 2 * FDCT16_MID_MAX + 2);
    let d5: i32 = -x5 + x4;
    assert(-2 * FDCT16_MID_MAX - 2 <= d5 <= 2 * FDCT16_MID_MAX + 2);
    let d6: i32 = -x6 + x7;
    assert(-2 * FDCT16_MID_MAX - 2 <= d6 <= 2 * FDCT16_MID_MAX + 2);
    let d7: i32 = x7 + x6;
    assert(-2 * FDCT16_MID_MAX - 2 <= d7 <= 2 * FDCT16_MID_MAX + 2);
    let d9: i32 = hb(-3784, x9, 1567, x14);
    assert(-3 * FDCT16_MID_MAX - 3 <= d9 <= 3 * FDCT16_MID_MAX + 3);
    let d10: i32 = hb(-1567, x10, -3784, x13);
    assert(-3 * FDCT16_MID_MAX - 3 <= d10 <= 3 * FDCT16_MID_MAX + 3);
    let d13: i32 = hb(1567, x13, -3784, x10);
    assert(-3 * FDCT16_MID_MAX - 3 <= d13 <= 3 * FDCT16_MID_MAX + 3);
    let d14: i32 = hb(3784, x14, 1567, x9);
    assert(-3 * FDCT16_MID_MAX - 3 <= d14 <= 3 * FDCT16_MID_MAX + 3);
    let e4: i32 = hb(799, d4, 4017, d7);
    assert(-5 * FDCT16_MID_MAX - 5 <= e4 <= 5 * FDCT16_MID_MAX + 5);
    let e5: i32 = hb(3406, d5, 2276, d6);
    assert(-5 * FDCT16_MID_MAX - 5 <= e5 <= 5 * FDCT16_MID_MAX + 5);
    let e6: i32 = hb(3406, d6, -2276, d5);
    assert(-5 * FDCT16_MID_MAX - 5 <= e6 <= 5 * FDCT16_MID_MAX + 5);
    let e7: i32 = hb(799, d7, -4017, d4);
    assert(-5 * FDCT16_MID_MAX - 5 <= e7 <= 5 * FDCT16_MID_MAX + 5);
    let e8: i32 = x8 + d9;
    assert(-4 * FDCT16_MID_MAX - 4 <= e8 <= 4 * FDCT16_MID_MAX + 4);
    let e9: i32 = -d9 + x8;
    assert(-4 * FDCT16_MID_MAX - 4 <= e9 <= 4 * FDCT16_MID_MAX + 4);
    let e10: i32 = -d10 + x11;
    assert(-4 * FDCT16_MID_MAX - 4 <= e10 <= 4 * FDCT16_MID_MAX + 4);
    let e11: i32 = x11 + d10;
    assert(-4 * FDCT16_MID_MAX - 4 <= e11 <= 4 * FDCT16_MID_MAX + 4);
    let e12: i32 = x12 + d13;
    assert(-4 * FDCT16_MID_MAX - 4 <= e12 <= 4 * FDCT16_MID_MAX + 4);
    let e13: i32 = -d13 + x12;
    assert(-4 * FDCT16_MID_MAX - 4 <= e13 <= 4 * FDCT16_MID_MAX + 4);
    let e14: i32 = -d14 + x15;
    assert(-4 * FDCT16_MID_MAX - 4 <= e14 <= 4 * FDCT16_MID_MAX + 4);
    let e15: i32 = x15 + d14;
    assert(-4 * FDCT16_MID_MAX - 4 <= e15 <= 4 * FDCT16_MID_MAX + 4);
    let f8: i32 = hb(401, e8, 4076, e15);
    assert(-9 * FDCT16_MID_MAX - 9 <= f8 <= 9 * FDCT16_MID_MAX + 9);
    let f9: i32 = hb(3166, e9, 2598, e14);
    assert(-9 * FDCT16_MID_MAX - 9 <= f9 <= 9 * FDCT16_MID_MAX + 9);
    let f10: i32 = hb(1931, e10, 3612, e13);
    assert(-9 * FDCT16_MID_MAX - 9 <= f10 <= 9 * FDCT16_MID_MAX + 9);
    let f11: i32 = hb(3920, e11, 1189, e12);
    assert(-9 * FDCT16_MID_MAX - 9 <= f11 <= 9 * FDCT16_MID_MAX + 9);
    let f12: i32 = hb(3920, e12, -1189, e11);
    assert(-9 * FDCT16_MID_MAX - 9 <= f12 <= 9 * FDCT16_MID_MAX + 9);
    let f13: i32 = hb(1931, e13, -3612, e10);
    assert(-9 * FDCT16_MID_MAX - 9 <= f13 <= 9 * FDCT16_MID_MAX + 9);
    let f14: i32 = hb(3166, e14, -2598, e9);
    assert(-9 * FDCT16_MID_MAX - 9 <= f14 <= 9 * FDCT16_MID_MAX + 9);
    let f15: i32 = hb(401, e15, -4076, e8);
    assert(-9 * FDCT16_MID_MAX - 9 <= f15 <= 9 * FDCT16_MID_MAX + 9);
    output[0] = d0;
    output[1] = f8;
    output[2] = e4;
    output[3] = f12;
    output[4] = d2;
    output[5] = f10;
    output[6] = e6;
    output[7] = f14;
    output[8] = d1;
    output[9] = f9;
    output[10] = e5;
    output[11] = f13;
    output[12] = d3;
    output[13] = f11;
    output[14] = e7;
    output[15] = f15;
}

/// Each output of [`spec_fdct16_tail`] is at most 9 times the input bound, plus 9.
#[verifier::rlimit(100)]
pub proof fn lemma_fdct16_tail_gain(x: Seq<i32>, b: int)
    requires b >= 0, bounded(x, 16, b),
    ensures bounded_int(spec_fdct16_tail(x), 16, 9 * b + 9),
{
    let x0 = x[0] as int;
    assert(-b <= x0 <= b);
    let x1 = x[1] as int;
    assert(-b <= x1 <= b);
    let x2 = x[2] as int;
    assert(-b <= x2 <= b);
    let x3 = x[3] as int;
    assert(-b <= x3 <= b);
    let x4 = x[4] as int;
    assert(-b <= x4 <= b);
    let x5 = x[5] as int;
    assert(-b <= x5 <= b);
    let x6 = x[6] as int;
    assert(-b <= x6 <= b);
    let x7 = x[7] as int;
    assert(-b <= x7 <= b);
    let x8 = x[8] as int;
    assert(-b <= x8 <= b);
    let x9 = x[9] as int;
    assert(-b <= x9 <= b);
    let x10 = x[10] as int;
    assert(-b <= x10 <= b);
    let x11 = x[11] as int;
    assert(-b <= x11 <= b);
    let x12 = x[12] as int;
    assert(-b <= x12 <= b);
    let x13 = x[13] as int;
    assert(-b <= x13 <= b);
    let x14 = x[14] as int;
    assert(-b <= x14 <= b);
    let x15 = x[15] as int;
    assert(-b <= x15 <= b);
    lemma_btf_bound(2896, x0, 2896, x1, 1 * b + 1, 1 * b + 1);
    let d0 = btf(2896, x0, 2896, x1);
    assert(-3 * b - 3 <= d0 <= 3 * b + 3);
    lemma_btf_bound(-2896, x1, 2896, x0, 1 * b + 1, 1 * b + 1);
    let d1 = btf(-2896, x1, 2896, x0);
    assert(-3 * b - 3 <= d1 <= 3 * b + 3);
    lemma_btf_bound(1567, x2, 3784, x3, 1 * b + 1, 1 * b + 1);
    let d2 = btf(1567, x2, 3784, x3);
    assert(-3 * b - 3 <= d2 <= 3 * b + 3);
    lemma_btf_bound(1567, x3, -3784, x2, 1 * b + 1, 1 * b + 1);
    let d3 = btf(1567, x3, -3784, x2);
    assert(-3 * b - 3 <= d3 <= 3 * b + 3);
    let d4 = x4 + x5;
    assert(-2 * b - 2 <= d4 <= 2 * b + 2);
    let d5 = -x5 + x4;
    assert(-2 * b - 2 <= d5 <= 2 * b + 2);
    let d6 = -x6 + x7;
    assert(-2 * b - 2 <= d6 <= 2 * b + 2);
    let d7 = x7 + x6;
    assert(-2 * b - 2 <= d7 <= 2 * b + 2);
    lemma_btf_bound(-3784, x9, 1567, x14, 1 * b + 1, 1 * b + 1);
    let d9 = btf(-3784, x9, 1567, x14);
    assert(-3 * b - 3 <= d9 <= 3 * b + 3);
    lemma_btf_bound(-1567, x10, -3784, x13, 1 * b + 1, 1 * b + 1);
    let d10 = btf(-1567, x10, -3784, x13);
    assert(-3 * b - 3 <= d10 <= 3 * b + 3);
    lemma_btf_bound(1567, x13, -3784, x10, 1 * b + 1, 1 * b + 1);
    let d13 = btf(1567, x13, -3784, x10);
    assert(-3 * b - 3 <= d13 <= 3 * b + 3);
    lemma_btf_bound(3784, x14, 1567, x9, 1 * b + 1, 1 * b + 1);
    let d14 = btf(3784, x14, 1567, x9);
    assert(-3 * b - 3 <= d14 <= 3 * b + 3);
    lemma_btf_bound(799, d4, 4017, d7, 2 * b + 2, 2 * b + 2);
    let e4 = btf(799, d4, 4017, d7);
    assert(-5 * b - 5 <= e4 <= 5 * b + 5);
    lemma_btf_bound(3406, d5, 2276, d6, 2 * b + 2, 2 * b + 2);
    let e5 = btf(3406, d5, 2276, d6);
    assert(-5 * b - 5 <= e5 <= 5 * b + 5);
    lemma_btf_bound(3406, d6, -2276, d5, 2 * b + 2, 2 * b + 2);
    let e6 = btf(3406, d6, -2276, d5);
    assert(-5 * b - 5 <= e6 <= 5 * b + 5);
    lemma_btf_bound(799, d7, -4017, d4, 2 * b + 2, 2 * b + 2);
    let e7 = btf(799, d7, -4017, d4);
    assert(-5 * b - 5 <= e7 <= 5 * b + 5);
    let e8 = x8 + d9;
    assert(-4 * b - 4 <= e8 <= 4 * b + 4);
    let e9 = -d9 + x8;
    assert(-4 * b - 4 <= e9 <= 4 * b + 4);
    let e10 = -d10 + x11;
    assert(-4 * b - 4 <= e10 <= 4 * b + 4);
    let e11 = x11 + d10;
    assert(-4 * b - 4 <= e11 <= 4 * b + 4);
    let e12 = x12 + d13;
    assert(-4 * b - 4 <= e12 <= 4 * b + 4);
    let e13 = -d13 + x12;
    assert(-4 * b - 4 <= e13 <= 4 * b + 4);
    let e14 = -d14 + x15;
    assert(-4 * b - 4 <= e14 <= 4 * b + 4);
    let e15 = x15 + d14;
    assert(-4 * b - 4 <= e15 <= 4 * b + 4);
    lemma_btf_bound(401, e8, 4076, e15, 4 * b + 4, 4 * b + 4);
    let f8 = btf(401, e8, 4076, e15);
    assert(-9 * b - 9 <= f8 <= 9 * b + 9);
    lemma_btf_bound(3166, e9, 2598, e14, 4 * b + 4, 4 * b + 4);
    let f9 = btf(3166, e9, 2598, e14);
    assert(-9 * b - 9 <= f9 <= 9 * b + 9);
    lemma_btf_bound(1931, e10, 3612, e13, 4 * b + 4, 4 * b + 4);
    let f10 = btf(1931, e10, 3612, e13);
    assert(-9 * b - 9 <= f10 <= 9 * b + 9);
    lemma_btf_bound(3920, e11, 1189, e12, 4 * b + 4, 4 * b + 4);
    let f11 = btf(3920, e11, 1189, e12);
    assert(-9 * b - 9 <= f11 <= 9 * b + 9);
    lemma_btf_bound(3920, e12, -1189, e11, 4 * b + 4, 4 * b + 4);
    let f12 = btf(3920, e12, -1189, e11);
    assert(-9 * b - 9 <= f12 <= 9 * b + 9);
    lemma_btf_bound(1931, e13, -3612, e10, 4 * b + 4, 4 * b + 4);
    let f13 = btf(1931, e13, -3612, e10);
    assert(-9 * b - 9 <= f13 <= 9 * b + 9);
    lemma_btf_bound(3166, e14, -2598, e9, 4 * b + 4, 4 * b + 4);
    let f14 = btf(3166, e14, -2598, e9);
    assert(-9 * b - 9 <= f14 <= 9 * b + 9);
    lemma_btf_bound(401, e15, -4076, e8, 4 * b + 4, 4 * b + 4);
    let f15 = btf(401, e15, -4076, e8);
    assert(-9 * b - 9 <= f15 <= 9 * b + 9);
    assert(bounded_int(spec_fdct16_tail(x), 16, 9 * b + 9));
}

/// Bound on the values between the two halves of the 16-point DCT (`9 * 2^22 + 9`).
pub const FDCT16_MID_MAX: i32 = 150994953;

/// 16-point forward DCT.
pub open spec fn spec_fdct16(x: Seq<i32>) -> Seq<int> {
    spec_fdct16_tail(spec_fdct16_head(x).map(|i: int, v: int| v as i32))
}

/// 16-point forward DCT.
pub fn fdct16(input: &[i32], output: &mut [i32])
    requires
        input@.len() >= 16,
        old(output)@.len() >= 16,
        bounded(input@, 16, TXFM_INPUT_MAX as int),
    ensures
        final(output)@.len() == old(output)@.len(),
        forall|i: int| 0 <= i < 16 ==> final(output)@[i] == #[trigger] spec_fdct16(input@)[i],
        forall|i: int| 16 <= i < old(output)@.len() ==> final(output)@[i] == old(output)@[i],
{
    let mut mid = [0i32; 16];
    fdct16_head(input, &mut mid);
    proof {
        lemma_fdct16_head_gain(input@, TXFM_INPUT_MAX as int);
        assert(mid@ =~= spec_fdct16_head(input@).map(|i: int, v: int| v as i32));
        assert(bounded(mid@, 16, FDCT16_MID_MAX as int));
    }
    fdct16_tail(&mid, output);
}

/// Each output of [`spec_fdct16`] is at most 81 times the input bound, plus 90.
pub proof fn lemma_fdct16_gain(x: Seq<i32>, b: int)
    requires 0 <= b <= TXFM_INPUT_MAX, bounded(x, 16, b),
    ensures bounded_int(spec_fdct16(x), 16, 81 * b + 90),
{
    lemma_fdct16_head_gain(x, b);
    let m = spec_fdct16_head(x).map(|i: int, v: int| v as i32);
    assert(bounded(m, 16, 9 * b + 9));
    lemma_fdct16_tail_gain(m, 9 * b + 9);
}

/// `x * 5793` round-shifted by 12: the identity transform's `sqrt(2)` scaling.
pub open spec fn spec_scale_sqrt2(x: int) -> int {
    spec_round_shift(x * 5793, 12)
}

/// 4-point forward ADST.
pub open spec fn spec_fadst4(x: Seq<i32>) -> Seq<int> {
    let s0 = x[0] as int;
    let s1 = x[1] as int;
    let s2 = x[2] as int;
    let s3 = x[3] as int;
    let a = s0 * 1321 + s1 * 2482 + s3 * 3803;
    let b = s0 * 3803 - s1 * 1321 + s3 * 2482;
    let c = s2 * 3344;
    let d = s0 * 1321 + s1 * 1321 - s3 * 2482;
    seq![spec_round_shift(a + c, 12), spec_round_shift(b + c, 12),
        spec_round_shift(a - b + d, 12), spec_round_shift(a + b - d, 12)]
}

/// `(v + 2048) / 4096` of a value of at most `2^40` fits comfortably in `i32`.
pub proof fn lemma_rs12_small(v: int)
    requires -0x100_0000_0000 <= v <= 0x100_0000_0000,
    ensures
        spec_round_shift(v, 12) == (v + 2048) / 4096,
        -0x1000_0001 <= spec_round_shift(v, 12) <= 0x1000_0001,
{
    vstd::arithmetic::power2::lemma2_to64();
    vstd::arithmetic::div_mod::lemma_fundamental_div_mod(v + 2048, 4096);
}

/// 4-point forward ADST.
pub fn fadst4(input: &[i32], output: &mut [i32])
    requires
        input@.len() >= 4,
        old(output)@.len() >= 4,
        bounded(input@, 4, TXFM_INPUT_MAX as int),
    ensures
        final(output)@.len() == old(output)@.len(),
        forall|i: int| 0 <= i < 4 ==> final(output)@[i] == #[trigger] spec_fadst4(input@)[i],
        forall|i: int| 4 <= i < old(output)@.len() ==> final(output)@[i] == old(output)@[i],
{
    let s0: i64 = input[0] as i64;
    let s1: i64 = input[1] as i64;
    let s2: i64 = input[2] as i64;
    let s3: i64 = input[3] as i64;
    proof {
        assert(-TXFM_INPUT_MAX <= s0 <= TXFM_INPUT_MAX);
        assert(-TXFM_INPUT_MAX <= s1 <= TXFM_INPUT_MAX);
        assert(-TXFM_INPUT_MAX <= s2 <= TXFM_INPUT_MAX);
        assert(-TXFM_INPUT_MAX <= s3 <= TXFM_INPUT_MAX);
    }
    let x0: i64 = s0 * 1321;
    let x1: i64 = s0 * 3803;
    let x2: i64 = s1 * 2482;
    let x3: i64 = s1 * 1321;
    let x4: i64 = s2 * 3344;
    let x5: i64 = s3 * 3803;
    let x6: i64 = s3 * 2482;
    let a: i64 = x0 + x2 + x5;
    let b: i64 = x1 - x3 + x6;
    let c: i64 = x4;
    let d: i64 = x0 + x3 - x6;
    proof {
        lemma_rs12_small((a + c) as int);
        lemma_rs12_small((b + c) as int);
        lemma_rs12_small((a - b + d) as int);
        lemma_rs12_small((a + b - d) as int);
        vstd::arithmetic::power2::lemma2_to64();
    }
    output[0] = round_shift_i64(a + c, 12);
    output[1] = round_shift_i64(b + c, 12);
    output[2] = round_shift_i64(a - b + d, 12);
    output[3] = round_shift_i64(a + b - d, 12);
}

/// 4-point identity transform: each input scaled by `sqrt(2)`.
pub fn fidentity4(input: &[i32], output: &mut [i32])
    requires
        input@.len() >= 4,
        old(output)@.len() >= 4,
        bounded(input@, 4, TXFM_INPUT_MAX as int),
    ensures
        final(output)@.len() == old(output)@.len(),
        forall|i: int| 0 <= i < 4 ==> final(output)@[i] == spec_scale_sqrt2(#[trigger] input@[i] as int),
        forall|i: int| 4 <= i < old(output)@.len() ==> final(output)@[i] == old(output)@[i],
{
    let mut i: usize = 0;
    while i < 4
        invariant
            i <= 4,
            input@.len() >= 4,
            old(output)@.len() >= 4,
            bounded(input@, 4, TXFM_INPUT_MAX as int),
            output@.len() == old(output)@.len(),
            forall|k: int| 0 <= k < i ==> output@[k] == spec_scale_sqrt2(#[trigger] input@[k] as int),
            forall|k: int| 4 <= k < old(output)@.len() ==> output@[k] == old(output)@[k],
        decreases 4 - i,
    {
        let v: i64 = input[i] as i64 * 5793;
        proof {
            assert(-TXFM_INPUT_MAX <= input@[i as int] <= TXFM_INPUT_MAX);
            lemma_rs12_small(v as int);
            vstd::arithmetic::power2::lemma2_to64();
        }
        output[i] = round_shift_i64(v, 12);
        i = i + 1;
    }
}

/// 8-point identity transform: each input doubled.
pub fn fidentity8(input: &[i32], output: &mut [i32])
    requires
        input@.len() >= 8,
        old(output)@.len() >= 8,
        bounded(input@, 8, TXFM_INPUT_MAX as int),
    ensures
        final(output)@.len() == old(output)@.len(),
        forall|i: int| 0 <= i < 8 ==> final(output)@[i] == 2 * #[trigger] input@[i],
        forall|i: int| 8 <= i < old(output)@.len() ==> final(output)@[i] == old(output)@[i],
{
    let mut i: usize = 0;
    while i < 8
        invariant
            i <= 8,
            input@.len() >= 8,
            old(output)@.len() >= 8,
            bounded(input@, 8, TXFM_INPUT_MAX as int),
            output@.len() == old(output)@.len(),
            forall|k: int| 0 <= k < i ==> output@[k] == 2 * #[trigger] input@[k],
            forall|k: int| 8 <= k < old(output)@.len() ==> output@[k] == old(output)@[k],
        decreases 8 - i,
    {
        assert(-TXFM_INPUT_MAX <= input@[i as int] <= TXFM_INPUT_MAX);
        output[i] = input[i] * 2;
        i = i + 1;
    }
}

/// 16-point identity transform: each input scaled by `2 * sqrt(2)`.
pub fn fidentity16(input: &[i32], output: &mut [i32])
    requires
        input@.len() >= 16,
        old(output)@.len() >= 16,
        bounded(input@, 16, TXFM_INPUT_MAX as int),
    ensures
        final(output)@.len() == old(output)@.len(),
        forall|i: int| 0 <= i < 16 ==> final(output)@[i] == spec_scale_sqrt2(2 * #[trigger] input@[i]),
        forall|i: int| 16 <= i < old(output)@.len() ==> final(output)@[i] == old(output)@[i],
{
    let mut i: usize = 0;
    while i < 16
        invariant
            i <= 16,
            input@.len() >= 16,
            old(output)@.len() >= 16,
            bounded(input@, 16, TXFM_INPUT_MAX as int),
            output@.len() == old(output)@.len(),
            forall|k: int| 0 <= k < i ==> output@[k] == spec_scale_sqrt2(2 * #[trigger] input@[k]),
            forall|k: int| 16 <= k < old(output)@.len() ==> output@[k] == old(output)@[k],
        decreases 16 - i,
    {
        let v: i64 = input[i] as i64 * 2 * 5793;
        proof {
            assert(-TXFM_INPUT_MAX <= input@[i as int] <= TXFM_INPUT_MAX);
            assert(v == (2 * input@[i as int]) * 5793);
            lemma_rs12_small(v as int);
            vstd::arithmetic::power2::lemma2_to64();
        }
        output[i] = round_shift_i64(v, 12);
        i = i + 1;
    }
}

/// `v` shifted by `bit`: round-shifted right when positive, shifted left when negative.
pub open spec fn spec_shift(v: int, bit: int) -> int {
    if bit == 0 { v } else if bit > 0 { spec_round_shift(v, bit as nat) } else { v * pow2((-bit) as nat) }
}

/// Shifting `v` by `bit` stays in `i32`.
pub open spec fn shift_ok(v: int, bit: int) -> bool {
    ||| bit == 0
    ||| (0 < bit <= 31 && v + pow2((bit - 1) as nat) <= i32::MAX)
    ||| (-30 <= bit < 0 && i32::MIN <= v * pow2((-bit) as nat) <= i32::MAX)
}

/// Shift every entry of `arr` by `bit` (see [`spec_shift`]).
pub fn round_shift_array(arr: &mut [i32], bit: i32)
    requires
        forall|i: int| 0 <= i < old(arr)@.len() ==> shift_ok(#[trigger] old(arr)@[i] as int, bit as int),
    ensures
        final(arr)@.len() == old(arr)@.len(),
        forall|i: int| 0 <= i < old(arr)@.len() ==> final(arr)@[i] == spec_shift(#[trigger] old(arr)@[i] as int, bit as int),
{
    if bit == 0 {
        return;
    }
    let n: usize = arr.len();
    let mut i: usize = 0;
    while i < n
        invariant
            bit != 0,
            n == arr@.len(),
            arr@.len() == old(arr)@.len(),
            i <= n,
            forall|k: int| 0 <= k < old(arr)@.len() ==> shift_ok(#[trigger] old(arr)@[k] as int, bit as int),
            forall|k: int| 0 <= k < i ==> arr@[k] == spec_shift(#[trigger] old(arr)@[k] as int, bit as int),
            forall|k: int| i <= k < n ==> arr@[k] == old(arr)@[k],
        decreases n - i,
    {
        let v: i32 = arr[i];
        assert(shift_ok(old(arr)@[i as int] as int, bit as int));
        if bit > 0 {
            arr[i] = round_shift(v, bit as u32);
        } else {
            let b: u32 = (0 - bit) as u32;
            proof {
                vstd::arithmetic::power2::lemma2_to64();
                if b < 30 {
                    vstd::arithmetic::power2::lemma_pow2_strictly_increases(b as nat, 30);
                }
                vstd::bits::lemma_u32_shl_is_mul(1, b);
            }
            let m: i32 = (1u32 << b) as i32;
            arr[i] = v * m;
        }
        i = i + 1;
    }
}

/// The one-dimensional forward transforms.
#[derive(Debug, Clone, Copy, PartialEq, Eq)]
pub enum FwdTxfm1d {
    Fdct4,
    Fdct8,
    Fdct16,
    Fdct32,
    Fdct64,
    Fadst4,
    Fadst8,
    Fidentity4,
    Fidentity8,
    Fidentity16,
}

impl FwdTxfm1d {
    /// Kind of the transform: 0 for a DCT, 1 for an ADST, 3 for the identity.
    pub open spec fn spec_kind(self) -> u8 {
        match self {
            FwdTxfm1d::Fdct4 | FwdTxfm1d::Fdct8 | FwdTxfm1d::Fdct16 | FwdTxfm1d::Fdct32 | FwdTxfm1d::Fdct64 => 0,
            FwdTxfm1d::Fadst4 | FwdTxfm1d::Fadst8 => 1,
            FwdTxfm1d::Fidentity4 | FwdTxfm1d::Fidentity8 | FwdTxfm1d::Fidentity16 => 3,
        }
    }

    /// Number of points of the transform.
    pub open spec fn spec_size(self) -> nat {
        match self {
            FwdTxfm1d::Fdct4 | FwdTxfm1d::Fadst4 | FwdTxfm1d::Fidentity4 => 4,
            FwdTxfm1d::Fdct8 | FwdTxfm1d::Fadst8 | FwdTxfm1d::Fidentity8 => 8,
            FwdTxfm1d::Fdct16 | FwdTxfm1d::Fidentity16 => 16,
            FwdTxfm1d::Fdct32 => 32,
            FwdTxfm1d::Fdct64 => 64,
        }
    }

    /// The outputs of the transform on `x`.
    #[verifier::opaque]
    pub open spec fn spec_apply(self, x: Seq<i32>) -> Seq<int> {
        match self {
            FwdTxfm1d::Fdct4 => spec_fdct4(x),
            FwdTxfm1d::Fdct8 => spec_fdct8(x),
            FwdTxfm1d::Fdct16 => spec_fdct16(x),
            FwdTxfm1d::Fdct32 => spec_fdct_wide(x, 32),
            FwdTxfm1d::Fdct64 => spec_fdct_wide(x, 64),
            FwdTxfm1d::Fadst4 => spec_fadst4(x),
            FwdTxfm1d::Fadst8 => spec_fadst8(x),
            FwdTxfm1d::Fidentity4 => Seq::new(4, |i: int| spec_scale_sqrt2(x[i] as int)),
            FwdTxfm1d::Fidentity8 => Seq::new(8, |i: int| 2 * x[i]),
            FwdTxfm1d::Fidentity16 => Seq::new(16, |i: int| spec_scale_sqrt2(2 * x[i])),
        }
    }

    /// The transform has one output per point.
    pub proof fn lemma_apply_len(self, x: Seq<i32>)
        ensures self.spec_apply(x).len() == self.spec_size(),
    {
        reveal(FwdTxfm1d::spec_apply);
    }

    /// Number of points of the transform.
    pub fn size(&self) -> (r: usize)
        ensures r == self.spec_size(),
    {
        match self {
            FwdTxfm1d::Fdct4 | FwdTxfm1d::Fadst4 | FwdTxfm1d::Fidentity4 => 4,
            FwdTxfm1d::Fdct8 | FwdTxfm1d::Fadst8 | FwdTxfm1d::Fidentity8 => 8,
            FwdTxfm1d::Fdct16 | FwdTxfm1d::Fidentity16 => 16,
            FwdTxfm1d::Fdct32 => 32,
            FwdTxfm1d::Fdct64 => 64,
        }
    }

    /// Apply the transform to the first `size` entries of `input`.
    pub fn apply(&self, input: &[i32], output: &mut [i32])
        requires
            input@.len() >= self.spec_size(),
            old(output)@.len() >= self.spec_size(),
            bounded(input@, self.spec_size(), TXFM_INPUT_MAX as int),
        ensures
            final(output)@.len() == old(output)@.len(),
            forall|i: int| 0 <= i < self.spec_size() ==> final(output)@[i] == #[trigger] self.spec_apply(input@)[i],
            forall|i: int| self.spec_size() <= i < old(output)@.len() ==> final(output)@[i] == old(output)@[i],
    {
        reveal(FwdTxfm1d::spec_apply);
        match self {
            FwdTxfm1d::Fdct4 => fdct4(input, output),
            FwdTxfm1d::Fdct8 => fdct8(input, output),
            FwdTxfm1d::Fdct16 => fdct16(input, output),
            FwdTxfm1d::Fdct32 => fdct_wide(input, output, 32),
            FwdTxfm1d::Fdct64 => fdct_wide(input, output, 64),
            FwdTxfm1d::Fadst4 => fadst4(input, output),
            FwdTxfm1d::Fadst8 => fadst8(input, output),
            FwdTxfm1d::Fidentity4 => fidentity4(input, output),
            FwdTxfm1d::Fidentity8 => fidentity8(input, output),
            FwdTxfm1d::Fidentity16 => fidentity16(input, output),
        }
    }
}

/// The 1D transform for a type (0 DCT, 1 ADST, 2 flipped ADST, 3 identity) and size,
/// if there is one.
pub open spec fn spec_fwd_txfm_func(tx_type_1d: u8, size: usize) -> Option<FwdTxfm1d> {
    if tx_type_1d == 0 && size == 4 { Some(FwdTxfm1d::Fdct4) }
    else if tx_type_1d == 0 && size == 8 { Some(FwdTxfm1d::Fdct8) }
    else if tx_type_1d == 0 && size == 16 { Some(FwdTxfm1d::Fdct16) }
    else if tx_type_1d == 0 && size == 32 { Some(FwdTxfm1d::Fdct32) }
    else if tx_type_1d == 0 && size == 64 { Some(FwdTxfm1d::Fdct64) }
    else if (tx_type_1d == 1 || tx_type_1d == 2) && size == 4 { Some(FwdTxfm1d::Fadst4) }
    else if (tx_type_1d == 1 || tx_type_1d == 2) && size == 8 { Some(FwdTxfm1d::Fadst8) }
    else if tx_type_1d == 3 && size == 4 { Some(FwdTxfm1d::Fidentity4) }
    else if tx_type_1d == 3 && size == 8 { Some(FwdTxfm1d::Fidentity8) }
    else if tx_type_1d == 3 && size == 16 { Some(FwdTxfm1d::Fidentity16) }
    else { None }
}

/// Transform law: the forward 1D transform chosen for a type and size is a kernel of
/// that type (the flipped ADST uses the ADST kernel) with that many points, and there
/// is one exactly for the DCT at 4 to 64 points, the ADST and flipped ADST at 4 and 8
/// points and the identity at 4 to 16 points.
pub proof fn lemma_fwd_txfm_func_kind(tx_type_1d: u8, size: usize)
    ensures
        spec_fwd_txfm_func(tx_type_1d, size) matches Some(f) ==>
            f.spec_kind() == (if tx_type_1d == 2 { 1u8 } else { tx_type_1d }) && f.spec_size() == size,
        spec_fwd_txfm_func(tx_type_1d, size) is Some <==> (
            (tx_type_1d == 0 && (size == 4 || size == 8 || size == 16 || size == 32 || size == 64))
            || ((tx_type_1d == 1 || tx_type_1d == 2) && (size == 4 || size == 8))
            || (tx_type_1d == 3 && (size == 4 || size == 8 || size == 16))),
{
}

/// Transform law: the chosen forward transform computes the kernel of the requested
/// type: the DCT for type 0, the ADST for types 1 and 2 (flipped ADST), at the
/// requested size.
pub proof fn lemma_fwd_txfm_func_apply(tx_type_1d: u8, size: usize, x: Seq<i32>)
    requires spec_fwd_txfm_func(tx_type_1d, size) is Some,
    ensures
        ({
            let f = spec_fwd_txfm_func(tx_type_1d, size)->0;
            &&& tx_type_1d == 0 && size == 4 ==> f.spec_apply(x) == spec_fdct4(x)
            &&& tx_type_1d == 0 && size == 8 ==> f.spec_apply(x) == spec_fdct8(x)
            &&& tx_type_1d == 0 && size == 16 ==> f.spec_apply(x) == spec_fdct16(x)
            &&& tx_type_1d == 0 && size >= 32 ==> f.spec_apply(x) == spec_fdct_wide(x, size as nat)
            &&& (tx_type_1d == 1 || tx_type_1d == 2) && size == 4 ==> f.spec_apply(x) == spec_fadst4(x)
            &&& (tx_type_1d == 1 || tx_type_1d == 2) && size == 8 ==> f.spec_apply(x) == spec_fadst8(x)
        }),
{
    reveal(FwdTxfm1d::spec_apply);
}

/// The 1D forward transform for a type and size (flipped ADST uses the ADST).
pub fn get_fwd_txfm_func(tx_type_1d: u8, size: usize) -> (r: Option<FwdTxfm1d>)
    ensures
        r == spec_fwd_txfm_func(tx_type_1d, size),
        r matches Some(f) ==> f.spec_size() == size,
        r matches Some(f) ==> f.spec_kind() == (if tx_type_1d == 2 { 1u8 } else { tx_type_1d }),
{
    match (tx_type_1d, size) {
        (0, 4) => Some(FwdTxfm1d::Fdct4),
        (0, 8) => Some(FwdTxfm1d::Fdct8),
        (0, 16) => Some(FwdTxfm1d::Fdct16),
        (0, 32) => Some(FwdTxfm1d::Fdct32),
        (0, 64) => Some(FwdTxfm1d::Fdct64),
        (1, 4) => Some(FwdTxfm1d::Fadst4),
        (1, 8) => Some(FwdTxfm1d::Fadst8),
        (2, 4) => Some(FwdTxfm1d::Fadst4),
        (2, 8) => Some(FwdTxfm1d::Fadst8),
        (3, 4) => Some(FwdTxfm1d::Fidentity4),
        (3, 8) => Some(FwdTxfm1d::Fidentity8),
        (3, 16) => Some(FwdTxfm1d::Fidentity16),
        _ => None,
    }
}

/// Column `c` of a block with row stride `stride`.
pub open spec fn column(input: Seq<i32>, stride: nat, size: nat, c: int) -> Seq<i32> {
    Seq::new(size, |r: int| input[r * stride + c])
}

/// Every entry of `x` shifted by `bit`.
pub open spec fn shifted(x: Seq<i32>, bit: int) -> Seq<int> {
    x.map(|i: int, v: i32| spec_shift(v as int, bit))
}

/// Entries as `i32`.
pub open spec fn as_i32s(x: Seq<int>) -> Seq<i32> {
    x.map(|i: int, v: int| v as i32)
}

/// Input of the column transform of column `c`: the column shifted by `-shift[0]`.
pub open spec fn col_input(input: Seq<i32>, stride: nat, size: nat, shift: [i32; 3], c: int) -> Seq<i32> {
    as_i32s(shifted(column(input, stride, size, c), -shift[0]))
}

/// Column `c` after the column transform, shifted by `-shift[1]`.
pub open spec fn col_pass(input: Seq<i32>, stride: nat, f: FwdTxfm1d, size: nat, shift: [i32; 3], c: int) -> Seq<int> {
    shifted(as_i32s(f.spec_apply(col_input(input, stride, size, shift, c))), -shift[1])
}

/// Input of the row transform of row `r`: row `r` of the column pass.
pub open spec fn row_input(input: Seq<i32>, stride: nat, f: FwdTxfm1d, size: nat, shift: [i32; 3], r: int) -> Seq<i32> {
    Seq::new(size, |c: int| col_pass(input, stride, f, size, shift, c)[r] as i32)
}

/// Row `r` after the row transform, shifted by `-shift[2]`.
pub open spec fn row_pass(input: Seq<i32>, stride: nat, f: FwdTxfm1d, g: FwdTxfm1d, size: nat, shift: [i32; 3], r: int) -> Seq<int> {
    shifted(as_i32s(g.spec_apply(row_input(input, stride, f, size, shift, r))), -shift[2])
}

/// The separable 2D transform: columns with `f`, then rows with `g`, in raster order.
pub open spec fn spec_fwd_txfm2d(input: Seq<i32>, stride: nat, f: FwdTxfm1d, g: FwdTxfm1d, size: nat, shift: [i32; 3]) -> Seq<int> {
    Seq::new(size * size, |k: int| row_pass(input, stride, f, g, size, shift, k / size as int)[k % size as int])
}

/// No value of the 2D transform leaves `i32` and every 1D transform input stays within
/// [`TXFM_INPUT_MAX`].
pub open spec fn fwd2d_ok(input: Seq<i32>, stride: nat, f: FwdTxfm1d, g: FwdTxfm1d, size: nat, shift: [i32; 3]) -> bool {
    &&& forall|c: int, r: int| 0 <= c < size && 0 <= r < size ==>
        shift_ok(#[trigger] input[r * stride + c] as int, -shift[0])
    &&& forall|c: int| 0 <= c < size ==>
        bounded_int(#[trigger] shifted(column(input, stride, size, c), -shift[0]), size, TXFM_INPUT_MAX as int)
    &&& forall|c: int, r: int| 0 <= c < size && 0 <= r < size ==>
        shift_ok(#[trigger] f.spec_apply(col_input(input, stride, size, shift, c))[r], -shift[1])
    &&& forall|c: int, r: int| 0 <= c < size && 0 <= r < size ==>
        -TXFM_INPUT_MAX <= #[trigger] col_pass(input, stride, f, size, shift, c)[r] <= TXFM_INPUT_MAX
    &&& forall|r: int, c: int| 0 <= c < size && 0 <= r < size ==>
        shift_ok(#[trigger] g.spec_apply(row_input(input, stride, f, size, shift, r))[c], -shift[2])
}

/// Raster index of row `r`, column `c` in rows of `size`.
pub open spec fn raster(r: int, c: int, size: int) -> int {
    r * size + c
}

/// Distinct cells of a grid have distinct raster indices, all inside the grid.
pub proof fn lemma_raster_injective(size: int)
    requires size > 0,
    ensures
        forall|r: int, c: int| 0 <= r < size && 0 <= c < size ==>
            0 <= #[trigger] raster(r, c, size) < size * size,
        forall|r1: int, c1: int, r2: int, c2: int|
            0 <= c1 < size && 0 <= c2 < size && (r1 != r2 || c1 != c2) ==>
            #[trigger] raster(r1, c1, size) != #[trigger] raster(r2, c2, size),
{
    assert forall|r: int, c: int| 0 <= r < size && 0 <= c < size implies
        0 <= #[trigger] raster(r, c, size) < size * size by {
        assert(0 <= r * size + c < size * size) by (nonlinear_arith)
            requires 0 <= r < size, 0 <= c < size;
    }
    assert forall|r1: int, c1: int, r2: int, c2: int|
        0 <= c1 < size && 0 <= c2 < size && (r1 != r2 || c1 != c2) implies
        #[trigger] raster(r1, c1, size) != #[trigger] raster(r2, c2, size) by {
        if r1 != r2 {
            assert(r1 * size + c1 != r2 * size + c2) by (nonlinear_arith)
                requires r1 != r2, 0 <= c1 < size, 0 <= c2 < size, size > 0;
        }
    }
}

/// The column-pass buffer holds `col_pass(c)[r]` at `raster(r, c)` for columns below `ncols`.
pub open spec fn buf_filled(buf: Seq<i32>, input: Seq<i32>, stride: nat, f: FwdTxfm1d, size: nat, shift: [i32; 3], ncols: int) -> bool {
    forall|r: int, c: int| 0 <= r < size && 0 <= c < ncols ==>
        buf[raster(r, c, size as int)] == #[trigger] col_pass(input, stride, f, size, shift, c)[r]
}

/// Column pass of one column: gather, shift, transform, shift, scatter into `buf`.
fn fwd2d_column(input: &[i32], stride: usize, col_func: FwdTxfm1d, row_func: FwdTxfm1d, size: usize,
    shift: [i32; 3], col: usize, buf: &mut Vec<i32>)
    requires
        col < size, size <= 64,
        col_func.spec_size() == size,
        row_func.spec_size() == size,
        (size - 1) * stride + size <= input@.len(),
        fwd2d_ok(input@, stride as nat, col_func, row_func, size as nat, shift),
        old(buf)@.len() == size * size,
        buf_filled(old(buf)@, input@, stride as nat, col_func, size as nat, shift, col as int),
    ensures
        final(buf)@.len() == size * size,
        buf_filled(final(buf)@, input@, stride as nat, col_func, size as nat, shift, col + 1),
{
    let ghost f = col_func;
    let ghost inp = input@;
    let ghost st = stride as nat;
    let ghost sz = size as nat;
    let ilen: usize = input.len();
    proof {
        assert(shift_ok(input@[0 * stride + 0] as int, -shift[0]));
        assert(shift_ok(f.spec_apply(col_input(inp, st, sz, shift, 0))[0], -shift[1]));
    }
    let mut temp_in: Vec<i32> = vec![0i32; size];
    let mut temp_out: Vec<i32> = vec![0i32; size];
    let mut row: usize = 0;
    while row < size
        invariant
            row <= size, col < size, ilen == input@.len(),
            (size - 1) * stride + size <= input@.len(),
            temp_in@.len() == size,
            forall|r: int| 0 <= r < row ==> temp_in@[r] == #[trigger] column(inp, st, sz, col as int)[r],
            inp == input@, st == stride, sz == size,
        decreases size - row,
    {
        proof {
            assert(row * stride + col <= (size - 1) * stride + col) by (nonlinear_arith)
                requires row < size, stride >= 0;
            assert(row * stride <= (size - 1) * stride) by (nonlinear_arith) requires row < size;
        }
        temp_in.set(row, input[row * stride + col]);
        row = row + 1;
    }
    proof {
        assert(temp_in@ =~= column(inp, st, sz, col as int));
        assert forall|r: int| 0 <= r < size implies shift_ok(#[trigger] temp_in@[r] as int, -shift[0]) by {
            assert(shift_ok(input@[r * stride + col as int] as int, -shift[0]));
        }
        assert(bounded_int(shifted(column(inp, st, sz, col as int), -shift[0]), sz, TXFM_INPUT_MAX as int));
    }
    round_shift_array(temp_in.as_mut_slice(), -shift[0]);
    proof {
        assert(temp_in@ =~= col_input(inp, st, sz, shift, col as int));
    }
    col_func.apply(temp_in.as_slice(), temp_out.as_mut_slice());
    proof {
        f.lemma_apply_len(col_input(inp, st, sz, shift, col as int));
        assert forall|r: int| 0 <= r < size implies shift_ok(#[trigger] temp_out@[r] as int, -shift[1]) by {
            assert(shift_ok(f.spec_apply(col_input(inp, st, sz, shift, col as int))[r], -shift[1]));
        }
    }
    round_shift_array(temp_out.as_mut_slice(), -shift[1]);
    proof {
        assert forall|r: int| 0 <= r < size implies temp_out@[r] == #[trigger] col_pass(inp, st, f, sz, shift, col as int)[r] by {
        }
    }
    let mut row2: usize = 0;
    while row2 < size
        invariant
            row2 <= size, col < size, size <= 64,
            inp == input@, st == stride, sz == size, f == col_func,
            buf@.len() == size * size, temp_out@.len() == size,
            forall|r: int| 0 <= r < size ==> temp_out@[r] == #[trigger] col_pass(inp, st, f, sz, shift, col as int)[r],
            buf_filled(buf@, inp, st, f, sz, shift, col as int),
            forall|r: int| 0 <= r < row2 ==>
                buf@[raster(r, col as int, size as int)] == #[trigger] col_pass(inp, st, f, sz, shift, col as int)[r],
        decreases size - row2,
    {
        proof {
            assert(row2 * size + col < size * size) by (nonlinear_arith)
                requires row2 < size, col < size;
            assert(row2 * size <= 4096) by (nonlinear_arith) requires row2 < size, size <= 64;
            lemma_raster_injective(size as int);
        }
        let idx: usize = row2 * size + col;
        assert(idx as int == raster(row2 as int, col as int, size as int));
        let ghost old_buf = buf@;
        assert(buf_filled(old_buf, inp, st, f, sz, shift, col as int));
        buf.set(idx, temp_out[row2]);
        proof {
            assert(buf@ == old_buf.update(idx as int, temp_out@[row2 as int]));
            assert forall|r: int, c: int| 0 <= r < size && 0 <= c < col implies
                buf@[raster(r, c, size as int)] == #[trigger] col_pass(inp, st, f, sz, shift, c)[r] by {
                assert(raster(r, c, size as int) != raster(row2 as int, col as int, size as int));
                assert(0 <= r < sz);
                assert(0 <= c < col as int);
                assert(old_buf[raster(r, c, sz as int)] == col_pass(inp, st, f, sz, shift, c)[r]);
            }
            assert forall|r: int| 0 <= r < row2 + 1 implies
                buf@[raster(r, col as int, size as int)] == #[trigger] col_pass(inp, st, f, sz, shift, col as int)[r] by {
                if r < row2 {
                    assert(raster(r, col as int, size as int) != raster(row2 as int, col as int, size as int));
                }
            }
        }
        row2 = row2 + 1;
    }
}

/// Row pass of row `row`: transform the row of `buf`, shift, and store it in `output`.
fn fwd2d_row(input: &[i32], stride: usize, col_func: FwdTxfm1d, row_func: FwdTxfm1d, size: usize,
    shift: [i32; 3], row: usize, buf: &Vec<i32>, output: &mut [i32])
    requires
        row < size, size <= 64,
        col_func.spec_size() == size,
        row_func.spec_size() == size,
        fwd2d_ok(input@, stride as nat, col_func, row_func, size as nat, shift),
        buf@.len() == size * size,
        buf_filled(buf@, input@, stride as nat, col_func, size as nat, shift, size as int),
        size * size <= old(output)@.len(),
        forall|k: int| 0 <= k < row * size ==> old(output)@[k]
            == #[trigger] spec_fwd_txfm2d(input@, stride as nat, col_func, row_func, size as nat, shift)[k],
    ensures
        final(output)@.len() == old(output)@.len(),
        forall|k: int| 0 <= k < (row + 1) * size ==> final(output)@[k]
            == #[trigger] spec_fwd_txfm2d(input@, stride as nat, col_func, row_func, size as nat, shift)[k],
        forall|k: int| size * size <= k < old(output)@.len() ==> final(output)@[k] == old(output)@[k],
{
    let ghost f = col_func;
    let ghost g = row_func;
    let ghost inp = input@;
    let ghost st = stride as nat;
    let ghost sz = size as nat;
    proof {
        assert(shift_ok(g.spec_apply(row_input(inp, st, f, sz, shift, 0))[0], -shift[2]));
        assert(row * size + size <= size * size) by (nonlinear_arith) requires row < size;
        assert(row * size + size == (row + 1) * size) by (nonlinear_arith);
        assert(row * size <= 4096) by (nonlinear_arith) requires row < size, size <= 64;
        assert(size * size <= 4096) by (nonlinear_arith) requires size <= 64;
        lemma_raster_injective(size as int);
    }
    let mut temp_in: Vec<i32> = vec![0i32; size];
    let mut temp_out: Vec<i32> = vec![0i32; size];
    let row_start: usize = row * size;
    let mut c: usize = 0;
    while c < size
        invariant
            c <= size, row < size, size <= 64, size * size <= 4096,
            inp == input@, st == stride, sz == size, f == col_func, g == row_func,
            row_start == row * size,
            row * size + size <= size * size,
            buf@.len() == size * size, temp_in@.len() == size,
            buf_filled(buf@, inp, st, f, sz, shift, size as int),
            forall|cc: int| 0 <= cc < c ==> temp_in@[cc] == #[trigger] col_pass(inp, st, f, sz, shift, cc)[row as int],
        decreases size - c,
    {
        assert(raster(row as int, c as int, size as int) == row_start + c);
        assert(buf@[raster(row as int, c as int, size as int)] == col_pass(inp, st, f, sz, shift, c as int)[row as int]);
        temp_in.set(c, buf[row_start + c]);
        c = c + 1;
    }
    proof {
        assert forall|cc: int| 0 <= cc < size implies -TXFM_INPUT_MAX <= #[trigger] temp_in@[cc] <= TXFM_INPUT_MAX by {
            assert(-TXFM_INPUT_MAX <= col_pass(inp, st, f, sz, shift, cc)[row as int] <= TXFM_INPUT_MAX);
        }
        assert(temp_in@ =~= row_input(inp, st, f, sz, shift, row as int));
    }
    row_func.apply(temp_in.as_slice(), temp_out.as_mut_slice());
    proof {
        g.lemma_apply_len(row_input(inp, st, f, sz, shift, row as int));
        assert forall|cc: int| 0 <= cc < size implies shift_ok(#[trigger] temp_out@[cc] as int, -shift[2]) by {
            assert(shift_ok(g.spec_apply(row_input(inp, st, f, sz, shift, row as int))[cc], -shift[2]));
        }
    }
    round_shift_array(temp_out.as_mut_slice(), -shift[2]);
    proof {
        assert forall|cc: int| 0 <= cc < size implies temp_out@[cc] == #[trigger] row_pass(inp, st, f, g, sz, shift, row as int)[cc] by {
        }
    }
    let mut c2: usize = 0;
    while c2 < size
        invariant
            c2 <= size, row < size, size <= 64, size * size <= 4096,
            inp == input@, st == stride, sz == size, f == col_func, g == row_func,
            row_start == row * size,
            row * size + size <= size * size,
            size * size <= old(output)@.len(),
            output@.len() == old(output)@.len(),
            temp_out@.len() == size,
            forall|cc: int| 0 <= cc < size ==> temp_out@[cc] == #[trigger] row_pass(inp, st, f, g, sz, shift, row as int)[cc],
            forall|k: int| 0 <= k < row * size + c2 ==> output@[k]
                == #[trigger] spec_fwd_txfm2d(inp, st, f, g, sz, shift)[k],
            forall|k: int| size * size <= k < old(output)@.len() ==> output@[k] == old(output)@[k],
        decreases size - c2,
    {
        proof {
            lemma_raster_divmod(row as int, c2 as int, size as int);
            assert(row * size + c2 < size * size);
            assert(spec_fwd_txfm2d(inp, st, f, g, sz, shift)[row * size + c2]
                == row_pass(inp, st, f, g, sz, shift, row as int)[c2 as int]);
        }
        output[row_start + c2] = temp_out[c2];
        c2 = c2 + 1;
    }
}

/// Forward 2D transform of a `size` x `size` block with row stride `stride`: column
/// transforms (input shifted by `-shift[0]`, output by `-shift[1]`), then row
/// transforms (output shifted by `-shift[2]`), written in raster order.
pub fn fwd_txfm2d(input: &[i32], output: &mut [i32], stride: usize, col_func: FwdTxfm1d,
    row_func: FwdTxfm1d, size: usize, shift: [i32; 3])
    requires
        col_func.spec_size() == size,
        row_func.spec_size() == size,
        (size - 1) * stride + size <= input@.len(),
        size * size <= old(output)@.len(),
        fwd2d_ok(input@, stride as nat, col_func, row_func, size as nat, shift),
    ensures
        final(output)@.len() == old(output)@.len(),
        forall|k: int| 0 <= k < size * size ==> final(output)@[k]
            == #[trigger] spec_fwd_txfm2d(input@, stride as nat, col_func, row_func, size as nat, shift)[k],
        forall|k: int| size * size <= k < old(output)@.len() ==> final(output)@[k] == old(output)@[k],
{
    proof {
        assert(size <= 64);
        assert(size * size <= 4096) by (nonlinear_arith) requires size <= 64;
    }
    let mut buf: Vec<i32> = vec![0i32; size * size];
    let mut col: usize = 0;
    while col < size
        invariant
            col <= size, size <= 64,
            col_func.spec_size() == size, row_func.spec_size() == size,
            (size - 1) * stride + size <= input@.len(),
            fwd2d_ok(input@, stride as nat, col_func, row_func, size as nat, shift),
            buf@.len() == size * size,
            buf_filled(buf@, input@, stride as nat, col_func, size as nat, shift, col as int),
        decreases size - col,
    {
        fwd2d_column(input, stride, col_func, row_func, size, shift, col, &mut buf);
        col = col + 1;
    }
    let mut row: usize = 0;
    while row < size
        invariant
            row <= size, size <= 64,
            col_func.spec_size() == size, row_func.spec_size() == size,
            fwd2d_ok(input@, stride as nat, col_func, row_func, size as nat, shift),
            buf@.len() == size * size,
            buf_filled(buf@, input@, stride as nat, col_func, size as nat, shift, size as int),
            size * size <= old(output)@.len(),
            output@.len() == old(output)@.len(),
            forall|k: int| 0 <= k < row * size ==> output@[k]
                == #[trigger] spec_fwd_txfm2d(input@, stride as nat, col_func, row_func, size as nat, shift)[k],
            forall|k: int| size * size <= k < old(output)@.len() ==> output@[k] == old(output)@[k],
        decreases size - row,
    {
        fwd2d_row(input, stride, col_func, row_func, size, shift, row, &buf, output);
        row = row + 1;
    }
}

/// Raster index `r * size + c` splits back into `r` and `c`.
pub proof fn lemma_raster_divmod(r: int, c: int, size: int)
    requires 0 <= c < size,
    ensures (r * size + c) / size == r, (r * size + c) % size == c,
{
    vstd::arithmetic::div_mod::lemma_fundamental_div_mod_converse(r * size + c, size, r, c);
}

/// Shifts of the 4x4 forward transform.
pub const FWD_SHIFT_4X4: [i32; 3] = [2, 0, 0];
/// Shifts of the 8x8 forward transform.
pub const FWD_SHIFT_8X8: [i32; 3] = [2, -1, 0];
/// Shifts of the 16x16 forward transform.
pub const FWD_SHIFT_16X16: [i32; 3] = [2, -2, 0];

/// Forward 4x4 DCT-DCT (shifts `[2, 0, 0]`).
pub fn fwd_txfm2d_4x4_dct_dct(input: &[i32], output: &mut [i32], stride: usize)
    requires
        3 * stride + 4 <= input@.len(),
        16 <= old(output)@.len(),
        fwd2d_ok(input@, stride as nat, FwdTxfm1d::Fdct4, FwdTxfm1d::Fdct4, 4, FWD_SHIFT_4X4),
    ensures
        final(output)@.len() == old(output)@.len(),
        forall|k: int| 0 <= k < 16 ==> final(output)@[k]
            == #[trigger] spec_fwd_txfm2d(input@, stride as nat, FwdTxfm1d::Fdct4, FwdTxfm1d::Fdct4, 4, FWD_SHIFT_4X4)[k],
        forall|k: int| 16 <= k < old(output)@.len() ==> final(output)@[k] == old(output)@[k],
{
    fwd_txfm2d(input, output, stride, FwdTxfm1d::Fdct4, FwdTxfm1d::Fdct4, 4, FWD_SHIFT_4X4);
}

/// Forward 8x8 DCT-DCT (shifts `[2, -1, 0]`).
pub fn fwd_txfm2d_8x8_dct_dct(input: &[i32], output: &mut [i32], stride: usize)
    requires
        7 * stride + 8 <= input@.len(),
        64 <= old(output)@.len(),
        fwd2d_ok(input@, stride as nat, FwdTxfm1d::Fdct8, FwdTxfm1d::Fdct8, 8, FWD_SHIFT_8X8),
    ensures
        final(output)@.len() == old(output)@.len(),
        forall|k: int| 0 <= k < 64 ==> final(output)@[k]
            == #[trigger] spec_fwd_txfm2d(input@, stride as nat, FwdTxfm1d::Fdct8, FwdTxfm1d::Fdct8, 8, FWD_SHIFT_8X8)[k],
        forall|k: int| 64 <= k < old(output)@.len() ==> final(output)@[k] == old(output)@[k],
{
    fwd_txfm2d(input, output, stride, FwdTxfm1d::Fdct8, FwdTxfm1d::Fdct8, 8, FWD_SHIFT_8X8);
}

/// Forward 16x16 DCT-DCT (shifts `[2, -2, 0]`).
pub fn fwd_txfm2d_16x16_dct_dct(input: &[i32], output: &mut [i32], stride: usize)
    requires
        15 * stride + 16 <= input@.len(),
        256 <= old(output)@.len(),
        fwd2d_ok(input@, stride as nat, FwdTxfm1d::Fdct16, FwdTxfm1d::Fdct16, 16, FWD_SHIFT_16X16),
    ensures
        final(output)@.len() == old(output)@.len(),
        forall|k: int| 0 <= k < 256 ==> final(output)@[k]
            == #[trigger] spec_fwd_txfm2d(input@, stride as nat, FwdTxfm1d::Fdct16, FwdTxfm1d::Fdct16, 16, FWD_SHIFT_16X16)[k],
        forall|k: int| 256 <= k < old(output)@.len() ==> final(output)@[k] == old(output)@[k],
{
    fwd_txfm2d(input, output, stride, FwdTxfm1d::Fdct16, FwdTxfm1d::Fdct16, 16, FWD_SHIFT_16X16);
}

} // verus!
