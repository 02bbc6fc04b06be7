//! Inverse transforms (DCT, ADST, identity) of transform coefficients.
use vstd::prelude::*;
use crate::dsp::fwd_txfm::{ints, btf, hb, bounded, bounded_int, lemma_btf_bound, spec_round_shift, round_shift_i64,
    lemma_rs12_small, spec_scale_sqrt2, spec_shift, shift_ok, shifted, as_i32s, round_shift_array, raster,
    lemma_raster_injective, lemma_raster_divmod};
use crate::dsp::copy::{block_written, in_block, lemma_block_step};

verus! {

/// Largest input magnitude accepted by the 1D inverse transforms (`2^23 - 1`): the
/// largest for which the proved stage bounds of the 32-point inverse DCT (doubling,
/// plus one, per butterfly stage) keep every value inside `i32`.
pub const INV_TXFM_INPUT_MAX: i32 = 8388607;

/// Largest input magnitude accepted by the 4-point inverse ADST: it multiplies in
/// `i32`, and its widest intermediate sum reaches 15212 times the input bound.
pub const IADST4_INPUT_MAX: i32 = 141170;

/// 4-point inverse DCT.
pub open spec fn spec_idct4(x: Seq<i32>) -> Seq<int> {
    let x0 = x[0] as int;
    let x1 = x[1] as int;
    let x2 = x[2] as int;
    let x3 = x[3] as int;
    let v1 = btf(2896, x0, 2896, x2);
    let v2 = btf(2896, x0, -2896, x2);
    let v3 = btf(1567, x1, -3784, x3);
    let v4 = btf(3784, x1, 1567, x3);
    let v5 = v1 + v4;
    let v6 = v2 + v3;
    let v7 = v2 - v3;
    let v8 = v1 - v4;
    seq![v5, v6, v7, v8]
}

/// 4-point inverse DCT.
pub fn idct4(input: &[i32], output: &mut [i32])
    requires
        input@.len() >= 4,
        old(output)@.len() >= 4,
        bounded(input@, 4, INV_TXFM_INPUT_MAX as int),
    ensures
        final(output)@.len() == old(output)@.len(),
        forall|i: int| 0 <= i < 4 ==> final(output)@[i] == #[trigger] spec_idct4(input@)[i],
        forall|i: int| 4 <= i < old(output)@.len() ==> final(output)@[i] == old(output)@[i],
{
    let x0: i32 = input[0];
    let x1: i32 = input[1];
    let x2: i32 = input[2];
    let x3: i32 = input[3];
    proof {
        assert(-INV_TXFM_INPUT_MAX <= x0 <= INV_TXFM_INPUT_MAX);
        assert(-INV_TXFM_INPUT_MAX <= x1 <= INV_TXFM_INPUT_MAX);
        assert(-INV_TXFM_INPUT_MAX <= x2 <= INV_TXFM_INPUT_MAX);
        assert(-INV_TXFM_INPUT_MAX <= x3 <= INV_TXFM_INPUT_MAX);
    }
    let v1: i32 = hb(2896, x0, 2896, x2);
    assert(-3 * INV_TXFM_INPUT_MAX - 3 <= v1 <= 3 * INV_TXFM_INPUT_MAX + 3);
    let v2: i32 = hb(2896, x0, -2896, x2);
    assert(-3 * INV_TXFM_INPUT_MAX - 3 <= v2 <= 3 * INV_TXFM_INPUT_MAX + 3);
    let v3: i32 = hb(1567, x1, -3784, x3);
    assert(-3 * INV_TXFM_INPUT_MAX - 3 <= v3 <= 3 * INV_TXFM_INPUT_MAX + 3);
    let v4: i32 = hb(3784, x1, 1567, x3);
    assert(-3 * INV_TXFM_INPUT_MAX - 3 <= v4 <= 3 * INV_TXFM_INPUT_MAX + 3);
    let v5: i32 = v1 + v4;
    assert(-6 * INV_TXFM_INPUT_MAX - 6 <= v5 <= 6 * INV_TXFM_INPUT_MAX + 6);
    let v6: i32 = v2 + v3;
    assert(-6 * INV_TXFM_INPUT_MAX - 6 <= v6 <= 6 * INV_TXFM_INPUT_MAX + 6);
    let v7: i32 = v2 - v3;
    assert(-6 * INV_TXFM_INPUT_MAX - 6 <= v7 <= 6 * INV_TXFM_INPUT_MAX + 6);
    let v8: i32 = v1 - v4;
    assert(-6 * INV_TXFM_INPUT_MAX - 6 <= v8 <= 6 * INV_TXFM_INPUT_MAX + 6);
    output[0] = v5;
    output[1] = v6;
    output[2] = v7;
    output[3] = v8;
}

/// Each output of [`spec_idct4`] is at most 6 times the input bound, plus 6.
pub proof fn lemma_idct4_gain(x: Seq<i32>, b: int)
    requires b >= 0, bounded(x, 4, b),
    ensures bounded_int(spec_idct4(x), 4, 6 * b + 6),
{
    let x0 = x[0] as int;
    assert(-b <= x0 <= b);
    let x1 = x[1] as int;
    assert(-b <= x1 <= b);
    let x2 = x[2] as int;
    assert(-b <= x2 <= b);
    let x3 = x[3] as int;
    assert(-b <= x3 <= b);
    lemma_btf_bound(2896, x0, 2896, x2, 1 * b + 1, 1 * b + 1);
    let v1 = btf(2896, x0, 2896, x2);
    assert(-3 * b - 3 <= v1 <= 3 * b + 3);
    lemma_btf_bound(2896, x0, -2896, x2, 1 * b + 1, 1 * b + 1);
    let v2 = btf(2896, x0, -2896, x2);
    assert(-3 * b - 3 <= v2 <= 3 * b + 3);
    lemma_btf_bound(1567, x1, -3784, x3, 1 * b + 1, 1 * b + 1);
    let v3 = btf(1567, x1, -3784, x3);
    assert(-3 * b - 3 <= v3 <= 3 * b + 3);
    lemma_btf_bound(3784, x1, 1567, x3, 1 * b + 1, 1 * b + 1);
    let v4 = btf(3784, x1, 1567, x3);
    assert(-3 * b - 3 <= v4 <= 3 * b + 3);
    let v5 = v1 + v4;
    assert(-6 * b - 6 <= v5 <= 6 * b + 6);
    let v6 = v2 + v3;
    assert(-6 * b - 6 <= v6 <= 6 * b + 6);
    let v7 = v2 - v3;
    assert(-6 * b - 6 <= v7 <= 6 * b + 6);
    let v8 = v1 - v4;
    assert(-6 * b - 6 <= v8 <= 6 * b + 6);
    assert(bounded_int(spec_idct4(x), 4, 6 * b + 6));
}

/// Stage 1 of the 8-point inverse DCT.
#[verifier::opaque]
pub open spec fn idct8_stage1(p: Seq<int>) -> Seq<int> {
    seq![
        p[0],
        p[4],
        p[2],
        p[6],
        p[1],
        p[5],
        p[3],
        p[7],
    ]
}

/// Stage 2 of the 8-point inverse DCT.
#[verifier::opaque]
pub open spec fn idct8_stage2(p: Seq<int>) -> Seq<int> {
    seq![
        p[0],
        p[1],
        p[2],
        p[3],
        btf(799, p[4], -4017, p[7]),
        btf(3406, p[5], -2276, p[6]),
        btf(2276, p[5], 3406, p[6]),
        btf(4017, p[4], 799, p[7]),
    ]
}

/// Stage 3 of the 8-point inverse DCT.
#[verifier::opaque]
pub open spec fn idct8_stage3(p: Seq<int>) -> Seq<int> {
    seq![
        btf(2896, p[0], 2896, p[1]),
        btf(2896, p[0], -2896, p[1]),
        btf(1567, p[2], -3784, p[3]),
        btf(3784, p[2], 1567, p[3]),
        p[4] + p[5],
        p[4] - p[5],
        -p[6] + p[7],
        p[6] + p[7],
    ]
}

/// Stage 4 of the 8-point inverse DCT.
#[verifier::opaque]
pub open spec fn idct8_stage4(p: Seq<int>) -> Seq<int> {
    seq![
        p[0] + p[3],
        p[1] + p[2],
        p[1] - p[2],
        p[0] - p[3],
        p[4],
        btf(-2896, p[5], 2896, p[6]),
        btf(2896, p[5], 2896, p[6]),
        p[7],
    ]
}

/// Stage 5 of the 8-point inverse DCT.
#[verifier::opaque]
pub open spec fn idct8_stage5(p: Seq<int>) -> Seq<int> {
    seq![
        p[0] + p[7],
        p[1] + p[6],
        p[2] + p[5],
        p[3] + p[4],
        p[3] - p[4],
        p[2] - p[5],
        p[1] - p[6],
        p[0] - p[7],
    ]
}

/// 8-point inverse DCT
pub open spec fn spec_idct8(x: Seq<i32>) -> Seq<int> {
    idct8_stage5(idct8_stage4(idct8_stage3(idct8_stage2(idct8_stage1(ints(x))))))
}

/// Stage 1 of the 8-point inverse DCT on values of at most 8388607.
#[verifier::rlimit(50)]
fn idct8_stage1_exec(p: &[i32; 8]) -> (r: [i32; 8])
    requires bounded(p@, 8, 8388607),
    ensures
        ints(r@) == idct8_stage1(ints(p@)),
        bounded(r@, 8, 8388607),
{
    proof {
        reveal(idct8_stage1);
        assert(-8388607 <= p@[0] <= 8388607);
        assert(-8388607 <= p@[1] <= 8388607);
        assert(-8388607 <= p@[2] <= 8388607);
        assert(-8388607 <= p@[3] <= 8388607);
        assert(-8388607 <= p@[4] <= 8388607);
        assert(-8388607 <= p@[5] <= 8388607);
        assert(-8388607 <= p@[6] <= 8388607);
        assert(-8388607 <= p@[7] <= 8388607);
    }
    let t0: i32 = p[0];
    let t1: i32 = p[4];
    let t2: i32 = p[2];
    let t3: i32 = p[6];
    let t4: i32 = p[1];
    let t5: i32 = p[5];
    let t6: i32 = p[3];
    let t7: i32 = p[7];
    let r: [i32; 8] = [t0, t1, t2, t3, t4, t5, t6, t7];
    proof {
        assert(r@ =~= seq![t0, t1, t2, t3, t4, t5, t6, t7]);
        assert(ints(r@) =~= idct8_stage1(ints(p@)));
    }
    r
}

/// Stage 1 of the 8-point inverse DCT grows a bound `b` to at most `1 * b + 0`.
pub proof fn lemma_idct8_stage1_gain(p: Seq<int>, b: int)
    requires b >= 0, bounded_int(p, 8, b),
    ensures bounded_int(idct8_stage1(p), 8, 1 * b + 0),
{
    reveal(idct8_stage1);
    assert(-b <= p[0] <= b);
    assert(-b <= p[4] <= b);
    assert(-b <= p[2] <= b);
    assert(-b <= p[6] <= b);
    assert(-b <= p[1] <= b);
    assert(-b <= p[5] <= b);
    assert(-b <= p[3] <= b);
    assert(-b <= p[7] <= b);
}

/// Stage 2 of the 8-point inverse DCT on values of at most 8388607.
#[verifier::rlimit(50)]
fn idct8_stage2_exec(p: &[i32; 8]) -> (r: [i32; 8])
    requires bounded(p@, 8, 8388607),
    ensures
        ints(r@) == idct8_stage2(ints(p@)),
        bounded(r@, 8, 16777215),
{
    proof {
        reveal(idct8_stage2);
        assert(-8388607 <= p@[0] <= 8388607);
        assert(-8388607 <= p@[1] <= 8388607);
        assert(-8388607 <= p@[2] <= 8388607);
        assert(-8388607 <= p@[3] <= 8388607);
        assert(-8388607 <= p@[4] <= 8388607);
        assert(-8388607 <= p@[5] <= 8388607);
        assert(-8388607 <= p@[6] <= 8388607);
        assert(-8388607 <= p@[7] <= 8388607);
    }
    let t0: i32 = p[0];
    let t1: i32 = p[1];
    let t2: i32 = p[2];
    let t3: i32 = p[3];
    let t4: i32 = hb(799, p[4], -4017, p[7]);
    let t5: i32 = hb(3406, p[5], -2276, p[6]);
    let t6: i32 = hb(2276, p[5], 3406, p[6]);
    let t7: i32 = hb(4017, p[4], 799, p[7]);
    let r: [i32; 8] = [t0, t1, t2, t3, t4, t5, t6, t7];
    proof {
        assert(r@ =~= seq![t0, t1, t2, t3, t4, t5, t6, t7]);
        assert(ints(r@) =~= idct8_stage2(ints(p@)));
    }
    r
}

/// Stage 2 of the 8-point inverse DCT grows a bound `b` to at most `2 * b + 1`.
pub proof fn lemma_idct8_stage2_gain(p: Seq<int>, b: int)
    requires b >= 0, bounded_int(p, 8, b),
    ensures bounded_int(idct8_stage2(p), 8, 2 * b + 1),
{
    reveal(idct8_stage2);
    assert(-b <= p[0] <= b);
    assert(-b <= p[1] <= b);
    assert(-b <= p[2] <= b);
    assert(-b <= p[3] <= b);
    assert(-b <= p[4] <= b && -b <= p[7] <= b);
    lemma_btf_bound(799, p[4], -4017, p[7], b, b);
    assert(-b <= p[5] <= b && -b <= p[6] <= b);
    lemma_btf_bound(3406, p[5], -2276, p[6], b, b);
    assert(-b <= p[5] <= b && -b <= p[6] <= b);
    lemma_btf_bound(2276, p[5], 3406, p[6], b, b);
    assert(-b <= p[4] <= b && -b <= p[7] <= b);
    lemma_btf_bound(4017, p[4], 799, p[7], b, b);
}

/// Stage 3 of the 8-point inverse DCT on values of at most 16777215.
#[verifier::rlimit(50)]
fn idct8_stage3_exec(p: &[i32; 8]) -> (r: [i32; 8])
    requires bounded(p@, 8, 16777215),
    ensures
        ints(r@) == idct8_stage3(ints(p@)),
        bounded(r@, 8, 33554431),
{
    proof {
        reveal(idct8_stage3);
        assert(-16777215 <= p@[0] <= 16777215);
        assert(-16777215 <= p@[1] <= 16777215);
        assert(-16777215 <= p@[2] <= 16777215);
        assert(-16777215 <= p@[3] <= 16777215);
        assert(-16777215 <= p@[4] <= 16777215);
        assert(-16777215 <= p@[5] <= 16777215);
        assert(-16777215 <= p@[6] <= 16777215);
        assert(-16777215 <= p@[7] <= 16777215);
    }
    let t0: i32 = hb(2896, p[0], 2896, p[1]);
    let t1: i32 = hb(2896, p[0], -2896, p[1]);
    let t2: i32 = hb(1567, p[2], -3784, p[3]);
    let t3: i32 = hb(3784, p[2], 1567, p[3]);
    let t4: i32 = p[4] + p[5];
    let t5: i32 = p[4] - p[5];
    let t6: i32 = -p[6] + p[7];
    let t7: i32 = p[6] + p[7];
    let r: [i32; 8] = [t0, t1, t2, t3, t4, t5, t6, t7];
    proof {
        assert(r@ =~= seq![t0, t1, t2, t3, t4, t5, t6, t7]);
        assert(ints(r@) =~= idct8_stage3(ints(p@)));
    }
    r
}

/// Stage 3 of the 8-point inverse DCT grows a bound `b` to at most `2 * b + 1`.
pub proof fn lemma_idct8_stage3_gain(p: Seq<int>, b: int)
    requires b >= 0, bounded_int(p, 8, b),
    ensures bounded_int(idct8_stage3(p), 8, 2 * b + 1),
{
    reveal(idct8_stage3);
    assert(-b <= p[0] <= b && -b <= p[1] <= b);
    lemma_btf_bound(2896, p[0], 2896, p[1], b, b);
    assert(-b <= p[0] <= b && -b <= p[1] <= b);
    lemma_btf_bound(2896, p[0], -2896, p[1], b, b);
    assert(-b <= p[2] <= b && -b <= p[3] <= b);
    lemma_btf_bound(1567, p[2], -3784, p[3], b, b);
    assert(-b <= p[2] <= b && -b <= p[3] <= b);
    lemma_btf_bound(3784, p[2], 1567, p[3], b, b);
    assert(-b <= p[4] <= b && -b <= p[5] <= b);
    assert(-b <= p[4] <= b && -b <= p[5] <= b);
    assert(-b <= p[6] <= b && -b <= p[7] <= b);
    assert(-b <= p[6] <= b && -b <= p[7] <= b);
}

/// Stage 4 of the 8-point inverse DCT on values of at most 33554431.
#[verifier::rlimit(50)]
fn idct8_stage4_exec(p: &[i32; 8]) -> (r: [i32; 8])
    requires bounded(p@, 8, 33554431),
    ensures
        ints(r@) == idct8_stage4(ints(p@)),
        bounded(r@, 8, 67108863),
{
    proof {
        reveal(idct8_stage4);
        assert(-33554431 <= p@[0] <= 33554431);
        assert(-33554431 <= p@[1] <= 33554431);
        assert(-33554431 <= p@[2] <= 33554431);
        assert(-33554431 <= p@[3] <= 33554431);
        assert(-33554431 <= p@[4] <= 33554431);
        assert(-33554431 <= p@[5] <= 33554431);
        assert(-33554431 <= p@[6] <= 33554431);
        assert(-33554431 <= p@[7] <= 33554431);
    }
    let t0: i32 = p[0] + p[3];
    let t1: i32 = p[1] + p[2];
    let t2: i32 = p[1] - p[2];
    let t3: i32 = p[0] - p[3];
    let t4: i32 = p[4];
    let t5: i32 = hb(-2896, p[5], 2896, p[6]);
    let t6: i32 = hb(2896, p[5], 2896, p[6]);
    let t7: i32 = p[7];
    let r: [i32; 8] = [t0, t1, t2, t3, t4, t5, t6, t7];
    proof {
        assert(r@ =~= seq![t0, t1, t2, t3, t4, t5, t6, t7]);
        assert(ints(r@) =~= idct8_stage4(ints(p@)));
    }
    r
}

/// Stage 4 of the 8-point inverse DCT grows a bound `b` to at most `2 * b + 1`.
pub proof fn lemma_idct8_stage4_gain(p: Seq<int>, b: int)
    requires b >= 0, bounded_int(p, 8, b),
    ensures bounded_int(idct8_stage4(p), 8, 2 * b + 1),
{
    reveal(idct8_stage4);
    assert(-b <= p[0] <= b && -b <= p[3] <= b);
    assert(-b <= p[1] <= b && -b <= p[2] <= b);
    assert(-b <= p[1] <= b && -b <= p[2] <= b);
    assert(-b <= p[0] <= b && -b <= p[3] <= b);
    assert(-b <= p[4] <= b);
    assert(-b <= p[5] <= b && -b <= p[6] <= b);
    lemma_btf_bound(-2896, p[5], 2896, p[6], b, b);
    assert(-b <= p[5] <= b && -b <= p[6] <= b);
    lemma_btf_bound(2896, p[5], 2896, p[6], b, b);
    assert(-b <= p[7] <= b);
}

/// Stage 5 of the 8-point inverse DCT on values of at most 67108863.
#[verifier::rlimit(50)]
fn idct8_stage5_exec(p: &[i32; 8]) -> (r: [i32; 8])
    requires bounded(p@, 8, 67108863),
    ensures
        ints(r@) == idct8_stage5(ints(p@)),
        bounded(r@, 8, 134217726),
{
    proof {
        reveal(idct8_stage5);
        assert(-67108863 <= p@[0] <= 67108863);
        assert(-67108863 <= p@[1] <= 67108863);
        assert(-67108863 <= p@[2] <= 67108863);
        assert(-67108863 <= p@[3] <= 67108863);
        assert(-67108863 <= p@[4] <= 67108863);
        assert(-67108863 <= p@[5] <= 67108863);
        assert(-67108863 <= p@[6] <= 67108863);
        assert(-67108863 <= p@[7] <= 67108863);
    }
    let t0: i32 = p[0] + p[7];
    let t1: i32 = p[1] + p[6];
    let t2: i32 = p[2] + p[5];
    let t3: i32 = p[3] + p[4];
    let t4: i32 = p[3] - p[4];
    let t5: i32 = p[2] - p[5];
    let t6: i32 = p[1] - p[6];
    let t7: i32 = p[0] - p[7];
    let r: [i32; 8] = [t0, t1, t2, t3, t4, t5, t6, t7];
    proof {
        assert(r@ =~= seq![t0, t1, t2, t3, t4, t5, t6, t7]);
        assert(ints(r@) =~= idct8_stage5(ints(p@)));
    }
    r
}

/// Stage 5 of the 8-point inverse DCT grows a bound `b` to at most `2 * b + 0`.
pub proof fn lemma_idct8_stage5_gain(p: Seq<int>, b: int)
    requires b >= 0, bounded_int(p, 8, b),
    ensures bounded_int(idct8_stage5(p), 8, 2 * b + 0),
{
    reveal(idct8_stage5);
    assert(-b <= p[0] <= b && -b <= p[7] <= b);
    assert(-b <= p[1] <= b && -b <= p[6] <= b);
    assert(-b <= p[2] <= b && -b <= p[5] <= b);
    assert(-b <= p[3] <= b && -b <= p[4] <= b);
    assert(-b <= p[3] <= b && -b <= p[4] <= b);
    assert(-b <= p[2] <= b && -b <= p[5] <= b);
    assert(-b <= p[1] <= b && -b <= p[6] <= b);
    assert(-b <= p[0] <= b && -b <= p[7] <= b);
}

/// 8-point inverse DCT
pub fn idct8(input: &[i32], output: &mut [i32])
    requires
        input@.len() >= 8,
        old(output)@.len() >= 8,
        bounded(input@, 8, INV_TXFM_INPUT_MAX as int),
    ensures
        final(output)@.len() == old(output)@.len(),
        forall|i: int| 0 <= i < 8 ==> final(output)@[i] == #[trigger] spec_idct8(input@)[i],
        forall|i: int| 8 <= i < old(output)@.len() ==> final(output)@[i] == old(output)@[i],
{
    let s0: [i32; 8] = [input[0], input[1], input[2], input[3], input[4], input[5], input[6], input[7]];
    proof {
        assert(s0@ =~= input@.subrange(0, 8));
    }
    let s1 = idct8_stage1_exec(&s0);
    proof {
        assert(ints(s1@) =~= idct8_stage1(ints(s0@)));
    }
    let s2 = idct8_stage2_exec(&s1);
    proof {
        assert(ints(s2@) =~= idct8_stage2(ints(s1@)));
    }
    let s3 = idct8_stage3_exec(&s2);
    proof {
        assert(ints(s3@) =~= idct8_stage3(ints(s2@)));
    }
    let s4 = idct8_stage4_exec(&s3);
    proof {
        assert(ints(s4@) =~= idct8_stage4(ints(s3@)));
    }
    let s5 = idct8_stage5_exec(&s4);
    proof {
        assert(ints(s5@) =~= idct8_stage5(ints(s4@)));
    }
    proof {
        lemma_idct8_prefix(input@);
    }
    let mut i: usize = 0;
    while i < 8
        invariant
            i <= 8,
            output@.len() == old(output)@.len(),
            old(output)@.len() >= 8,
            ints(s5@) == spec_idct8(input@),
            forall|k: int| 0 <= k < i ==> output@[k] == #[trigger] spec_idct8(input@)[k],
            forall|k: int| 8 <= k < old(output)@.len() ==> output@[k] == old(output)@[k],
        decreases 8 - i,
    {
        output[i] = s5[i];
        proof { assert(ints(s5@)[i as int] == s5@[i as int]); }
        i = i + 1;
    }
}

/// The 8-point inverse DCT reads only the first 8 inputs.
proof fn lemma_idct8_prefix(x: Seq<i32>)
    requires x.len() >= 8,
    ensures spec_idct8(x) == idct8_stage5(idct8_stage4(idct8_stage3(idct8_stage2(idct8_stage1(ints(x.subrange(0, 8))))))),
{
    reveal(idct8_stage1);
    assert(ints(x).subrange(0, 8) =~= ints(x.subrange(0, 8)));
}

/// Each output of [`spec_idct8`] is bounded by the input bound grown stage by stage.
pub proof fn lemma_idct8_gain(x: Seq<i32>, b: int)
    requires b >= 0, bounded(x, 8, b),
    ensures bounded_int(spec_idct8(x), 8, (2 * (2 * (2 * (2 * (1 * b + 0) + 1) + 1) + 1) + 0)),
{
    let p0 = ints(x);
    assert(bounded_int(p0, 8, b));
    lemma_idct8_stage1_gain(p0, b);
    let p1 = idct8_stage1(p0);
    lemma_idct8_stage2_gain(p1, (1 * b + 0));
    let p2 = idct8_stage2(p1);
    lemma_idct8_stage3_gain(p2, (2 * (1 * b + 0) + 1));
    let p3 = idct8_stage3(p2);
    lemma_idct8_stage4_gain(p3, (2 * (2 * (1 * b + 0) + 1) + 1));
    let p4 = idct8_stage4(p3);
    lemma_idct8_stage5_gain(p4, (2 * (2 * (2 * (1 * b + 0) + 1) + 1) + 1));
    let p5 = idct8_stage5(p4);
}

/// Stage 1 of the 16-point inverse DCT.
#[verifier::opaque]
pub open spec fn idct16_stage1(p: Seq<int>) -> Seq<int> {
    seq![
        p[0],
        p[8],
        p[4],
        p[12],
        p[2],
        p[10],
        p[6],
        p[14],
        p[1],
        p[9],
        p[5],
        p[13],
        p[3],
        p[11],
        p[7],
        p[15],
    ]
}

/// Stage 2 of the 16-point inverse DCT.
#[verifier::opaque]
pub open spec fn idct16_stage2(p: Seq<int>) -> Seq<int> {
    seq![
        p[0],
        p[1],
        p[2],
        p[3],
        p[4],
        p[5],
        p[6],
        p[7],
        btf(401, p[8], -4076, p[15]),
        btf(3166, p[9], -2598, p[14]),
        btf(1931, p[10], -3612, p[13]),
        btf(3920, p[11], -1189, p[12]),
        btf(1189, p[11], 3920, p[12]),
        btf(3612, p[10], 1931, p[13]),
        btf(2598, p[9], 3166, p[14]),
        btf(4076, p[8], 401, p[15]),
    ]
}

/// Stage 3 of the 16-point inverse DCT.
#[verifier::opaque]
pub open spec fn idct16_stage3(p: Seq<int>) -> Seq<int> {
    seq![
        p[0],
        p[1],
        p[2],
        p[3],
        btf(799, p[4], -4017, p[7]),
        btf(3406, p[5], -2276, p[6]),
        btf(2276, p[5], 3406, p[6]),
        btf(4017, p[4], 799, p[7]),
        p[8] + p[9],
        p[8] - p[9],
        -p[10] + p[11],
        p[10] + p[11],
        p[12] + p[13],
        p[12] - p[13],
        -p[14] + p[15],
        p[14] + p[15],
    ]
}

/// Stage 4 of the 16-point inverse DCT.
#[verifier::opaque]
pub open spec fn idct16_stage4(p: Seq<int>) -> Seq<int> {
    seq![
        btf(2896, p[0], 2896, p[1]),
        btf(2896, p[0], -2896, p[1]),
        btf(1567, p[2], -3784, p[3]),
        btf(3784, p[2], 1567, p[3]),
        p[4] + p[5],
        p[4] - p[5],
        -p[6] + p[7],
        p[6] + p[7],
        p[8],
        btf(-3784, p[9], 1567, p[14]),
        btf(-1567, p[10], -3784, p[13]),
        p[11],
        p[12],
        btf(-3784, p[10], 1567, p[13]),
        btf(1567, p[9], 3784, p[14]),
        p[15],
    ]
}

/// Stage 5 of the 16-point inverse DCT.
#[verifier::opaque]
pub open spec fn idct16_stage5(p: Seq<int>) -> Seq<int> {
    seq![
        p[0] + p[3],
        p[1] + p[2],
        p[1] - p[2],
        p[0] - p[3],
        p[4],
        btf(-2896, p[5], 2896, p[6]),
        btf(2896, p[5], 2896, p[6]),
        p[7],
        p[8] + p[11],
        p[9] + p[10],
        p[9] - p[10],
        p[8] - p[11],
        -p[12] + p[15],
        -p[13] + p[14],
        p[13] + p[14],
        p[12] + p[15],
    ]
}

/// Stage 6 of the 16-point inverse DCT.
#[verifier::opaque]
pub open spec fn idct16_stage6(p: Seq<int>) -> Seq<int> {
    seq![
        p[0] + p[7],
        p[1] + p[6],
        p[2] + p[5],
        p[3] + p[4],
        p[3] - p[4],
        p[2] - p[5],
        p[1] - p[6],
        p[0] - p[7],
        p[8],
        p[9],
        btf(-2896, p[10], 2896, p[13]),
        btf(-2896, p[11], 2896, p[12]),
        btf(2896, p[11], 2896, p[12]),
        btf(2896, p[10], 2896, p[13]),
        p[14],
        p[15],
    ]
}

/// Stage 7 of the 16-point inverse DCT.
#[verifier::opaque]
pub open spec fn idct16_stage7(p: Seq<int>) -> Seq<int> {
    seq![
        p[0] + p[15],
        p[1] + p[14],
        p[2] + p[13],
        p[3] + p[12],
        p[4] + p[11],
        p[5] + p[10],
        p[6] + p[9],
        p[7] + p[8],
        p[7] - p[8],
        p[6] - p[9],
        p[5] - p[10],
        p[4] - p[11],
        p[3] - p[12],
        p[2] - p[13],
        p[1] - p[14],
        p[0] - p[15],
    ]
}

/// 16-point inverse DCT
pub open spec fn spec_idct16(x: Seq<i32>) -> Seq<int> {
    idct16_stage7(idct16_stage6(idct16_stage5(idct16_stage4(idct16_stage3(idct16_stage2(idct16_stage1(ints(x))))))))
}

/// Stage 1 of the 16-point inverse DCT on values of at most 8388607.
#[verifier::rlimit(50)]
fn idct16_stage1_exec(p: &[i32; 16]) -> (r: [i32; 16])
    requires bounded(p@, 16, 8388607),
    ensures
        ints(r@) == idct16_stage1(ints(p@)),
        bounded(r@, 16, 8388607),
{
    proof {
        reveal(idct16_stage1);
        assert(-8388607 <= p@[0] <= 8388607);
        assert(-8388607 <= p@[1] <= 8388607);
        assert(-8388607 <= p@[2] <= 8388607);
        assert(-8388607 <= p@[3] <= 8388607);
        assert(-8388607 <= p@[4] <= 8388607);
        assert(-8388607 <= p@[5] <= 8388607);
        assert(-8388607 <= p@[6] <= 8388607);
        assert(-8388607 <= p@[7] <= 8388607);
        assert(-8388607 <= p@[8] <= 8388607);
        assert(-8388607 <= p@[9] <= 8388607);
        assert(-8388607 <= p@[10] <= 8388607);
        assert(-8388607 <= p@[11] <= 8388607);
        assert(-8388607 <= p@[12] <= 8388607);
        assert(-8388607 <= p@[13] <= 8388607);
        assert(-8388607 <= p@[14] <= 8388607);
        assert(-8388607 <= p@[15] <= 8388607);
    }
    let t0: i32 = p[0];
    let t1: i32 = p[8];
    let t2: i32 = p[4];
    let t3: i32 = p[12];
    let t4: i32 = p[2];
    let t5: i32 = p[10];
    let t6: i32 = p[6];
    let t7: i32 = p[14];
    let t8: i32 = p[1];
    let t9: i32 = p[9];
    let t10: i32 = p[5];
    let t11: i32 = p[13];
    let t12: i32 = p[3];
    let t13: i32 = p[11];
    let t14: i32 = p[7];
    let t15: i32 = p[15];
    let r: [i32; 16] = [t0, t1, t2, t3, t4, t5, t6, t7, t8, t9, t10, t11, t12, t13, t14, t15];
    proof {
        assert(r@ =~= seq![t0, t1, t2, t3, t4, t5, t6, t7, t8, t9, t10, t11, t12, t13, t14, t15]);
        assert(ints(r@) =~= idct16_stage1(ints(p@)));
    }
    r
}

/// Stage 1 of the 16-point inverse DCT grows a bound `b` to at most `1 * b + 0`.
pub proof fn lemma_idct16_stage1_gain(p: Seq<int>, b: int)
    requires b >= 0, bounded_int(p, 16, b),
    ensures bounded_int(idct16_stage1(p), 16, 1 * b + 0),
{
    reveal(idct16_stage1);
    assert(-b <= p[0] <= b);
    assert(-b <= p[8] <= b);
    assert(-b <= p[4] <= b);
    assert(-b <= p[12] <= b);
    assert(-b <= p[2] <= b);
    assert(-b <= p[10] <= b);
    assert(-b <= p[6] <= b);
    assert(-b <= p[14] <= b);
    assert(-b <= p[1] <= b);
    assert(-b <= p[9] <= b);
    assert(-b <= p[5] <= b);
    assert(-b <= p[13] <= b);
    assert(-b <= p[3] <= b);
    assert(-b <= p[11] <= b);
    assert(-b <= p[7] <= b);
    assert(-b <= p[15] <= b);
}

/// Stage 2 of the 16-point inverse DCT on values of at most 8388607.
#[verifier::rlimit(50)]
fn idct16_stage2_exec(p: &[i32; 16]) -> (r: [i32; 16])
    requires bounded(p@, 16, 8388607),
    ensures
        ints(r@) == idct16_stage2(ints(p@)),
        bounded(r@, 16, 16777215),
{
    proof {
        reveal(idct16_stage2);
        assert(-8388607 <= p@[0] <= 8388607);
        assert(-8388607 <= p@[1] <= 8388607);
        assert(-8388607 <= p@[2] <= 8388607);
        assert(-8388607 <= p@[3] <= 8388607);
        assert(-8388607 <= p@[4] <= 8388607);
        assert(-8388607 <= p@[5] <= 8388607);
        assert(-8388607 <= p@[6] <= 8388607);
        assert(-8388607 <= p@[7] <= 8388607);
        assert(-8388607 <= p@[8] <= 8388607);
        assert(-8388607 <= p@[9] <= 8388607);
        assert(-8388607 <= p@[10] <= 8388607);
        assert(-8388607 <= p@[11] <= 8388607);
        assert(-8388607 <= p@[12] <= 8388607);
        assert(-8388607 <= p@[13] <= 8388607);
        assert(-8388607 <= p@[14] <= 8388607);
        assert(-8388607 <= p@[15] <= 8388607);
    }
    let t0: i32 = p[0];
    let t1: i32 = p[1];
    let t2: i32 = p[2];
    let t3: i32 = p[3];
    let t4: i32 = p[4];
    let t5: i32 = p[5];
    let t6: i32 = p[6];
    let t7: i32 = p[7];
    let t8: i32 = hb(401, p[8], -4076, p[15]);
    let t9: i32 = hb(3166, p[9], -2598, p[14]);
    let t10: i32 = hb(1931, p[10], -3612, p[13]);
    let t11: i32 = hb(3920, p[11], -1189, p[12]);
    let t12: i32 = hb(1189, p[11], 3920, p[12]);
    let t13: i32 = hb(3612, p[10], 1931, p[13]);
    let t14: i32 = hb(2598, p[9], 3166, p[14]);
    let t15: i32 = hb(4076, p[8], 401, p[15]);
    let r: [i32; 16] = [t0, t1, t2, t3, t4, t5, t6, t7, t8, t9, t10, t11, t12, t13, t14, t15];
    proof {
        assert(r@ =~= seq![t0, t1, t2, t3, t4, t5, t6, t7, t8, t9, t10, t11, t12, t13, t14, t15]);
        assert(ints(r@) =~= idct16_stage2(ints(p@)));
    }
    r
}

/// Stage 2 of the 16-point inverse DCT grows a bound `b` to at most `2 * b + 1`.
pub proof fn lemma_idct16_stage2_gain(p: Seq<int>, b: int)
    requires b >= 0, bounded_int(p, 16, b),
    ensures bounded_int(idct16_stage2(p), 16, 2 * b + 1),
{
    reveal(idct16_stage2);
    assert(-b <= p[0] <= b);
    assert(-b <= p[1] <= b);
    assert(-b <= p[2] <= b);
    assert(-b <= p[3] <= b);
    assert(-b <= p[4] <= b);
    assert(-b <= p[5] <= b);
    assert(-b <= p[6] <= b);
    assert(-b <= p[7] <= b);
    assert(-b <= p[8] <= b && -b <= p[15] <= b);
    lemma_btf_bound(401, p[8], -4076, p[15], b, b);
    assert(-b <= p[9] <= b && -b <= p[14] <= b);
    lemma_btf_bound(3166, p[9], -2598, p[14], b, b);
    assert(-b <= p[10] <= b && -b <= p[13] <= b);
    lemma_btf_bound(1931, p[10], -3612, p[13], b, b);
    assert(-b <= p[11] <= b && -b <= p[12] <= b);
    lemma_btf_bound(3920, p[11], -1189, p[12], b, b);
    assert(-b <= p[11] <= b && -b <= p[12] <= b);
    lemma_btf_bound(1189, p[11], 3920, p[12], b, b);
    assert(-b <= p[10] <= b && -b <= p[13] <= b);
    lemma_btf_bound(3612, p[10], 1931, p[13], b, b);
    assert(-b <= p[9] <= b && -b <= p[14] <= b);
    lemma_btf_bound(2598, p[9], 3166, p[14], b, b);
    assert(-b <= p[8] <= b && -b <= p[15] <= b);
    lemma_btf_bound(4076, p[8], 401, p[15], b, b);
}

/// Stage 3 of the 16-point inverse DCT on values of at most 16777215.
#[verifier::rlimit(50)]
fn idct16_stage3_exec(p: &[i32; 16]) -> (r: [i32; 16])
    requires bounded(p@, 16, 16777215),
    ensures
        ints(r@) == idct16_stage3(ints(p@)),
        bounded(r@, 16, 33554431),
{
    proof {
        reveal(idct16_stage3);
        assert(-16777215 <= p@[0] <= 16777215);
        assert(-16777215 <= p@[1] <= 16777215);
        assert(-16777215 <= p@[2] <= 16777215);
        assert(-16777215 <= p@[3] <= 16777215);
        assert(-16777215 <= p@[4] <= 16777215);
        assert(-16777215 <= p@[5] <= 16777215);
        assert(-16777215 <= p@[6] <= 16777215);
        assert(-16777215 <= p@[7] <= 16777215);
        assert(-16777215 <= p@[8] <= 16777215);
        assert(-16777215 <= p@[9] <= 16777215);
        assert(-16777215 <= p@[10] <= 16777215);
        assert(-16777215 <= p@[11] <= 16777215);
        assert(-16777215 <= p@[12] <= 16777215);
        assert(-16777215 <= p@[13] <= 16777215);
        assert(-16777215 <= p@[14] <= 16777215);
        assert(-16777215 <= p@[15] <= 16777215);
    }
    let t0: i32 = p[0];
    let t1: i32 = p[1];
    let t2: i32 = p[2];
    let t3: i32 = p[3];
    let t4: i32 = hb(799, p[4], -4017, p[7]);
    let t5: i32 = hb(3406, p[5], -2276, p[6]);
    let t6: i32 = hb(2276, p[5], 3406, p[6]);
    let t7: i32 = hb(4017, p[4], 799, p[7]);
    let t8: i32 = p[8] + p[9];
    let t9: i32 = p[8] - p[9];
    let t10: i32 = -p[10] + p[11];
    let t11: i32 = p[10] + p[11];
    let t12: i32 = p[12] + p[13];
    let t13: i32 = p[12] - p[13];
    let t14: i32 = -p[14] + p[15];
    let t15: i32 = p[14] + p[15];
    let r: [i32; 16] = [t0, t1, t2, t3, t4, t5, t6, t7, t8, t9, t10, t11, t12, t13, t14, t15];
    proof {
        assert(r@ =~= seq![t0, t1, t2, t3, t4, t5, t6, t7, t8, t9, t10, t11, t12, t13, t14, t15]);
        assert(ints(r@) =~= idct16_stage3(ints(p@)));
    }
    r
}

/// Stage 3 of the 16-point inverse DCT grows a bound `b` to at most `2 * b + 1`.
pub proof fn lemma_idct16_stage3_gain(p: Seq<int>, b: int)
    requires b >= 0, bounded_int(p, 16, b),
    ensures bounded_int(idct16_stage3(p), 16, 2 * b + 1),
{
    reveal(idct16_stage3);
    assert(-b <= p[0] <= b);
    assert(-b <= p[1] <= b);
    assert(-b <= p[2] <= b);
    assert(-b <= p[3] <= b);
    assert(-b <= p[4] <= b && -b <= p[7] <= b);
    lemma_btf_bound(799, p[4], -4017, p[7], b, b);
    assert(-b <= p[5] <= b && -b <= p[6] <= b);
    lemma_btf_bound(3406, p[5], -2276, p[6], b, b);
    assert(-b <= p[5] <= b && -b <= p[6] <= b);
    lemma_btf_bound(2276, p[5], 3406, p[6], b, b);
    assert(-b <= p[4] <= b && -b <= p[7] <= b);
    lemma_btf_bound(4017, p[4], 799, p[7], b, b);
    assert(-b <= p[8] <= b && -b <= p[9] <= b);
    assert(-b <= p[8] <= b && -b <= p[9] <= b);
    assert(-b <= p[10] <= b && -b <= p[11] <= b);
    assert(-b <= p[10] <= b && -b <= p[11] <= b);
    assert(-b <= p[12] <= b && -b <= p[13] <= b);
    assert(-b <= p[12] <= b && -b <= p[13] <= b);
    assert(-b <= p[14] <= b && -b <= p[15] <= b);
    assert(-b <= p[14] <= b && -b <= p[15] <= b);
}

/// Stage 4 of the 16-point inverse DCT on values of at most 33554431.
#[verifier::rlimit(50)]
fn idct16_stage4_exec(p: &[i32; 16]) -> (r: [i32; 16])
    requires bounded(p@, 16, 33554431),
    ensures
        ints(r@) == idct16_stage4(ints(p@)),
        bounded(r@, 16, 67108863),
{
    proof {
        reveal(idct16_stage4);
        assert(-33554431 <= p@[0] <= 33554431);
        assert(-33554431 <= p@[1] <= 33554431);
        assert(-33554431 <= p@[2] <= 33554431);
        assert(-33554431 <= p@[3] <= 33554431);
        assert(-33554431 <= p@[4] <= 33554431);
        assert(-33554431 <= p@[5] <= 33554431);
        assert(-33554431 <= p@[6] <= 33554431);
        assert(-33554431 <= p@[7] <= 33554431);
        assert(-33554431 <= p@[8] <= 33554431);
        assert(-33554431 <= p@[9] <= 33554431);
        assert(-33554431 <= p@[10] <= 33554431);
        assert(-33554431 <= p@[11] <= 33554431);
        assert(-33554431 <= p@[12] <= 33554431);
        assert(-33554431 <= p@[13] <= 33554431);
        assert(-33554431 <= p@[14] <= 33554431);
        assert(-33554431 <= p@[15] <= 33554431);
    }
    let t0: i32 = hb(2896, p[0], 2896, p[1]);
    let t1: i32 = hb(2896, p[0], -2896, p[1]);
    let t2: i32 = hb(1567, p[2], -3784, p[3]);
    let t3: i32 = hb(3784, p[2], 1567, p[3]);
    let t4: i32 = p[4] + p[5];
    let t5: i32 = p[4] - p[5];
    let t6: i32 = -p[6] + p[7];
    let t7: i32 = p[6] + p[7];
    let t8: i32 = p[8];
    let t9: i32 = hb(-3784, p[9], 1567, p[14]);
    let t10: i32 = hb(-1567, p[10], -3784, p[13]);
    let t11: i32 = p[11];
    let t12: i32 = p[12];
    let t13: i32 = hb(-3784, p[10], 1567, p[13]);
    let t14: i32 = hb(1567, p[9], 3784, p[14]);
    let t15: i32 = p[15];
    let r: [i32; 16] = [t0, t1, t2, t3, t4, t5, t6, t7, t8, t9, t10, t11, t12, t13, t14, t15];
    proof {
        assert(r@ =~= seq![t0, t1, t2, t3, t4, t5, t6, t7, t8, t9, t10, t11, t12, t13, t14, t15]);
        assert(ints(r@) =~= idct16_stage4(ints(p@)));
    }
    r
}

/// Stage 4 of the 16-point inverse DCT grows a bound `b` to at most `2 * b + 1`.
pub proof fn lemma_idct16_stage4_gain(p: Seq<int>, b: int)
    requires b >= 0, bounded_int(p, 16, b),
    ensures bounded_int(idct16_stage4(p), 16, 2 * b + 1),
{
    reveal(idct16_stage4);
    assert(-b <= p[0] <= b && -b <= p[1] <= b);
    lemma_btf_bound(2896, p[0], 2896, p[1], b, b);
    assert(-b <= p[0] <= b && -b <= p[1] <= b);
    lemma_btf_bound(2896, p[0], -2896, p[1], b, b);
    assert(-b <= p[2] <= b && -b <= p[3] <= b);
    lemma_btf_bound(1567, p[2], -3784, p[3], b, b);
    assert(-b <= p[2] <= b && -b <= p[3] <= b);
    lemma_btf_bound(3784, p[2], 1567, p[3], b, b);
    assert(-b <= p[4] <= b && -b <= p[5] <= b);
    assert(-b <= p[4] <= b && -b <= p[5] <= b);
    assert(-b <= p[6] <= b && -b <= p[7] <= b);
    assert(-b <= p[6] <= b && -b <= p[7] <= b);
    assert(-b <= p[8] <= b);
    assert(-b <= p[9] <= b && -b <= p[14] <= b);
    lemma_btf_bound(-3784, p[9], 1567, p[14], b, b);
    assert(-b <= p[10] <= b && -b <= p[13] <= b);
    lemma_btf_bound(-1567, p[10], -3784, p[13], b, b);
    assert(-b <= p[11] <= b);
    assert(-b <= p[12] <= b);
    assert(-b <= p[10] <= b && -b <= p[13] <= b);
    lemma_btf_bound(-3784, p[10], 1567, p[13], b, b);
    assert(-b <= p[9] <= b && -b <= p[14] <= b);
    lemma_btf_bound(1567, p[9], 3784, p[14], b, b);
    assert(-b <= p[15] <= b);
}

/// Stage 5 of the 16-point inverse DCT on values of at most 67108863.
#[verifier::rlimit(50)]
fn idct16_stage5_exec(p: &[i32; 16]) -> (r: [i32; 16])
    requires bounded(p@, 16, 67108863),
    ensures
        ints(r@) == idct16_stage5(ints(p@)),
        bounded(r@, 16, 134217727),
{
    proof {
        reveal(idct16_stage5);
        assert(-67108863 <= p@[0] <= 67108863);
        assert(-67108863 <= p@[1] <= 67108863);
        assert(-67108863 <= p@[2] <= 67108863);
        assert(-67108863 <= p@[3] <= 67108863);
        assert(-67108863 <= p@[4] <= 67108863);
        assert(-67108863 <= p@[5] <= 67108863);
        assert(-67108863 <= p@[6] <= 67108863);
        assert(-67108863 <= p@[7] <= 67108863);
        assert(-67108863 <= p@[8] <= 67108863);
        assert(-67108863 <= p@[9] <= 67108863);
        assert(-67108863 <= p@[10] <= 67108863);
        assert(-67108863 <= p@[11] <= 67108863);
        assert(-67108863 <= p@[12] <= 67108863);
        assert(-67108863 <= p@[13] <= 67108863);
        assert(-67108863 <= p@[14] <= 67108863);
        assert(-67108863 <= p@[15] <= 67108863);
    }
    let t0: i32 = p[0] + p[3];
    let t1: i32 = p[1] + p[2];
    let t2: i32 = p[1] - p[2];
    let t3: i32 = p[0] - p[3];
    let t4: i32 = p[4];
    let t5: i32 = hb(-2896, p[5], 2896, p[6]);
    let t6: i32 = hb(2896, p[5], 2896, p[6]);
    let t7: i32 = p[7];
    let t8: i32 = p[8] + p[11];
    let t9: i32 = p[9] + p[10];
    let t10: i32 = p[9] - p[10];
    let t11: i32 = p[8] - p[11];
    let t12: i32 = -p[12] + p[15];
    let t13: i32 = -p[13] + p[14];
    let t14: i32 = p[13] + p[14];
    let t15: i32 = p[12] + p[15];
    let r: [i32; 16] = [t0, t1, t2, t3, t4, t5, t6, t7, t8, t9, t10, t11, t12, t13, t14, t15];
    proof {
        assert(r@ =~= seq![t0, t1, t2, t3, t4, t5, t6, t7, t8, t9, t10, t11, t12, t13, t14, t15]);
        assert(ints(r@) =~= idct16_stage5(ints(p@)));
    }
    r
}

/// Stage 5 of the 16-point inverse DCT grows a bound `b` to at most `2 * b + 1`.
pub proof fn lemma_idct16_stage5_gain(p: Seq<int>, b: int)
    requires b >= 0, bounded_int(p, 16, b),
    ensures bounded_int(idct16_stage5(p), 16, 2 * b + 1),
{
    reveal(idct16_stage5);
    assert(-b <= p[0] <= b && -b <= p[3] <= b);
    assert(-b <= p[1] <= b && -b <= p[2] <= b);
    assert(-b <= p[1] <= b && -b <= p[2] <= b);
    assert(-b <= p[0] <= b && -b <= p[3] <= b);
    assert(-b <= p[4] <= b);
    assert(-b <= p[5] <= b && -b <= p[6] <= b);
    lemma_btf_bound(-2896, p[5], 2896, p[6], b, b);
    assert(-b <= p[5] <= b && -b <= p[6] <= b);
    lemma_btf_bound(2896, p[5], 2896, p[6], b, b);
    assert(-b <= p[7] <= b);
    assert(-b <= p[8] <= b && -b <= p[11] <= b);
    assert(-b <= p[9] <= b && -b <= p[10] <= b);
    assert(-b <= p[9] <= b && -b <= p[10] <= b);
    assert(-b <= p[8] <= b && -b <= p[11] <= b);
    assert(-b <= p[12] <= b && -b <= p[15] <= b);
    assert(-b <= p[13] <= b && -b <= p[14] <= b);
    assert(-b <= p[13] <= b && -b <= p[14] <= b);
    assert(-b <= p[12] <= b && -b <= p[15] <= b);
}

/// Stage 6 of the 16-point inverse DCT on values of at most 134217727.
#[verifier::rlimit(50)]
fn idct16_stage6_exec(p: &[i32; 16]) -> (r: [i32; 16])
    requires bounded(p@, 16, 134217727),
    ensures
        ints(r@) == idct16_stage6(ints(p@)),
        bounded(r@, 16, 268435455),
{
    proof {
        reveal(idct16_stage6);
        assert(-134217727 <= p@[0] <= 134217727);
        assert(-134217727 <= p@[1] <= 134217727);
        assert(-134217727 <= p@[2] <= 134217727);
        assert(-134217727 <= p@[3] <= 134217727);
        assert(-134217727 <= p@[4] <= 134217727);
        assert(-134217727 <= p@[5] <= 134217727);
        assert(-134217727 <= p@[6] <= 134217727);
        assert(-134217727 <= p@[7] <= 134217727);
        assert(-134217727 <= p@[8] <= 134217727);
        assert(-134217727 <= p@[9] <= 134217727);
        assert(-134217727 <= p@[10] <= 134217727);
        assert(-134217727 <= p@[11] <= 134217727);
        assert(-134217727 <= p@[12] <= 134217727);
        assert(-134217727 <= p@[13] <= 134217727);
        assert(-134217727 <= p@[14] <= 134217727);
        assert(-134217727 <= p@[15] <= 134217727);
    }
    let t0: i32 = p[0] + p[7];
    let t1: i32 = p[1] + p[6];
    let t2: i32 = p[2] + p[5];
    let t3: i32 = p[3] + p[4];
    let t4: i32 = p[3] - p[4];
    let t5: i32 = p[2] - p[5];
    let t6: i32 = p[1] - p[6];
    let t7: i32 = p[0] - p[7];
    let t8: i32 = p[8];
    let t9: i32 = p[9];
    let t10: i32 = hb(-2896, p[10], 2896, p[13]);
    let t11: i32 = hb(-2896, p[11], 2896, p[12]);
    let t12: i32 = hb(2896, p[11], 2896, p[12]);
    let t13: i32 = hb(2896, p[10], 2896, p[13]);
    let t14: i32 = p[14];
    let t15: i32 = p[15];
    let r: [i32; 16] = [t0, t1, t2, t3, t4, t5, t6, t7, t8, t9, t10, t11, t12, t13, t14, t15];
    proof {
        assert(r@ =~= seq![t0, t1, t2, t3, t4, t5, t6, t7, t8, t9, t10, t11, t12, t13, t14, t15]);
        assert(ints(r@) =~= idct16_stage6(ints(p@)));
    }
    r
}

/// Stage 6 of the 16-point inverse DCT grows a bound `b` to at most `2 * b + 1`.
pub proof fn lemma_idct16_stage6_gain(p: Seq<int>, b: int)
    requires b >= 0, bounded_int(p, 16, b),
    ensures bounded_int(idct16_stage6(p), 16, 2 * b + 1),
{
    reveal(idct16_stage6);
    assert(-b <= p[0] <= b && -b <= p[7] <= b);
    assert(-b <= p[1] <= b && -b <= p[6] <= b);
    assert(-b <= p[2] <= b && -b <= p[5] <= b);
    assert(-b <= p[3] <= b && -b <= p[4] <= b);
    assert(-b <= p[3] <= b && -b <= p[4] <= b);
    assert(-b <= p[2] <= b && -b <= p[5] <= b);
    assert(-b <= p[1] <= b && -b <= p[6] <= b);
    assert(-b <= p[0] <= b && -b <= p[7] <= b);
    assert(-b <= p[8] <= b);
    assert(-b <= p[9] <= b);
    assert(-b <= p[10] <= b && -b <= p[13] <= b);
    lemma_btf_bound(-2896, p[10], 2896, p[13], b, b);
    assert(-b <= p[11] <= b && -b <= p[12] <= b);
    lemma_btf_bound(-2896, p[11], 2896, p[12], b, b);
    assert(-b <= p[11] <= b && -b <= p[12] <= b);
    lemma_btf_bound(2896, p[11], 2896, p[12], b, b);
    assert(-b <= p[10] <= b && -b <= p[13] <= b);
    lemma_btf_bound(2896, p[10], 2896, p[13], b, b);
    assert(-b <= p[14] <= b);
    assert(-b <= p[15] <= b);
}

/// Stage 7 of the 16-point inverse DCT on values of at most 268435455.
#[verifier::rlimit(50)]
fn idct16_stage7_exec(p: &[i32; 16]) -> (r: [i32; 16])
    requires bounded(p@, 16, 268435455),
    ensures
        ints(r@) == idct16_stage7(ints(p@)),
        bounded(r@, 16, 536870910),
{
    proof {
        reveal(idct16_stage7);
        assert(-268435455 <= p@[0] <= 268435455);
        assert(-268435455 <= p@[1] <= 268435455);
        assert(-268435455 <= p@[2] <= 268435455);
        assert(-268435455 <= p@[3] <= 268435455);
        assert(-268435455 <= p@[4] <= 268435455);
        assert(-268435455 <= p@[5] <= 268435455);
        assert(-268435455 <= p@[6] <= 268435455);
        assert(-268435455 <= p@[7] <= 268435455);
        assert(-268435455 <= p@[8] <= 268435455);
        assert(-268435455 <= p@[9] <= 268435455);
        assert(-268435455 <= p@[10] <= 268435455);
        assert(-268435455 <= p@[11] <= 268435455);
        assert(-268435455 <= p@[12] <= 268435455);
        assert(-268435455 <= p@[13] <= 268435455);
        assert(-268435455 <= p@[14] <= 268435455);
        assert(-268435455 <= p@[15] <= 268435455);
    }
    let t0: i32 = p[0] + p[15];
    let t1: i32 = p[1] + p[14];
    let t2: i32 = p[2] + p[13];
    let t3: i32 = p[3] + p[12];
    let t4: i32 = p[4] + p[11];
    let t5: i32 = p[5] + p[10];
    let t6: i32 = p[6] + p[9];
    let t7: i32 = p[7] + p[8];
    let t8: i32 = p[7] - p[8];
    let t9: i32 = p[6] - p[9];
    let t10: i32 = p[5] - p[10];
    let t11: i32 = p[4] - p[11];
    let t12: i32 = p[3] - p[12];
    let t13: i32 = p[2] - p[13];
    let t14: i32 = p[1] - p[14];
    let t15: i32 = p[0] - p[15];
    let r: [i32; 16] = [t0, t1, t2, t3, t4, t5, t6, t7, t8, t9, t10, t11, t12, t13, t14, t15];
    proof {
        assert(r@ =~= seq![t0, t1, t2, t3, t4, t5, t6, t7, t8, t9, t10, t11, t12, t13, t14, t15]);
        assert(ints(r@) =~= idct16_stage7(ints(p@)));
    }
    r
}

/// Stage 7 of the 16-point inverse DCT grows a bound `b` to at most `2 * b + 0`.
pub proof fn lemma_idct16_stage7_gain(p: Seq<int>, b: int)
    requires b >= 0, bounded_int(p, 16, b),
    ensures bounded_int(idct16_stage7(p), 16, 2 * b + 0),
{
    reveal(idct16_stage7);
    assert(-b <= p[0] <= b && -b <= p[15] <= b);
    assert(-b <= p[1] <= b && -b <= p[14] <= b);
    assert(-b <= p[2] <= b && -b <= p[13] <= b);
    assert(-b <= p[3] <= b && -b <= p[12] <= b);
    assert(-b <= p[4] <= b && -b <= p[11] <= b);
    assert(-b <= p[5] <= b && -b <= p[10] <= b);
    assert(-b <= p[6] <= b && -b <= p[9] <= b);
    assert(-b <= p[7] <= b && -b <= p[8] <= b);
    assert(-b <= p[7] <= b && -b <= p[8] <= b);
    assert(-b <= p[6] <= b && -b <= p[9] <= b);
    assert(-b <= p[5] <= b && -b <= p[10] <= b);
    assert(-b <= p[4] <= b && -b <= p[11] <= b);
    assert(-b <= p[3] <= b && -b <= p[12] <= b);
    assert(-b <= p[2] <= b && -b <= p[13] <= b);
    assert(-b <= p[1] <= b && -b <= p[14] <= b);
    assert(-b <= p[0] <= b && -b <= p[15] <= b);
}

/// 16-point inverse DCT
pub fn idct16(input: &[i32], output: &mut [i32])
    requires
        input@.len() >= 16,
        old(output)@.len() >= 16,
        bounded(input@, 16, INV_TXFM_INPUT_MAX as int),
    ensures
        final(output)@.len() == old(output)@.len(),
        forall|i: int| 0 <= i < 16 ==> final(output)@[i] == #[trigger] spec_idct16(input@)[i],
        forall|i: int| 16 <= i < old(output)@.len() ==> final(output)@[i] == old(output)@[i],
{
    let s0: [i32; 16] = [input[0], input[1], input[2], input[3], input[4], input[5], input[6], input[7], input[8], input[9], input[10], input[11], input[12], input[13], input[14], input[15]];
    proof {
        assert(s0@ =~= input@.subrange(0, 16));
    }
    let s1 = idct16_stage1_exec(&s0);
    proof {
        assert(ints(s1@) =~= idct16_stage1(ints(s0@)));
    }
    let s2 = idct16_stage2_exec(&s1);
    proof {
        assert(ints(s2@) =~= idct16_stage2(ints(s1@)));
    }
    let s3 = idct16_stage3_exec(&s2);
    proof {
        assert(ints(s3@) =~= idct16_stage3(ints(s2@)));
    }
    let s4 = idct16_stage4_exec(&s3);
    proof {
        assert(ints(s4@) =~= idct16_stage4(ints(s3@)));
    }
    let s5 = idct16_stage5_exec(&s4);
    proof {
        assert(ints(s5@) =~= idct16_stage5(ints(s4@)));
    }
    let s6 = idct16_stage6_exec(&s5);
    proof {
        assert(ints(s6@) =~= idct16_stage6(ints(s5@)));
    }
    let s7 = idct16_stage7_exec(&s6);
    proof {
        assert(ints(s7@) =~= idct16_stage7(ints(s6@)));
    }
    proof {
        lemma_idct16_prefix(input@);
    }
    let mut i: usize = 0;
    while i < 16
        invariant
            i <= 16,
            output@.len() == old(output)@.len(),
            old(output)@.len() >= 16,
            ints(s7@) == spec_idct16(input@),
            forall|k: int| 0 <= k < i ==> output@[k] == #[trigger] spec_idct16(input@)[k],
            forall|k: int| 16 <= k < old(output)@.len() ==> output@[k] == old(output)@[k],
        decreases 16 - i,
    {
        output[i] = s7[i];
        proof { assert(ints(s7@)[i as int] == s7@[i as int]); }
        i = i + 1;
    }
}

/// The 16-point inverse DCT reads only the first 16 inputs.
proof fn lemma_idct16_prefix(x: Seq<i32>)
    requires x.len() >= 16,
    ensures spec_idct16(x) == idct16_stage7(idct16_stage6(idct16_stage5(idct16_stage4(idct16_stage3(idct16_stage2(idct16_stage1(ints(x.subrange(0, 16))))))))),
{
    reveal(idct16_stage1);
    assert(ints(x).subrange(0, 16) =~= ints(x.subrange(0, 16)));
}

/// Each output of [`spec_idct16`] is bounded by the input bound grown stage by stage.
pub proof fn lemma_idct16_gain(x: Seq<i32>, b: int)
    requires b >= 0, bounded(x, 16, b),
    ensures bounded_int(spec_idct16(x), 16, (2 * (2 * (2 * (2 * (2 * (2 * (1 * b + 0) + 1) + 1) + 1) + 1) + 1) + 0)),
{
    let p0 = ints(x);
    assert(bounded_int(p0, 16, b));
    lemma_idct16_stage1_gain(p0, b);
    let p1 = idct16_stage1(p0);
    lemma_idct16_stage2_gain(p1, (1 * b + 0));
    let p2 = idct16_stage2(p1);
    lemma_idct16_stage3_gain(p2, (2 * (1 * b + 0) + 1));
    let p3 = idct16_stage3(p2);
    lemma_idct16_stage4_gain(p3, (2 * (2 * (1 * b + 0) + 1) + 1));
    let p4 = idct16_stage4(p3);
    lemma_idct16_stage5_gain(p4, (2 * (2 * (2 * (1 * b + 0) + 1) + 1) + 1));
    let p5 = idct16_stage5(p4);
    lemma_idct16_stage6_gain(p5, (2 * (2 * (2 * (2 * (1 * b + 0) + 1) + 1) + 1) + 1));
    let p6 = idct16_stage6(p5);
    lemma_idct16_stage7_gain(p6, (2 * (2 * (2 * (2 * (2 * (1 * b + 0) + 1) + 1) + 1) + 1) + 1));
    let p7 = idct16_stage7(p6);
}

/// Stage 1 of the 32-point inverse DCT.
#[verifier::opaque]
pub open spec fn idct32_stage1(p: Seq<int>) -> Seq<int> {
    seq![
        p[0],
        p[16],
        p[8],
        p[24],
        p[4],
        p[20],
        p[12],
        p[28],
        p[2],
        p[18],
        p[10],
        p[26],
        p[6],
        p[22],
        p[14],
        p[30],
        p[1],
        p[17],
        p[9],
        p[25],
        p[5],
        p[21],
        p[13],
        p[29],
        p[3],
        p[19],
        p[11],
        p[27],
        p[7],
        p[23],
        p[15],
        p[31],
    ]
}

/// Stage 2 of the 32-point inverse DCT.
#[verifier::opaque]
pub open spec fn idct32_stage2(p: Seq<int>) -> Seq<int> {
    seq![
        p[0],
        p[1],
        p[2],
        p[3],
        p[4],
        p[5],
        p[6],
        p[7],
        p[8],
        p[9],
        p[10],
        p[11],
        p[12],
        p[13],
        p[14],
        p[15],
        btf(201, p[16], -4091, p[31]),
        btf(3035, p[17], -2751, p[30]),
        btf(1751, p[18], -3703, p[29]),
        btf(3857, p[19], -1380, p[28]),
        btf(995, p[20], -3973, p[27]),
        btf(3513, p[21], -2106, p[26]),
        btf(2440, p[22], -3290, p[25]),
        btf(4052, p[23], -601, p[24]),
        btf(601, p[23], 4052, p[24]),
        btf(3290, p[22], 2440, p[25]),
        btf(2106, p[21], 3513, p[26]),
        btf(3973, p[20], 995, p[27]),
        btf(1380, p[19], 3857, p[28]),
        btf(3703, p[18], 1751, p[29]),
        btf(2751, p[17], 3035, p[30]),
        btf(4091, p[16], 201, p[31]),
    ]
}

/// Stage 3 of the 32-point inverse DCT.
#[verifier::opaque]
pub open spec fn idct32_stage3(p: Seq<int>) -> Seq<int> {
    seq![
        p[0],
        p[1],
        p[2],
        p[3],
        p[4],
        p[5],
        p[6],
        p[7],
        btf(401, p[8], -4076, p[15]),
        btf(3166, p[9], -2598, p[14]),
        btf(1931, p[10], -3612, p[13]),
        btf(3920, p[11], -1189, p[12]),
        btf(1189, p[11], 3920, p[12]),
        btf(3612, p[10], 1931, p[13]),
        btf(2598, p[9], 3166, p[14]),
        btf(4076, p[8], 401, p[15]),
        p[16] + p[17],
        p[16] - p[17],
        -p[18] + p[19],
        p[18] + p[19],
        p[20] + p[21],
        p[20] - p[21],
        -p[22] + p[23],
        p[22] + p[23],
        p[24] + p[25],
        p[24] - p[25],
        -p[26] + p[27],
        p[26] + p[27],
        p[28] + p[29],
        p[28] - p[29],
        -p[30] + p[31],
        p[30] + p[31],
    ]
}

/// Stage 4 of the 32-point inverse DCT.
#[verifier::opaque]
pub open spec fn idct32_stage4(p: Seq<int>) -> Seq<int> {
    seq![
        p[0],
        p[1],
        p[2],
        p[3],
        btf(799, p[4], -4017, p[7]),
        btf(3406, p[5], -2276, p[6]),
        btf(2276, p[5], 3406, p[6]),
        btf(4017, p[4], 799, p[7]),
        p[8] + p[9],
        p[8] - p[9],
        -p[10] + p[11],
        p[10] + p[11],
        p[12] + p[13],
        p[12] - p[13],
        -p[14] + p[15],
        p[14] + p[15],
        p[16],
        btf(-4017, p[17], 799, p[30]),
        btf(-799, p[18], -4017, p[29]),
        p[19],
        p[20],
        btf(-2276, p[21], 3406, p[26]),
        btf(-3406, p[22], -2276, p[25]),
        p[23],
        p[24],
        btf(-2276, p[22], 3406, p[25]),
        btf(3406, p[21], 2276, p[26]),
        p[27],
        p[28],
        btf(-4017, p[18], 799, p[29]),
        btf(799, p[17], 4017, p[30]),
        p[31],
    ]
}

/// Stage 5 of the 32-point inverse DCT.
#[verifier::opaque]
pub open spec fn idct32_stage5(p: Seq<int>) -> Seq<int> {
    seq![
        btf(2896, p[0], 2896, p[1]),
        btf(2896, p[0], -2896, p[1]),
        btf(1567, p[2], -3784, p[3]),
        btf(3784, p[2], 1567, p[3]),
        p[4] + p[5],
        p[4] - p[5],
        -p[6] + p[7],
        p[6] + p[7],
        p[8],
        btf(-3784, p[9], 1567, p[14]),
        btf(-1567, p[10], -3784, p[13]),
        p[11],
        p[12],
        btf(-3784, p[10], 1567, p[13]),
        btf(1567, p[9], 3784, p[14]),
        p[15],
        p[16] + p[19],
        p[17] + p[18],
        p[17] - p[18],
        p[16] - p[19],
        -p[20] + p[23],
        -p[21] + p[22],
        p[21] + p[22],
        p[20] + p[23],
        p[24] + p[27],
        p[25] + p[26],
        p[25] - p[26],
        p[24] - p[27],
        -p[28] + p[31],
        -p[29] + p[30],
        p[29] + p[30],
        p[28] + p[31],
    ]
}

/// Stage 6 of the 32-point inverse DCT.
#[verifier::opaque]
pub open spec fn idct32_stage6(p: Seq<int>) -> Seq<int> {
    seq![
        p[0] + p[3],
        p[1] + p[2],
        p[1] - p[2],
        p[0] - p[3],
        p[4],
        btf(-2896, p[5], 2896, p[6]),
        btf(2896, p[5], 2896, p[6]),
        p[7],
        p[8] + p[11],
        p[9] + p[10],
        p[9] - p[10],
        p[8] - p[11],
        -p[12] + p[15],
        -p[13] + p[14],
        p[13] + p[14],
        p[12] + p[15],
        p[16],
        p[17],
        btf(-3784, p[18], 1567, p[29]),
        btf(-3784, p[19], 1567, p[28]),
        btf(-1567, p[20], -3784, p[27]),
        btf(-1567, p[21], -3784, p[26]),
        p[22],
        p[23],
        p[24],
        p[25],
        btf(-3784, p[21], 1567, p[26]),
        btf(-3784, p[20], 1567, p[27]),
        btf(1567, p[19], 3784, p[28]),
        btf(1567, p[18], 3784, p[29]),
        p[30],
        p[31],
    ]
}

/// Stage 7 of the 32-point inverse DCT.
#[verifier::opaque]
pub open spec fn idct32_stage7(p: Seq<int>) -> Seq<int> {
    seq![
        p[0] + p[7],
        p[1] + p[6],
        p[2] + p[5],
        p[3] + p[4],
        p[3] - p[4],
        p[2] - p[5],
        p[1] - p[6],
        p[0] - p[7],
        p[8],
        p[9],
        btf(-2896, p[10], 2896, p[13]),
        btf(-2896, p[11], 2896, p[12]),
        btf(2896, p[11], 2896, p[12]),
        btf(2896, p[10], 2896, p[13]),
        p[14],
        p[15],
        p[16] + p[23],
        p[17] + p[22],
        p[18] + p[21],
        p[19] + p[20],
        p[19] - p[20],
        p[18] - p[21],
        p[17] - p[22],
        p[16] - p[23],
        -p[24] + p[31],
        -p[25] + p[30],
        -p[26] + p[29],
        -p[27] + p[28],
        p[27] + p[28],
        p[26] + p[29],
        p[25] + p[30],
        p[24] + p[31],
    ]
}

/// Stage 8 of the 32-point inverse DCT.
#[verifier::opaque]
pub open spec fn idct32_stage8(p: Seq<int>) -> Seq<int> {
    seq![
        p[0] + p[15],
        p[1] + p[14],
        p[2] + p[13],
        p[3] + p[12],
        p[4] + p[11],
        p[5] + p[10],
        p[6] + p[9],
        p[7] + p[8],
        p[7] - p[8],
        p[6] - p[9],
        p[5] - p[10],
        p[4] - p[11],
        p[3] - p[12],
        p[2] - p[13],
        p[1] - p[14],
        p[0] - p[15],
        p[16],
        p[17],
        p[18],
        p[19],
        btf(-2896, p[20], 2896, p[27]),
        btf(-2896, p[21], 2896, p[26]),
        btf(-2896, p[22], 2896, p[25]),
        btf(-2896, p[23], 2896, p[24]),
        btf(2896, p[23], 2896, p[24]),
        btf(2896, p[22], 2896, p[25]),
        btf(2896, p[21], 2896, p[26]),
        btf(2896, p[20], 2896, p[27]),
        p[28],
        p[29],
        p[30],
        p[31],
    ]
}

/// Stage 9 of the 32-point inverse DCT.
#[verifier::opaque]
pub open spec fn idct32_stage9(p: Seq<int>) -> Seq<int> {
    seq![
        p[0] + p[31],
        p[1] + p[30],
        p[2] + p[29],
        p[3] + p[28],
        p[4] + p[27],
        p[5] + p[26],
        p[6] + p[25],
        p[7] + p[24],
        p[8] + p[23],
        p[9] + p[22],
        p[10] + p[21],
        p[11] + p[20],
        p[12] + p[19],
        p[13] + p[18],
        p[14] + p[17],
        p[15] + p[16],
        p[15] - p[16],
        p[14] - p[17],
        p[13] - p[18],
        p[12] - p[19],
        p[11] - p[20],
        p[10] - p[21],
        p[9] - p[22],
        p[8] - p[23],
        p[7] - p[24],
        p[6] - p[25],
        p[5] - p[26],
        p[4] - p[27],
        p[3] - p[28],
        p[2] - p[29],
        p[1] - p[30],
        p[0] - p[31],
    ]
}

/// 32-point inverse DCT
pub open spec fn spec_idct32(x: Seq<i32>) -> Seq<int> {
    idct32_stage9(idct32_stage8(idct32_stage7(idct32_stage6(idct32_stage5(idct32_stage4(idct32_stage3(idct32_stage2(idct32_stage1(ints(x))))))))))
}

/// Stage 1 of the 32-point inverse DCT on values of at most 8388607.
#[verifier::rlimit(50)]
fn idct32_stage1_exec(p: &[i32; 32]) -> (r: [i32; 32])
    requires bounded(p@, 32, 8388607),
    ensures
        ints(r@) == idct32_stage1(ints(p@)),
        bounded(r@, 32, 8388607),
{
    proof {
        reveal(idct32_stage1);
        assert(-8388607 <= p@[0] <= 8388607);
        assert(-8388607 <= p@[1] <= 8388607);
        assert(-8388607 <= p@[2] <= 8388607);
        assert(-8388607 <= p@[3] <= 8388607);
        assert(-8388607 <= p@[4] <= 8388607);
        assert(-8388607 <= p@[5] <= 8388607);
        assert(-8388607 <= p@[6] <= 8388607);
        assert(-8388607 <= p@[7] <= 8388607);
        assert(-8388607 <= p@[8] <= 8388607);
        assert(-8388607 <= p@[9] <= 8388607);
        assert(-8388607 <= p@[10] <= 8388607);
        assert(-8388607 <= p@[11] <= 8388607);
        assert(-8388607 <= p@[12] <= 8388607);
        assert(-8388607 <= p@[13] <= 8388607);
        assert(-8388607 <= p@[14] <= 8388607);
        assert(-8388607 <= p@[15] <= 8388607);
        assert(-8388607 <= p@[16] <= 8388607);
        assert(-8388607 <= p@[17] <= 8388607);
        assert(-8388607 <= p@[18] <= 8388607);
        assert(-8388607 <= p@[19] <= 8388607);
        assert(-8388607 <= p@[20] <= 8388607);
        assert(-8388607 <= p@[21] <= 8388607);
        assert(-8388607 <= p@[22] <= 8388607);
        assert(-8388607 <= p@[23] <= 8388607);
        assert(-8388607 <= p@[24] <= 8388607);
        assert(-8388607 <= p@[25] <= 8388607);
        assert(-8388607 <= p@[26] <= 8388607);
        assert(-8388607 <= p@[27] <= 8388607);
        assert(-8388607 <= p@[28] <= 8388607);
        assert(-8388607 <= p@[29] <= 8388607);
        assert(-8388607 <= p@[30] <= 8388607);
        assert(-8388607 <= p@[31] <= 8388607);
    }
    let t0: i32 = p[0];
    let t1: i32 = p[16];
    let t2: i32 = p[8];
    let t3: i32 = p[24];
    let t4: i32 = p[4];
    let t5: i32 = p[20];
    let t6: i32 = p[12];
    let t7: i32 = p[28];
    let t8: i32 = p[2];
    let t9: i32 = p[18];
    let t10: i32 = p[10];
    let t11: i32 = p[26];
    let t12: i32 = p[6];
    let t13: i32 = p[22];
    let t14: i32 = p[14];
    let t15: i32 = p[30];
    let t16: i32 = p[1];
    let t17: i32 = p[17];
    let t18: i32 = p[9];
    let t19: i32 = p[25];
    let t20: i32 = p[5];
    let t21: i32 = p[21];
    let t22: i32 = p[13];
    let t23: i32 = p[29];
    let t24: i32 = p[3];
    let t25: i32 = p[19];
    let t26: i32 = p[11];
    let t27: i32 = p[27];
    let t28: i32 = p[7];
    let t29: i32 = p[23];
    let t30: i32 = p[15];
    let t31: i32 = p[31];
    let r: [i32; 32] = [t0, t1, t2, t3, t4, t5, t6, t7, t8, t9, t10, t11, t12, t13, t14, t15, t16, t17, t18, t19, t20, t21, t22, t23, t24, t25, t26, t27, t28, t29, t30, t31];
    proof {
        assert(r@ =~= seq![t0, t1, t2, t3, t4, t5, t6, t7, t8, t9, t10, t11, t12, t13, t14, t15, t16, t17, t18, t19, t20, t21, t22, t23, t24, t25, t26, t27, t28, t29, t30, t31]);
        assert(ints(r@) =~= idct32_stage1(ints(p@)));
    }
    r
}

/// Stage 1 of the 32-point inverse DCT grows a bound `b` to at most `1 * b + 0`.
pub proof fn lemma_idct32_stage1_gain(p: Seq<int>, b: int)
    requires b >= 0, bounded_int(p, 32, b),
    ensures bounded_int(idct32_stage1(p), 32, 1 * b + 0),
{
    reveal(idct32_stage1);
    assert(-b <= p[0] <= b);
    assert(-b <= p[16] <= b);
    assert(-b <= p[8] <= b);
    assert(-b <= p[24] <= b);
    assert(-b <= p[4] <= b);
    assert(-b <= p[20] <= b);
    assert(-b <= p[12] <= b);
    assert(-b <= p[28] <= b);
    assert(-b <= p[2] <= b);
    assert(-b <= p[18] <= b);
    assert(-b <= p[10] <= b);
    assert(-b <= p[26] <= b);
    assert(-b <= p[6] <= b);
    assert(-b <= p[22] <= b);
    assert(-b <= p[14] <= b);
    assert(-b <= p[30] <= b);
    assert(-b <= p[1] <= b);
    assert(-b <= p[17] <= b);
    assert(-b <= p[9] <= b);
    assert(-b <= p[25] <= b);
    assert(-b <= p[5] <= b);
    assert(-b <= p[21] <= b);
    assert(-b <= p[13] <= b);
    assert(-b <= p[29] <= b);
    assert(-b <= p[3] <= b);
    assert(-b <= p[19] <= b);
    assert(-b <= p[11] <= b);
    assert(-b <= p[27] <= b);
    assert(-b <= p[7] <= b);
    assert(-b <= p[23] <= b);
    assert(-b <= p[15] <= b);
    assert(-b <= p[31] <= b);
}

/// Stage 2 of the 32-point inverse DCT on values of at most 8388607.
#[verifier::rlimit(50)]
fn idct32_stage2_exec(p: &[i32; 32]) -> (r: [i32; 32])
    requires bounded(p@, 32, 8388607),
    ensures
        ints(r@) == idct32_stage2(ints(p@)),
        bounded(r@, 32, 16777215),
{
    proof {
        reveal(idct32_stage2);
        assert(-8388607 <= p@[0] <= 8388607);
        assert(-8388607 <= p@[1] <= 8388607);
        assert(-8388607 <= p@[2] <= 8388607);
        assert(-8388607 <= p@[3] <= 8388607);
        assert(-8388607 <= p@[4] <= 8388607);
        assert(-8388607 <= p@[5] <= 8388607);
        assert(-8388607 <= p@[6] <= 8388607);
        assert(-8388607 <= p@[7] <= 8388607);
        assert(-8388607 <= p@[8] <= 8388607);
        assert(-8388607 <= p@[9] <= 8388607);
        assert(-8388607 <= p@[10] <= 8388607);
        assert(-8388607 <= p@[11] <= 8388607);
        assert(-8388607 <= p@[12] <= 8388607);
        assert(-8388607 <= p@[13] <= 8388607);
        assert(-8388607 <= p@[14] <= 8388607);
        assert(-8388607 <= p@[15] <= 8388607);
        assert(-8388607 <= p@[16] <= 8388607);
        assert(-8388607 <= p@[17] <= 8388607);
        assert(-8388607 <= p@[18] <= 8388607);
        assert(-8388607 <= p@[19] <= 8388607);
        assert(-8388607 <= p@[20] <= 8388607);
        assert(-8388607 <= p@[21] <= 8388607);
        assert(-8388607 <= p@[22] <= 8388607);
        assert(-8388607 <= p@[23] <= 8388607);
        assert(-8388607 <= p@[24] <= 8388607);
        assert(-8388607 <= p@[25] <= 8388607);
        assert(-8388607 <= p@[26] <= 8388607);
        assert(-8388607 <= p@[27] <= 8388607);
        assert(-8388607 <= p@[28] <= 8388607);
        assert(-8388607 <= p@[29] <= 8388607);
        assert(-8388607 <= p@[30] <= 8388607);
        assert(-8388607 <= p@[31] <= 8388607);
    }
    let t0: i32 = p[0];
    let t1: i32 = p[1];
    let t2: i32 = p[2];
    let t3: i32 = p[3];
    let t4: i32 = p[4];
    let t5: i32 = p[5];
    let t6: i32 = p[6];
    let t7: i32 = p[7];
    let t8: i32 = p[8];
    let t9: i32 = p[9];
    let t10: i32 = p[10];
    let t11: i32 = p[11];
    let t12: i32 = p[12];
    let t13: i32 = p[13];
    let t14: i32 = p[14];
    let t15: i32 = p[15];
    let t16: i32 = hb(201, p[16], -4091, p[31]);
    let t17: i32 = hb(3035, p[17], -2751, p[30]);
    let t18: i32 = hb(1751, p[18], -3703, p[29]);
    let t19: i32 = hb(3857, p[19], -1380, p[28]);
    let t20: i32 = hb(995, p[20], -3973, p[27]);
    let t21: i32 = hb(3513, p[21], -2106, p[26]);
    let t22: i32 = hb(2440, p[22], -3290, p[25]);
    let t23: i32 = hb(4052, p[23], -601, p[24]);
    let t24: i32 = hb(601, p[23], 4052, p[24]);
    let t25: i32 = hb(3290, p[22], 2440, p[25]);
    let t26: i32 = hb(2106, p[21], 3513, p[26]);
    let t27: i32 = hb(3973, p[20], 995, p[27]);
    let t28: i32 = hb(1380, p[19], 3857, p[28]);
    let t29: i32 = hb(3703, p[18], 1751, p[29]);
    let t30: i32 = hb(2751, p[17], 3035, p[30]);
    let t31: i32 = hb(4091, p[16], 201, p[31]);
    let r: [i32; 32] = [t0, t1, t2, t3, t4, t5, t6, t7, t8, t9, t10, t11, t12, t13, t14, t15, t16, t17, t18, t19, t20, t21, t22, t23, t24, t25, t26, t27, t28, t29, t30, t31];
    proof {
        assert(r@ =~= seq![t0, t1, t2, t3, t4, t5, t6, t7, t8, t9, t10, t11, t12, t13, t14, t15, t16, t17, t18, t19, t20, t21, t22, t23, t24, t25, t26, t27, t28, t29, t30, t31]);
        assert(ints(r@) =~= idct32_stage2(ints(p@)));
    }
    r
}

/// Stage 2 of the 32-point inverse DCT grows a bound `b` to at most `2 * b + 1`.
pub proof fn lemma_idct32_stage2_gain(p: Seq<int>, b: int)
    requires b >= 0, bounded_int(p, 32, b),
    ensures bounded_int(idct32_stage2(p), 32, 2 * b + 1),
{
    reveal(idct32_stage2);
    assert(-b <= p[0] <= b);
    assert(-b <= p[1] <= b);
    assert(-b <= p[2] <= b);
    assert(-b <= p[3] <= b);
    assert(-b <= p[4] <= b);
    assert(-b <= p[5] <= b);
    assert(-b <= p[6] <= b);
    assert(-b <= p[7] <= b);
    assert(-b <= p[8] <= b);
    assert(-b <= p[9] <= b);
    assert(-b <= p[10] <= b);
    assert(-b <= p[11] <= b);
    assert(-b <= p[12] <= b);
    assert(-b <= p[13] <= b);
    assert(-b <= p[14] <= b);
    assert(-b <= p[15] <= b);
    assert(-b <= p[16] <= b && -b <= p[31] <= b);
    lemma_btf_bound(201, p[16], -4091, p[31], b, b);
    assert(-b <= p[17] <= b && -b <= p[30] <= b);
    lemma_btf_bound(3035, p[17], -2751, p[30], b, b);
    assert(-b <= p[18] <= b && -b <= p[29] <= b);
    lemma_btf_bound(1751, p[18], -3703, p[29], b, b);
    assert(-b <= p[19] <= b && -b <= p[28] <= b);
    lemma_btf_bound(3857, p[19], -1380, p[28], b, b);
    assert(-b <= p[20] <= b && -b <= p[27] <= b);
    lemma_btf_bound(995, p[20], -3973, p[27], b, b);
    assert(-b <= p[21] <= b && -b <= p[26] <= b);
    lemma_btf_bound(3513, p[21], -2106, p[26], b, b);
    assert(-b <= p[22] <= b && -b <= p[25] <= b);
    lemma_btf_bound(2440, p[22], -3290, p[25], b, b);
    assert(-b <= p[23] <= b && -b <= p[24] <= b);
    lemma_btf_bound(4052, p[23], -601, p[24], b, b);
    assert(-b <= p[23] <= b && -b <= p[24] <= b);
    lemma_btf_bound(601, p[23], 4052, p[24], b, b);
    assert(-b <= p[22] <= b && -b <= p[25] <= b);
    lemma_btf_bound(3290, p[22], 2440, p[25], b, b);
    assert(-b <= p[21] <= b && -b <= p[26] <= b);
    lemma_btf_bound(2106, p[21], 3513, p[26], b, b);
    assert(-b <= p[20] <= b && -b <= p[27] <= b);
    lemma_btf_bound(3973, p[20], 995, p[27], b, b);
    assert(-b <= p[19] <= b && -b <= p[28] <= b);
    lemma_btf_bound(1380, p[19], 3857, p[28], b, b);
    assert(-b <= p[18] <= b && -b <= p[29] <= b);
    lemma_btf_bound(3703, p[18], 1751, p[29], b, b);
    assert(-b <= p[17] <= b && -b <= p[30] <= b);
    lemma_btf_bound(2751, p[17], 3035, p[30], b, b);
    assert(-b <= p[16] <= b && -b <= p[31] <= b);
    lemma_btf_bound(4091, p[16], 201, p[31], b, b);
}

/// Stage 3 of the 32-point inverse DCT on values of at most 16777215.
#[verifier::rlimit(50)]
fn idct32_stage3_exec(p: &[i32; 32]) -> (r: [i32; 32])
    requires bounded(p@, 32, 16777215),
    ensures
        ints(r@) == idct32_stage3(ints(p@)),
        bounded(r@, 32, 33554431),
{
    proof {
        reveal(idct32_stage3);
        assert(-16777215 <= p@[0] <= 16777215);
        assert(-16777215 <= p@[1] <= 16777215);
        assert(-16777215 <= p@[2] <= 16777215);
        assert(-16777215 <= p@[3] <= 16777215);
        assert(-16777215 <= p@[4] <= 16777215);
        assert(-16777215 <= p@[5] <= 16777215);
        assert(-16777215 <= p@[6] <= 16777215);
        assert(-16777215 <= p@[7] <= 16777215);
        assert(-16777215 <= p@[8] <= 16777215);
        assert(-16777215 <= p@[9] <= 16777215);
        assert(-16777215 <= p@[10] <= 16777215);
        assert(-16777215 <= p@[11] <= 16777215);
        assert(-16777215 <= p@[12] <= 16777215);
        assert(-16777215 <= p@[13] <= 16777215);
        assert(-16777215 <= p@[14] <= 16777215);
        assert(-16777215 <= p@[15] <= 16777215);
        assert(-16777215 <= p@[16] <= 16777215);
        assert(-16777215 <= p@[17] <= 16777215);
        assert(-16777215 <= p@[18] <= 16777215);
        assert(-16777215 <= p@[19] <= 16777215);
        assert(-16777215 <= p@[20] <= 16777215);
        assert(-16777215 <= p@[21] <= 16777215);
        assert(-16777215 <= p@[22] <= 16777215);
        assert(-16777215 <= p@[23] <= 16777215);
        assert(-16777215 <= p@[24] <= 16777215);
        assert(-16777215 <= p@[25] <= 16777215);
        assert(-16777215 <= p@[26] <= 16777215);
        assert(-16777215 <= p@[27] <= 16777215);
        assert(-16777215 <= p@[28] <= 16777215);
        assert(-16777215 <= p@[29] <= 16777215);
        assert(-16777215 <= p@[30] <= 16777215);
        assert(-16777215 <= p@[31] <= 16777215);
    }
    let t0: i32 = p[0];
    let t1: i32 = p[1];
    let t2: i32 = p[2];
    let t3: i32 = p[3];
    let t4: i32 = p[4];
    let t5: i32 = p[5];
    let t6: i32 = p[6];
    let t7: i32 = p[7];
    let t8: i32 = hb(401, p[8], -4076, p[15]);
    let t9: i32 = hb(3166, p[9], -2598, p[14]);
    let t10: i32 = hb(1931, p[10], -3612, p[13]);
    let t11: i32 = hb(3920, p[11], -1189, p[12]);
    let t12: i32 = hb(1189, p[11], 3920, p[12]);
    let t13: i32 = hb(3612, p[10], 1931, p[13]);
    let t14: i32 = hb(2598, p[9], 3166, p[14]);
    let t15: i32 = hb(4076, p[8], 401, p[15]);
    let t16: i32 = p[16] + p[17];
    let t17: i32 = p[16] - p[17];
    let t18: i32 = -p[18] + p[19];
    let t19: i32 = p[18] + p[19];
    let t20: i32 = p[20] + p[21];
    let t21: i32 = p[20] - p[21];
    let t22: i32 = -p[22] + p[23];
    let t23: i32 = p[22] + p[23];
    let t24: i32 = p[24] + p[25];
    let t25: i32 = p[24] - p[25];
    let t26: i32 = -p[26] + p[27];
    let t27: i32 = p[26] + p[27];
    let t28: i32 = p[28] + p[29];
    let t29: i32 = p[28] - p[29];
    let t30: i32 = -p[30] + p[31];
    let t31: i32 = p[30] + p[31];
    let r: [i32; 32] = [t0, t1, t2, t3, t4, t5, t6, t7, t8, t9, t10, t11, t12, t13, t14, t15, t16, t17, t18, t19, t20, t21, t22, t23, t24, t25, t26, t27, t28, t29, t30, t31];
    proof {
        assert(r@ =~= seq![t0, t1, t2, t3, t4, t5, t6, t7, t8, t9, t10, t11, t12, t13, t14, t15, t16, t17, t18, t19, t20, t21, t22, t23, t24, t25, t26, t27, t28, t29, t30, t31]);
        assert(ints(r@) =~= idct32_stage3(ints(p@)));
    }
    r
}

/// Stage 3 of the 32-point inverse DCT grows a bound `b` to at most `2 * b + 1`.
pub proof fn lemma_idct32_stage3_gain(p: Seq<int>, b: int)
    requires b >= 0, bounded_int(p, 32, b),
    ensures bounded_int(idct32_stage3(p), 32, 2 * b + 1),
{
    reveal(idct32_stage3);
    assert(-b <= p[0] <= b);
    assert(-b <= p[1] <= b);
    assert(-b <= p[2] <= b);
    assert(-b <= p[3] <= b);
    assert(-b <= p[4] <= b);
    assert(-b <= p[5] <= b);
    assert(-b <= p[6] <= b);
    assert(-b <= p[7] <= b);
    assert(-b <= p[8] <= b && -b <= p[15] <= b);
    lemma_btf_bound(401, p[8], -4076, p[15], b, b);
    assert(-b <= p[9] <= b && -b <= p[14] <= b);
    lemma_btf_bound(3166, p[9], -2598, p[14], b, b);
    assert(-b <= p[10] <= b && -b <= p[13] <= b);
    lemma_btf_bound(1931, p[10], -3612, p[13], b, b);
    assert(-b <= p[11] <= b && -b <= p[12] <= b);
    lemma_btf_bound(3920, p[11], -1189, p[12], b, b);
    assert(-b <= p[11] <= b && -b <= p[12] <= b);
    lemma_btf_bound(1189, p[11], 3920, p[12], b, b);
    assert(-b <= p[10] <= b && -b <= p[13] <= b);
    lemma_btf_bound(3612, p[10], 1931, p[13], b, b);
    assert(-b <= p[9] <= b && -b <= p[14] <= b);
    lemma_btf_bound(2598, p[9], 3166, p[14], b, b);
    assert(-b <= p[8] <= b && -b <= p[15] <= b);
    lemma_btf_bound(4076, p[8], 401, p[15], b, b);
    assert(-b <= p[16] <= b && -b <= p[17] <= b);
    assert(-b <= p[16] <= b && -b <= p[17] <= b);
    assert(-b <= p[18] <= b && -b <= p[19] <= b);
    assert(-b <= p[18] <= b && -b <= p[19] <= b);
    assert(-b <= p[20] <= b && -b <= p[21] <= b);
    assert(-b <= p[20] <= b && -b <= p[21] <= b);
    assert(-b <= p[22] <= b && -b <= p[23] <= b);
    assert(-b <= p[22] <= b && -b <= p[23] <= b);
    assert(-b <= p[24] <= b && -b <= p[25] <= b);
    assert(-b <= p[24] <= b && -b <= p[25] <= b);
    assert(-b <= p[26] <= b && -b <= p[27] <= b);
    assert(-b <= p[26] <= b && -b <= p[27] <= b);
    assert(-b <= p[28] <= b && -b <= p[29] <= b);
    assert(-b <= p[28] <= b && -b <= p[29] <= b);
    assert(-b <= p[30] <= b && -b <= p[31] <= b);
    assert(-b <= p[30] <= b && -b <= p[31] <= b);
}

/// Stage 4 of the 32-point inverse DCT on values of at most 33554431.
#[verifier::rlimit(50)]
fn idct32_stage4_exec(p: &[i32; 32]) -> (r: [i32; 32])
    requires bounded(p@, 32, 33554431),
    ensures
        ints(r@) == idct32_stage4(ints(p@)),
        bounded(r@, 32, 67108863),
{
    proof {
        reveal(idct32_stage4);
        assert(-33554431 <= p@[0] <= 33554431);
        assert(-33554431 <= p@[1] <= 33554431);
        assert(-33554431 <= p@[2] <= 33554431);
        assert(-33554431 <= p@[3] <= 33554431);
        assert(-33554431 <= p@[4] <= 33554431);
        assert(-33554431 <= p@[5] <= 33554431);
        assert(-33554431 <= p@[6] <= 33554431);
        assert(-33554431 <= p@[7] <= 33554431);
        assert(-33554431 <= p@[8] <= 33554431);
        assert(-33554431 <= p@[9] <= 33554431);
        assert(-33554431 <= p@[10] <= 33554431);
        assert(-33554431 <= p@[11] <= 33554431);
        assert(-33554431 <= p@[12] <= 33554431);
        assert(-33554431 <= p@[13] <= 33554431);
        assert(-33554431 <= p@[14] <= 33554431);
        assert(-33554431 <= p@[15] <= 33554431);
        assert(-33554431 <= p@[16] <= 33554431);
        assert(-33554431 <= p@[17] <= 33554431);
        assert(-33554431 <= p@[18] <= 33554431);
        assert(-33554431 <= p@[19] <= 33554431);
        assert(-33554431 <= p@[20] <= 33554431);
        assert(-33554431 <= p@[21] <= 33554431);
        assert(-33554431 <= p@[22] <= 33554431);
        assert(-33554431 <= p@[23] <= 33554431);
        assert(-33554431 <= p@[24] <= 33554431);
        assert(-33554431 <= p@[25] <= 33554431);
        assert(-33554431 <= p@[26] <= 33554431);
        assert(-33554431 <= p@[27] <= 33554431);
        assert(-33554431 <= p@[28] <= 33554431);
        assert(-33554431 <= p@[29] <= 33554431);
        assert(-33554431 <= p@[30] <= 33554431);
        assert(-33554431 <= p@[31] <= 33554431);
    }
    let t0: i32 = p[0];
    let t1: i32 = p[1];
    let t2: i32 = p[2];
    let t3: i32 = p[3];
    let t4: i32 = hb(799, p[4], -4017, p[7]);
    let t5: i32 = hb(3406, p[5], -2276, p[6]);
    let t6: i32 = hb(2276, p[5], 3406, p[6]);
    let t7: i32 = hb(4017, p[4], 799, p[7]);
    let t8: i32 = p[8] + p[9];
    let t9: i32 = p[8] - p[9];
    let t10: i32 = -p[10] + p[11];
    let t11: i32 = p[10] + p[11];
    let t12: i32 = p[12] + p[13];
    let t13: i32 = p[12] - p[13];
    let t14: i32 = -p[14] + p[15];
    let t15: i32 = p[14] + p[15];
    let t16: i32 = p[16];
    let t17: i32 = hb(-4017, p[17], 799, p[30]);
    let t18: i32 = hb(-799, p[18], -4017, p[29]);
    let t19: i32 = p[19];
    let t20: i32 = p[20];
    let t21: i32 = hb(-2276, p[21], 3406, p[26]);
    let t22: i32 = hb(-3406, p[22], -2276, p[25]);
    let t23: i32 = p[23];
    let t24: i32 = p[24];
    let t25: i32 = hb(-2276, p[22], 3406, p[25]);
    let t26: i32 = hb(3406, p[21], 2276, p[26]);
    let t27: i32 = p[27];
    let t28: i32 = p[28];
    let t29: i32 = hb(-4017, p[18], 799, p[29]);
    let t30: i32 = hb(799, p[17], 4017, p[30]);
    let t31: i32 = p[31];
    let r: [i32; 32] = [t0, t1, t2, t3, t4, t5, t6, t7, t8, t9, t10, t11, t12, t13, t14, t15, t16, t17, t18, t19, t20, t21, t22, t23, t24, t25, t26, t27, t28, t29, t30, t31];
    proof {
        assert(r@ =~= seq![t0, t1, t2, t3, t4, t5, t6, t7, t8, t9, t10, t11, t12, t13, t14, t15, t16, t17, t18, t19, t20, t21, t22, t23, t24, t25, t26, t27, t28, t29, t30, t31]);
        assert(ints(r@) =~= idct32_stage4(ints(p@)));
    }
    r
}

/// Stage 4 of the 32-point inverse DCT grows a bound `b` to at most `2 * b + 1`.
pub proof fn lemma_idct32_stage4_gain(p: Seq<int>, b: int)
    requires b >= 0, bounded_int(p, 32, b),
    ensures bounded_int(idct32_stage4(p), 32, 2 * b + 1),
{
    reveal(idct32_stage4);
    assert(-b <= p[0] <= b);
    assert(-b <= p[1] <= b);
    assert(-b <= p[2] <= b);
    assert(-b <= p[3] <= b);
    assert(-b <= p[4] <= b && -b <= p[7] <= b);
    lemma_btf_bound(799, p[4], -4017, p[7], b, b);
    assert(-b <= p[5] <= b && -b <= p[6] <= b);
    lemma_btf_bound(3406, p[5], -2276, p[6], b, b);
    assert(-b <= p[5] <= b && -b <= p[6] <= b);
    lemma_btf_bound(2276, p[5], 3406, p[6], b, b);
    assert(-b <= p[4] <= b && -b <= p[7] <= b);
    lemma_btf_bound(4017, p[4], 799, p[7], b, b);
    assert(-b <= p[8] <= b && -b <= p[9] <= b);
    assert(-b <= p[8] <= b && -b <= p[9] <= b);
    assert(-b <= p[10] <= b && -b <= p[11] <= b);
    assert(-b <= p[10] <= b && -b <= p[11] <= b);
    assert(-b <= p[12] <= b && -b <= p[13] <= b);
    assert(-b <= p[12] <= b && -b <= p[13] <= b);
    assert(-b <= p[14] <= b && -b <= p[15] <= b);
    assert(-b <= p[14] <= b && -b <= p[15] <= b);
    assert(-b <= p[16] <= b);
    assert(-b <= p[17] <= b && -b <= p[30] <= b);
    lemma_btf_bound(-4017, p[17], 799, p[30], b, b);
    assert(-b <= p[18] <= b && -b <= p[29] <= b);
    lemma_btf_bound(-799, p[18], -4017, p[29], b, b);
    assert(-b <= p[19] <= b);
    assert(-b <= p[20] <= b);
    assert(-b <= p[21] <= b && -b <= p[26] <= b);
    lemma_btf_bound(-2276, p[21], 3406, p[26], b, b);
    assert(-b <= p[22] <= b && -b <= p[25] <= b);
    lemma_btf_bound(-3406, p[22], -2276, p[25], b, b);
    assert(-b <= p[23] <= b);
    assert(-b <= p[24] <= b);
    assert(-b <= p[22] <= b && -b <= p[25] <= b);
    lemma_btf_bound(-2276, p[22], 3406, p[25], b, b);
    assert(-b <= p[21] <= b && -b <= p[26] <= b);
    lemma_btf_bound(3406, p[21], 2276, p[26], b, b);
    assert(-b <= p[27] <= b);
    assert(-b <= p[28] <= b);
    assert(-b <= p[18] <= b && -b <= p[29] <= b);
    lemma_btf_bound(-4017, p[18], 799, p[29], b, b);
    assert(-b <= p[17] <= b && -b <= p[30] <= b);
    lemma_btf_bound(799, p[17], 4017, p[30], b, b);
    assert(-b <= p[31] <= b);
}

/// Stage 5 of the 32-point inverse DCT on values of at most 67108863.
#[verifier::rlimit(50)]
fn idct32_stage5_exec(p: &[i32; 32]) -> (r: [i32; 32])
    requires bounded(p@, 32, 67108863),
    ensures
        ints(r@) == idct32_stage5(ints(p@)),
        bounded(r@, 32, 134217727),
{
    proof {
        reveal(idct32_stage5);
        assert(-67108863 <= p@[0] <= 67108863);
        assert(-67108863 <= p@[1] <= 67108863);
        assert(-67108863 <= p@[2] <= 67108863);
        assert(-67108863 <= p@[3] <= 67108863);
        assert(-67108863 <= p@[4] <= 67108863);
        assert(-67108863 <= p@[5] <= 67108863);
        assert(-67108863 <= p@[6] <= 67108863);
        assert(-67108863 <= p@[7] <= 67108863);
        assert(-67108863 <= p@[8] <= 67108863);
        assert(-67108863 <= p@[9] <= 67108863);
        assert(-67108863 <= p@[10] <= 67108863);
        assert(-67108863 <= p@[11] <= 67108863);
        assert(-67108863 <= p@[12] <= 67108863);
        assert(-67108863 <= p@[13] <= 67108863);
        assert(-67108863 <= p@[14] <= 67108863);
        assert(-67108863 <= p@[15] <= 67108863);
        assert(-67108863 <= p@[16] <= 67108863);
        assert(-67108863 <= p@[17] <= 67108863);
        assert(-67108863 <= p@[18] <= 67108863);
        assert(-67108863 <= p@[19] <= 67108863);
        assert(-67108863 <= p@[20] <= 67108863);
        assert(-67108863 <= p@[21] <= 67108863);
        assert(-67108863 <= p@[22] <= 67108863);
        assert(-67108863 <= p@[23] <= 67108863);
        assert(-67108863 <= p@[24] <= 67108863);
        assert(-67108863 <= p@[25] <= 67108863);
        assert(-67108863 <= p@[26] <= 67108863);
        assert(-67108863 <= p@[27] <= 67108863);
        assert(-67108863 <= p@[28] <= 67108863);
        assert(-67108863 <= p@[29] <= 67108863);
        assert(-67108863 <= p@[30] <= 67108863);
        assert(-67108863 <= p@[31] <= 67108863);
    }
    let t0: i32 = hb(2896, p[0], 2896, p[1]);
    let t1: i32 = hb(2896, p[0], -2896, p[1]);
    let t2: i32 = hb(1567, p[2], -3784, p[3]);
    let t3: i32 = hb(3784, p[2], 1567, p[3]);
    let t4: i32 = p[4] + p[5];
    let t5: i32 = p[4] - p[5];
    let t6: i32 = -p[6] + p[7];
    let t7: i32 = p[6] + p[7];
    let t8: i32 = p[8];
    let t9: i32 = hb(-3784, p[9], 1567, p[14]);
    let t10: i32 = hb(-1567, p[10], -3784, p[13]);
    let t11: i32 = p[11];
    let t12: i32 = p[12];
    let t13: i32 = hb(-3784, p[10], 1567, p[13]);
    let t14: i32 = hb(1567, p[9], 3784, p[14]);
    let t15: i32 = p[15];
    let t16: i32 = p[16] + p[19];
    let t17: i32 = p[17] + p[18];
    let t18: i32 = p[17] - p[18];
    let t19: i32 = p[16] - p[19];
    let t20: i32 = -p[20] + p[23];
    let t21: i32 = -p[21] + p[22];
    let t22: i32 = p[21] + p[22];
    let t23: i32 = p[20] + p[23];
    let t24: i32 = p[24] + p[27];
    let t25: i32 = p[25] + p[26];
    let t26: i32 = p[25] - p[26];
    let t27: i32 = p[24] - p[27];
    let t28: i32 = -p[28] + p[31];
    let t29: i32 = -p[29] + p[30];
    let t30: i32 = p[29] + p[30];
    let t31: i32 = p[28] + p[31];
    let r: [i32; 32] = [t0, t1, t2, t3, t4, t5, t6, t7, t8, t9, t10, t11, t12, t13, t14, t15, t16, t17, t18, t19, t20, t21, t22, t23, t24, t25, t26, t27, t28, t29, t30, t31];
    proof {
        assert(r@ =~= seq![t0, t1, t2, t3, t4, t5, t6, t7, t8, t9, t10, t11, t12, t13, t14, t15, t16, t17, t18, t19, t20, t21, t22, t23, t24, t25, t26, t27, t28, t29, t30, t31]);
        assert(ints(r@) =~= idct32_stage5(ints(p@)));
    }
    r
}

/// Stage 5 of the 32-point inverse DCT grows a bound `b` to at most `2 * b + 1`.
pub proof fn lemma_idct32_stage5_gain(p: Seq<int>, b: int)
    requires b >= 0, bounded_int(p, 32, b),
    ensures bounded_int(idct32_stage5(p), 32, 2 * b + 1),
{
    reveal(idct32_stage5);
    assert(-b <= p[0] <= b && -b <= p[1] <= b);
    lemma_btf_bound(2896, p[0], 2896, p[1], b, b);
    assert(-b <= p[0] <= b && -b <= p[1] <= b);
    lemma_btf_bound(2896, p[0], -2896, p[1], b, b);
    assert(-b <= p[2] <= b && -b <= p[3] <= b);
    lemma_btf_bound(1567, p[2], -3784, p[3], b, b);
    assert(-b <= p[2] <= b && -b <= p[3] <= b);
    lemma_btf_bound(3784, p[2], 1567, p[3], b, b);
    assert(-b <= p[4] <= b && -b <= p[5] <= b);
    assert(-b <= p[4] <= b && -b <= p[5] <= b);
    assert(-b <= p[6] <= b && -b <= p[7] <= b);
    assert(-b <= p[6] <= b && -b <= p[7] <= b);
    assert(-b <= p[8] <= b);
    assert(-b <= p[9] <= b && -b <= p[14] <= b);
    lemma_btf_bound(-3784, p[9], 1567, p[14], b, b);
    assert(-b <= p[10] <= b && -b <= p[13] <= b);
    lemma_btf_bound(-1567, p[10], -3784, p[13], b, b);
    assert(-b <= p[11] <= b);
    assert(-b <= p[12] <= b);
    assert(-b <= p[10] <= b && -b <= p[13] <= b);
    lemma_btf_bound(-3784, p[10], 1567, p[13], b, b);
    assert(-b <= p[9] <= b && -b <= p[14] <= b);
    lemma_btf_bound(1567, p[9], 3784, p[14], b, b);
    assert(-b <= p[15] <= b);
    assert(-b <= p[16] <= b && -b <= p[19] <= b);
    assert(-b <= p[17] <= b && -b <= p[18] <= b);
    assert(-b <= p[17] <= b && -b <= p[18] <= b);
    assert(-b <= p[16] <= b && -b <= p[19] <= b);
    assert(-b <= p[20] <= b && -b <= p[23] <= b);
    assert(-b <= p[21] <= b && -b <= p[22] <= b);
    assert(-b <= p[21] <= b && -b <= p[22] <= b);
    assert(-b <= p[20] <= b && -b <= p[23] <= b);
    assert(-b <= p[24] <= b && -b <= p[27] <= b);
    assert(-b <= p[25] <= b && -b <= p[26] <= b);
    assert(-b <= p[25] <= b && -b <= p[26] <= b);
    assert(-b <= p[24] <= b && -b <= p[27] <= b);
    assert(-b <= p[28] <= b && -b <= p[31] <= b);
    assert(-b <= p[29] <= b && -b <= p[30] <= b);
    assert(-b <= p[29] <= b && -b <= p[30] <= b);
    assert(-b <= p[28] <= b && -b <= p[31] <= b);
}

/// Stage 6 of the 32-point inverse DCT on values of at most 134217727.
#[verifier::rlimit(50)]
fn idct32_stage6_exec(p: &[i32; 32]) -> (r: [i32; 32])
    requires bounded(p@, 32, 134217727),
    ensures
        ints(r@) == idct32_stage6(ints(p@)),
        bounded(r@, 32, 268435455),
{
    proof {
        reveal(idct32_stage6);
        assert(-134217727 <= p@[0] <= 134217727);
        assert(-134217727 <= p@[1] <= 134217727);
        assert(-134217727 <= p@[2] <= 134217727);
        assert(-134217727 <= p@[3] <= 134217727);
        assert(-134217727 <= p@[4] <= 134217727);
        assert(-134217727 <= p@[5] <= 134217727);
        assert(-134217727 <= p@[6] <= 134217727);
        assert(-134217727 <= p@[7] <= 134217727);
        assert(-134217727 <= p@[8] <= 134217727);
        assert(-134217727 <= p@[9] <= 134217727);
        assert(-134217727 <= p@[10] <= 134217727);
        assert(-134217727 <= p@[11] <= 134217727);
        assert(-134217727 <= p@[12] <= 134217727);
        assert(-134217727 <= p@[13] <= 134217727);
        assert(-134217727 <= p@[14] <= 134217727);
        assert(-134217727 <= p@[15] <= 134217727);
        assert(-134217727 <= p@[16] <= 134217727);
        assert(-134217727 <= p@[17] <= 134217727);
        assert(-134217727 <= p@[18] <= 134217727);
        assert(-134217727 <= p@[19] <= 134217727);
        assert(-134217727 <= p@[20] <= 134217727);
        assert(-134217727 <= p@[21] <= 134217727);
        assert(-134217727 <= p@[22] <= 134217727);
        assert(-134217727 <= p@[23] <= 134217727);
        assert(-134217727 <= p@[24] <= 134217727);
        assert(-134217727 <= p@[25] <= 134217727);
        assert(-134217727 <= p@[26] <= 134217727);
        assert(-134217727 <= p@[27] <= 134217727);
        assert(-134217727 <= p@[28] <= 134217727);
        assert(-134217727 <= p@[29] <= 134217727);
        assert(-134217727 <= p@[30] <= 134217727);
        assert(-134217727 <= p@[31] <= 134217727);
    }
    let t0: i32 = p[0] + p[3];
    let t1: i32 = p[1] + p[2];
    let t2: i32 = p[1] - p[2];
    let t3: i32 = p[0] - p[3];
    let t4: i32 = p[4];
    let t5: i32 = hb(-2896, p[5], 2896, p[6]);
    let t6: i32 = hb(2896, p[5], 2896, p[6]);
    let t7: i32 = p[7];
    let t8: i32 = p[8] + p[11];
    let t9: i32 = p[9] + p[10];
    let t10: i32 = p[9] - p[10];
    let t11: i32 = p[8] - p[11];
    let t12: i32 = -p[12] + p[15];
    let t13: i32 = -p[13] + p[14];
    let t14: i32 = p[13] + p[14];
    let t15: i32 = p[12] + p[15];
    let t16: i32 = p[16];
    let t17: i32 = p[17];
    let t18: i32 = hb(-3784, p[18], 1567, p[29]);
    let t19: i32 = hb(-3784, p[19], 1567, p[28]);
    let t20: i32 = hb(-1567, p[20], -3784, p[27]);
    let t21: i32 = hb(-1567, p[21], -3784, p[26]);
    let t22: i32 = p[22];
    let t23: i32 = p[23];
    let t24: i32 = p[24];
    let t25: i32 = p[25];
    let t26: i32 = hb(-3784, p[21], 1567, p[26]);
    let t27: i32 = hb(-3784, p[20], 1567, p[27]);
    let t28: i32 = hb(1567, p[19], 3784, p[28]);
    let t29: i32 = hb(1567, p[18], 3784, p[29]);
    let t30: i32 = p[30];
    let t31: i32 = p[31];
    let r: [i32; 32] = [t0, t1, t2, t3, t4, t5, t6, t7, t8, t9, t10, t11, t12, t13, t14, t15, t16, t17, t18, t19, t20, t21, t22, t23, t24, t25, t26, t27, t28, t29, t30, t31];
    proof {
        assert(r@ =~= seq![t0, t1, t2, t3, t4, t5, t6, t7, t8, t9, t10, t11, t12, t13, t14, t15, t16, t17, t18, t19, t20, t21, t22, t23, t24, t25, t26, t27, t28, t29, t30, t31]);
        assert(ints(r@) =~= idct32_stage6(ints(p@)));
    }
    r
}

/// Stage 6 of the 32-point inverse DCT grows a bound `b` to at most `2 * b + 1`.
pub proof fn lemma_idct32_stage6_gain(p: Seq<int>, b: int)
    requires b >= 0, bounded_int(p, 32, b),
    ensures bounded_int(idct32_stage6(p), 32, 2 * b + 1),
{
    reveal(idct32_stage6);
    assert(-b <= p[0] <= b && -b <= p[3] <= b);
    assert(-b <= p[1] <= b && -b <= p[2] <= b);
    assert(-b <= p[1] <= b && -b <= p[2] <= b);
    assert(-b <= p[0] <= b && -b <= p[3] <= b);
    assert(-b <= p[4] <= b);
    assert(-b <= p[5] <= b && -b <= p[6] <= b);
    lemma_btf_bound(-2896, p[5], 2896, p[6], b, b);
    assert(-b <= p[5] <= b && -b <= p[6] <= b);
    lemma_btf_bound(2896, p[5], 2896, p[6], b, b);
    assert(-b <= p[7] <= b);
    assert(-b <= p[8] <= b && -b <= p[11] <= b);
    assert(-b <= p[9] <= b && -b <= p[10] <= b);
    assert(-b <= p[9] <= b && -b <= p[10] <= b);
    assert(-b <= p[8] <= b && -b <= p[11] <= b);
    assert(-b <= p[12] <= b && -b <= p[15] <= b);
    assert(-b <= p[13] <= b && -b <= p[14] <= b);
    assert(-b <= p[13] <= b && -b <= p[14] <= b);
    assert(-b <= p[12] <= b && -b <= p[15] <= b);
    assert(-b <= p[16] <= b);
    assert(-b <= p[17] <= b);
    assert(-b <= p[18] <= b && -b <= p[29] <= b);
    lemma_btf_bound(-3784, p[18], 1567, p[29], b, b);
    assert(-b <= p[19] <= b && -b <= p[28] <= b);
    lemma_btf_bound(-3784, p[19], 1567, p[28], b, b);
    assert(-b <= p[20] <= b && -b <= p[27] <= b);
    lemma_btf_bound(-1567, p[20], -3784, p[27], b, b);
    assert(-b <= p[21] <= b && -b <= p[26] <= b);
    lemma_btf_bound(-1567, p[21], -3784, p[26], b, b);
    assert(-b <= p[22] <= b);
    assert(-b <= p[23] <= b);
    assert(-b <= p[24] <= b);
    assert(-b <= p[25] <= b);
    assert(-b <= p[21] <= b && -b <= p[26] <= b);
    lemma_btf_bound(-3784, p[21], 1567, p[26], b, b);
    assert(-b <= p[20] <= b && -b <= p[27] <= b);
    lemma_btf_bound(-3784, p[20], 1567, p[27], b, b);
    assert(-b <= p[19] <= b && -b <= p[28] <= b);
    lemma_btf_bound(1567, p[19], 3784, p[28], b, b);
    assert(-b <= p[18] <= b && -b <= p[29] <= b);
    lemma_btf_bound(1567, p[18], 3784, p[29], b, b);
    assert(-b <= p[30] <= b);
    assert(-b <= p[31] <= b);
}

/// Stage 7 of the 32-point inverse DCT on values of at most 268435455.
#[verifier::rlimit(50)]
fn idct32_stage7_exec(p: &[i32; 32]) -> (r: [i32; 32])
    requires bounded(p@, 32, 268435455),
    ensures
        ints(r@) == idct32_stage7(ints(p@)),
        bounded(r@, 32, 536870911),
{
    proof {
        reveal(idct32_stage7);
        assert(-268435455 <= p@[0] <= 268435455);
        assert(-268435455 <= p@[1] <= 268435455);
        assert(-268435455 <= p@[2] <= 268435455);
        assert(-268435455 <= p@[3] <= 268435455);
        assert(-268435455 <= p@[4] <= 268435455);
        assert(-268435455 <= p@[5] <= 268435455);
        assert(-268435455 <= p@[6] <= 268435455);
        assert(-268435455 <= p@[7] <= 268435455);
        assert(-268435455 <= p@[8] <= 268435455);
        assert(-268435455 <= p@[9] <= 268435455);
        assert(-268435455 <= p@[10] <= 268435455);
        assert(-268435455 <= p@[11] <= 268435455);
        assert(-268435455 <= p@[12] <= 268435455);
        assert(-268435455 <= p@[13] <= 268435455);
        assert(-268435455 <= p@[14] <= 268435455);
        assert(-268435455 <= p@[15] <= 268435455);
        assert(-268435455 <= p@[16] <= 268435455);
        assert(-268435455 <= p@[17] <= 268435455);
        assert(-268435455 <= p@[18] <= 268435455);
        assert(-268435455 <= p@[19] <= 268435455);
        assert(-268435455 <= p@[20] <= 268435455);
        assert(-268435455 <= p@[21] <= 268435455);
        assert(-268435455 <= p@[22] <= 268435455);
        assert(-268435455 <= p@[23] <= 268435455);
        assert(-268435455 <= p@[24] <= 268435455);
        assert(-268435455 <= p@[25] <= 268435455);
        assert(-268435455 <= p@[26] <= 268435455);
        assert(-268435455 <= p@[27] <= 268435455);
        assert(-268435455 <= p@[28] <= 268435455);
        assert(-268435455 <= p@[29] <= 268435455);
        assert(-268435455 <= p@[30] <= 268435455);
        assert(-268435455 <= p@[31] <= 268435455);
    }
    let t0: i32 = p[0] + p[7];
    let t1: i32 = p[1] + p[6];
    let t2: i32 = p[2] + p[5];
    let t3: i32 = p[3] + p[4];
    let t4: i32 = p[3] - p[4];
    let t5: i32 = p[2] - p[5];
    let t6: i32 = p[1] - p[6];
    let t7: i32 = p[0] - p[7];
    let t8: i32 = p[8];
    let t9: i32 = p[9];
    let t10: i32 = hb(-2896, p[10], 2896, p[13]);
    let t11: i32 = hb(-2896, p[11], 2896, p[12]);
    let t12: i32 = hb(2896, p[11], 2896, p[12]);
    let t13: i32 = hb(2896, p[10], 2896, p[13]);
    let t14: i32 = p[14];
    let t15: i32 = p[15];
    let t16: i32 = p[16] + p[23];
    let t17: i32 = p[17] + p[22];
    let t18: i32 = p[18] + p[21];
    let t19: i32 = p[19] + p[20];
    let t20: i32 = p[19] - p[20];
    let t21: i32 = p[18] - p[21];
    let t22: i32 = p[17] - p[22];
    let t23: i32 = p[16] - p[23];
    let t24: i32 = -p[24] + p[31];
    let t25: i32 = -p[25] + p[30];
    let t26: i32 = -p[26] + p[29];
    let t27: i32 = -p[27] + p[28];
    let t28: i32 = p[27] + p[28];
    let t29: i32 = p[26] + p[29];
    let t30: i32 = p[25] + p[30];
    let t31: i32 = p[24] + p[31];
    let r: [i32; 32] = [t0, t1, t2, t3, t4, t5, t6, t7, t8, t9, t10, t11, t12, t13, t14, t15, t16, t17, t18, t19, t20, t21, t22, t23, t24, t25, t26, t27, t28, t29, t30, t31];
    proof {
        assert(r@ =~= seq![t0, t1, t2, t3, t4, t5, t6, t7, t8, t9, t10, t11, t12, t13, t14, t15, t16, t17, t18, t19, t20, t21, t22, t23, t24, t25, t26, t27, t28, t29, t30, t31]);
        assert(ints(r@) =~= idct32_stage7(ints(p@)));
    }
    r
}

/// Stage 7 of the 32-point inverse DCT grows a bound `b` to at most `2 * b + 1`.
pub proof fn lemma_idct32_stage7_gain(p: Seq<int>, b: int)
    requires b >= 0, bounded_int(p, 32, b),
    ensures bounded_int(idct32_stage7(p), 32, 2 * b + 1),
{
    reveal(idct32_stage7);
    assert(-b <= p[0] <= b && -b <= p[7] <= b);
    assert(-b <= p[1] <= b && -b <= p[6] <= b);
    assert(-b <= p[2] <= b && -b <= p[5] <= b);
    assert(-b <= p[3] <= b && -b <= p[4] <= b);
    assert(-b <= p[3] <= b && -b <= p[4] <= b);
    assert(-b <= p[2] <= b && -b <= p[5] <= b);
    assert(-b <= p[1] <= b && -b <= p[6] <= b);
    assert(-b <= p[0] <= b && -b <= p[7] <= b);
    assert(-b <= p[8] <= b);
    assert(-b <= p[9] <= b);
    assert(-b <= p[10] <= b && -b <= p[13] <= b);
    lemma_btf_bound(-2896, p[10], 2896, p[13], b, b);
    assert(-b <= p[11] <= b && -b <= p[12] <= b);
    lemma_btf_bound(-2896, p[11], 2896, p[12], b, b);
    assert(-b <= p[11] <= b && -b <= p[12] <= b);
    lemma_btf_bound(2896, p[11], 2896, p[12], b, b);
    assert(-b <= p[10] <= b && -b <= p[13] <= b);
    lemma_btf_bound(2896, p[10], 2896, p[13], b, b);
    assert(-b <= p[14] <= b);
    assert(-b <= p[15] <= b);
    assert(-b <= p[16] <= b && -b <= p[23] <= b);
    assert(-b <= p[17] <= b && -b <= p[22] <= b);
    assert(-b <= p[18] <= b && -b <= p[21] <= b);
    assert(-b <= p[19] <= b && -b <= p[20] <= b);
    assert(-b <= p[19] <= b && -b <= p[20] <= b);
    assert(-b <= p[18] <= b && -b <= p[21] <= b);
    assert(-b <= p[17] <= b && -b <= p[22] <= b);
    assert(-b <= p[16] <= b && -b <= p[23] <= b);
    assert(-b <= p[24] <= b && -b <= p[31] <= b);
    assert(-b <= p[25] <= b && -b <= p[30] <= b);
    assert(-b <= p[26] <= b && -b <= p[29] <= b);
    assert(-b <= p[27] <= b && -b <= p[28] <= b);
    assert(-b <= p[27] <= b && -b <= p[28] <= b);
    assert(-b <= p[26] <= b && -b <= p[29] <= b);
    assert(-b <= p[25] <= b && -b <= p[30] <= b);
    assert(-b <= p[24] <= b && -b <= p[31] <= b);
}

/// Stage 8 of the 32-point inverse DCT on values of at most 536870911.
#[verifier::rlimit(50)]
fn idct32_stage8_exec(p: &[i32; 32]) -> (r: [i32; 32])
    requires bounded(p@, 32, 536870911),
    ensures
        ints(r@) == idct32_stage8(ints(p@)),
        bounded(r@, 32, 1073741823),
{
    proof {
        reveal(idct32_stage8);
        assert(-536870911 <= p@[0] <= 536870911);
        assert(-536870911 <= p@[1] <= 536870911);
        assert(-536870911 <= p@[2] <= 536870911);
        assert(-536870911 <= p@[3] <= 536870911);
        assert(-536870911 <= p@[4] <= 536870911);
        assert(-536870911 <= p@[5] <= 536870911);
        assert(-536870911 <= p@[6] <= 536870911);
        assert(-536870911 <= p@[7] <= 536870911);
        assert(-536870911 <= p@[8] <= 536870911);
        assert(-536870911 <= p@[9] <= 536870911);
        assert(-536870911 <= p@[10] <= 536870911);
        assert(-536870911 <= p@[11] <= 536870911);
        assert(-536870911 <= p@[12] <= 536870911);
        assert(-536870911 <= p@[13] <= 536870911);
        assert(-536870911 <= p@[14] <= 536870911);
        assert(-536870911 <= p@[15] <= 536870911);
        assert(-536870911 <= p@[16] <= 536870911);
        assert(-536870911 <= p@[17] <= 536870911);
        assert(-536870911 <= p@[18] <= 536870911);
        assert(-536870911 <= p@[19] <= 536870911);
        assert(-536870911 <= p@[20] <= 536870911);
        assert(-536870911 <= p@[21] <= 536870911);
        assert(-536870911 <= p@[22] <= 536870911);
        assert(-536870911 <= p@[23] <= 536870911);
        assert(-536870911 <= p@[24] <= 536870911);
        assert(-536870911 <= p@[25] <= 536870911);
        assert(-536870911 <= p@[26] <= 536870911);
        assert(-536870911 <= p@[27] <= 536870911);
        assert(-536870911 <= p@[28] <= 536870911);
        assert(-536870911 <= p@[29] <= 536870911);
        assert(-536870911 <= p@[30] <= 536870911);
        assert(-536870911 <= p@[31] <= 536870911);
    }
    let t0: i32 = p[0] + p[15];
    let t1: i32 = p[1] + p[14];
    let t2: i32 = p[2] + p[13];
    let t3: i32 = p[3] + p[12];
    let t4: i32 = p[4] + p[11];
    let t5: i32 = p[5] + p[10];
    let t6: i32 = p[6] + p[9];
    let t7: i32 = p[7] + p[8];
    let t8: i32 = p[7] - p[8];
    let t9: i32 = p[6] - p[9];
    let t10: i32 = p[5] - p[10];
    let t11: i32 = p[4] - p[11];
    let t12: i32 = p[3] - p[12];
    let t13: i32 = p[2] - p[13];
    let t14: i32 = p[1] - p[14];
    let t15: i32 = p[0] - p[15];
    let t16: i32 = p[16];
    let t17: i32 = p[17];
    let t18: i32 = p[18];
    let t19: i32 = p[19];
    let t20: i32 = hb(-2896, p[20], 2896, p[27]);
    let t21: i32 = hb(-2896, p[21], 2896, p[26]);
    let t22: i32 = hb(-2896, p[22], 2896, p[25]);
    let t23: i32 = hb(-2896, p[23], 2896, p[24]);
    let t24: i32 = hb(2896, p[23], 2896, p[24]);
    let t25: i32 = hb(2896, p[22], 2896, p[25]);
    let t26: i32 = hb(2896, p[21], 2896, p[26]);
    let t27: i32 = hb(2896, p[20], 2896, p[27]);
    let t28: i32 = p[28];
    let t29: i32 = p[29];
    let t30: i32 = p[30];
    let t31: i32 = p[31];
    let r: [i32; 32] = [t0, t1, t2, t3, t4, t5, t6, t7, t8, t9, t10, t11, t12, t13, t14, t15, t16, t17, t18, t19, t20, t21, t22, t23, t24, t25, t26, t27, t28, t29, t30, t31];
    proof {
        assert(r@ =~= seq![t0, t1, t2, t3, t4, t5, t6, t7, t8, t9, t10, t11, t12, t13, t14, t15, t16, t17, t18, t19, t20, t21, t22, t23, t24, t25, t26, t27, t28, t29, t30, t31]);
        assert(ints(r@) =~= idct32_stage8(ints(p@)));
    }
    r
}

/// Stage 8 of the 32-point inverse DCT grows a bound `b` to at most `2 * b + 1`.
pub proof fn lemma_idct32_stage8_gain(p: Seq<int>, b: int)
    requires b >= 0, bounded_int(p, 32, b),
    ensures bounded_int(idct32_stage8(p), 32, 2 * b + 1),
{
    reveal(idct32_stage8);
    assert(-b <= p[0] <= b && -b <= p[15] <= b);
    assert(-b <= p[1] <= b && -b <= p[14] <= b);
    assert(-b <= p[2] <= b && -b <= p[13] <= b);
    assert(-b <= p[3] <= b && -b <= p[12] <= b);
    assert(-b <= p[4] <= b && -b <= p[11] <= b);
    assert(-b <= p[5] <= b && -b <= p[10] <= b);
    assert(-b <= p[6] <= b && -b <= p[9] <= b);
    assert(-b <= p[7] <= b && -b <= p[8] <= b);
    assert(-b <= p[7] <= b && -b <= p[8] <= b);
    assert(-b <= p[6] <= b && -b <= p[9] <= b);
    assert(-b <= p[5] <= b && -b <= p[10] <= b);
    assert(-b <= p[4] <= b && -b <= p[11] <= b);
    assert(-b <= p[3] <= b && -b <= p[12] <= b);
    assert(-b <= p[2] <= b && -b <= p[13] <= b);
    assert(-b <= p[1] <= b && -b <= p[14] <= b);
    assert(-b <= p[0] <= b && -b <= p[15] <= b);
    assert(-b <= p[16] <= b);
    assert(-b <= p[17] <= b);
    assert(-b <= p[18] <= b);
    assert(-b <= p[19] <= b);
    assert(-b <= p[20] <= b && -b <= p[27] <= b);
    lemma_btf_bound(-2896, p[20], 2896, p[27], b, b);
    assert(-b <= p[21] <= b && -b <= p[26] <= b);
    lemma_btf_bound(-2896, p[21], 2896, p[26], b, b);
    assert(-b <= p[22] <= b && -b <= p[25] <= b);
    lemma_btf_bound(-2896, p[22], 2896, p[25], b, b);
    assert(-b <= p[23] <= b && -b <= p[24] <= b);
    lemma_btf_bound(-2896, p[23], 2896, p[24], b, b);
    assert(-b <= p[23] <= b && -b <= p[24] <= b);
    lemma_btf_bound(2896, p[23], 2896, p[24], b, b);
    assert(-b <= p[22] <= b && -b <= p[25] <= b);
    lemma_btf_bound(2896, p[22], 2896, p[25], b, b);
    assert(-b <= p[21] <= b && -b <= p[26] <= b);
    lemma_btf_bound(2896, p[21], 2896, p[26], b, b);
    assert(-b <= p[20] <= b && -b <= p[27] <= b);
    lemma_btf_bound(2896, p[20], 2896, p[27], b, b);
    assert(-b <= p[28] <= b);
    assert(-b <= p[29] <= b);
    assert(-b <= p[30] <= b);
    assert(-b <= p[31] <= b);
}

/// Stage 9 of the 32-point inverse DCT on values of at most 1073741823.
#[verifier::rlimit(50)]
fn idct32_stage9_exec(p: &[i32; 32]) -> (r: [i32; 32])
    requires bounded(p@, 32, 1073741823),
    ensures
        ints(r@) == idct32_stage9(ints(p@)),
        bounded(r@, 32, 2147483646),
{
    proof {
        reveal(idct32_stage9);
        assert(-1073741823 <= p@[0] <= 1073741823);
        assert(-1073741823 <= p@[1] <= 1073741823);
        assert(-1073741823 <= p@[2] <= 1073741823);
        assert(-1073741823 <= p@[3] <= 1073741823);
        assert(-1073741823 <= p@[4] <= 1073741823);
        assert(-1073741823 <= p@[5] <= 1073741823);
        assert(-1073741823 <= p@[6] <= 1073741823);
        assert(-1073741823 <= p@[7] <= 1073741823);
        assert(-1073741823 <= p@[8] <= 1073741823);
        assert(-1073741823 <= p@[9] <= 1073741823);
        assert(-1073741823 <= p@[10] <= 1073741823);
        assert(-1073741823 <= p@[11] <= 1073741823);
        assert(-1073741823 <= p@[12] <= 1073741823);
        assert(-1073741823 <= p@[13] <= 1073741823);
        assert(-1073741823 <= p@[14] <= 1073741823);
        assert(-1073741823 <= p@[15] <= 1073741823);
        assert(-1073741823 <= p@[16] <= 1073741823);
        assert(-1073741823 <= p@[17] <= 1073741823);
        assert(-1073741823 <= p@[18] <= 1073741823);
        assert(-1073741823 <= p@[19] <= 1073741823);
        assert(-1073741823 <= p@[20] <= 1073741823);
        assert(-1073741823 <= p@[21] <= 1073741823);
        assert(-1073741823 <= p@[22] <= 1073741823);
        assert(-1073741823 <= p@[23] <= 1073741823);
        assert(-1073741823 <= p@[24] <= 1073741823);
        assert(-1073741823 <= p@[25] <= 1073741823);
        assert(-1073741823 <= p@[26] <= 1073741823);
        assert(-1073741823 <= p@[27] <= 1073741823);
        assert(-1073741823 <= p@[28] <= 1073741823);
        assert(-1073741823 <= p@[29] <= 1073741823);
        assert(-1073741823 <= p@[30] <= 1073741823);
        assert(-1073741823 <= p@[31] <= 1073741823);
    }
    let t0: i32 = p[0] + p[31];
    let t1: i32 = p[1] + p[30];
    let t2: i32 = p[2] + p[29];
    let t3: i32 = p[3] + p[28];
    let t4: i32 = p[4] + p[27];
    let t5: i32 = p[5] + p[26];
    let t6: i32 = p[6] + p[25];
    let t7: i32 = p[7] + p[24];
    let t8: i32 = p[8] + p[23];
    let t9: i32 = p[9] + p[22];
    let t10: i32 = p[10] + p[21];
    let t11: i32 = p[11] + p[20];
    let t12: i32 = p[12] + p[19];
    let t13: i32 = p[13] + p[18];
    let t14: i32 = p[14] + p[17];
    let t15: i32 = p[15] + p[16];
    let t16: i32 = p[15] - p[16];
    let t17: i32 = p[14] - p[17];
    let t18: i32 = p[13] - p[18];
    let t19: i32 = p[12] - p[19];
    let t20: i32 = p[11] - p[20];
    let t21: i32 = p[10] - p[21];
    let t22: i32 = p[9] - p[22];
    let t23: i32 = p[8] - p[23];
    let t24: i32 = p[7] - p[24];
    let t25: i32 = p[6] - p[25];
    let t26: i32 = p[5] - p[26];
    let t27: i32 = p[4] - p[27];
    let t28: i32 = p[3] - p[28];
    let t29: i32 = p[2] - p[29];
    let t30: i32 = p[1] - p[30];
    let t31: i32 = p[0] - p[31];
    let r: [i32; 32] = [t0, t1, t2, t3, t4, t5, t6, t7, t8, t9, t10, t11, t12, t13, t14, t15, t16, t17, t18, t19, t20, t21, t22, t23, t24, t25, t26, t27, t28, t29, t30, t31];
    proof {
        assert(r@ =~= seq![t0, t1, t2, t3, t4, t5, t6, t7, t8, t9, t10, t11, t12, t13, t14, t15, t16, t17, t18, t19, t20, t21, t22, t23, t24, t25, t26, t27, t28, t29, t30, t31]);
        assert(ints(r@) =~= idct32_stage9(ints(p@)));
    }
    r
}

/// Stage 9 of the 32-point inverse DCT grows a bound `b` to at most `2 * b + 0`.
pub proof fn lemma_idct32_stage9_gain(p: Seq<int>, b: int)
    requires b >= 0, bounded_int(p, 32, b),
    ensures bounded_int(idct32_stage9(p), 32, 2 * b + 0),
{
    reveal(idct32_stage9);
    assert(-b <= p[0] <= b && -b <= p[31] <= b);
    assert(-b <= p[1] <= b && -b <= p[30] <= b);
    assert(-b <= p[2] <= b && -b <= p[29] <= b);
    assert(-b <= p[3] <= b && -b <= p[28] <= b);
    assert(-b <= p[4] <= b && -b <= p[27] <= b);
    assert(-b <= p[5] <= b && -b <= p[26] <= b);
    assert(-b <= p[6] <= b && -b <= p[25] <= b);
    assert(-b <= p[7] <= b && -b <= p[24] <= b);
    assert(-b <= p[8] <= b && -b <= p[23] <= b);
    assert(-b <= p[9] <= b && -b <= p[22] <= b);
    assert(-b <= p[10] <= b && -b <= p[21] <= b);
    assert(-b <= p[11] <= b && -b <= p[20] <= b);
    assert(-b <= p[12] <= b && -b <= p[19] <= b);
    assert(-b <= p[13] <= b && -b <= p[18] <= b);
    assert(-b <= p[14] <= b && -b <= p[17] <= b);
    assert(-b <= p[15] <= b && -b <= p[16] <= b);
    assert(-b <= p[15] <= b && -b <= p[16] <= b);
    assert(-b <= p[14] <= b && -b <= p[17] <= b);
    assert(-b <= p[13] <= b && -b <= p[18] <= b);
    assert(-b <= p[12] <= b && -b <= p[19] <= b);
    assert(-b <= p[11] <= b && -b <= p[20] <= b);
    assert(-b <= p[10] <= b && -b <= p[21] <= b);
    assert(-b <= p[9] <= b && -b <= p[22] <= b);
    assert(-b <= p[8] <= b && -b <= p[23] <= b);
    assert(-b <= p[7] <= b && -b <= p[24] <= b);
    assert(-b <= p[6] <= b && -b <= p[25] <= b);
    assert(-b <= p[5] <= b && -b <= p[26] <= b);
    assert(-b <= p[4] <= b && -b <= p[27] <= b);
    assert(-b <= p[3] <= b && -b <= p[28] <= b);
    assert(-b <= p[2] <= b && -b <= p[29] <= b);
    assert(-b <= p[1] <= b && -b <= p[30] <= b);
    assert(-b <= p[0] <= b && -b <= p[31] <= b);
}

/// 32-point inverse DCT
pub fn idct32(input: &[i32], output: &mut [i32])
    requires
        input@.len() >= 32,
        old(output)@.len() >= 32,
        bounded(input@, 32, INV_TXFM_INPUT_MAX as int),
    ensures
        final(output)@.len() == old(output)@.len(),
        forall|i: int| 0 <= i < 32 ==> final(output)@[i] == #[trigger] spec_idct32(input@)[i],
        forall|i: int| 32 <= i < old(output)@.len() ==> final(output)@[i] == old(output)@[i],
{
    let s0: [i32; 32] = [input[0], input[1], input[2], input[3], input[4], input[5], input[6], input[7], input[8], input[9], input[10], input[11], input[12], input[13], input[14], input[15], input[16], input[17], input[18], input[19], input[20], input[21], input[22], input[23], input[24], input[25], input[26], input[27], input[28], input[29], input[30], input[31]];
    proof {
        assert(s0@ =~= input@.subrange(0, 32));
    }
    let s1 = idct32_stage1_exec(&s0);
    proof {
        assert(ints(s1@) =~= idct32_stage1(ints(s0@)));
    }
    let s2 = idct32_stage2_exec(&s1);
    proof {
        assert(ints(s2@) =~= idct32_stage2(ints(s1@)));
    }
    let s3 = idct32_stage3_exec(&s2);
    proof {
        assert(ints(s3@) =~= idct32_stage3(ints(s2@)));
    }
    let s4 = idct32_stage4_exec(&s3);
    proof {
        assert(ints(s4@) =~= idct32_stage4(ints(s3@)));
    }
    let s5 = idct32_stage5_exec(&s4);
    proof {
        assert(ints(s5@) =~= idct32_stage5(ints(s4@)));
    }
    let s6 = idct32_stage6_exec(&s5);
    proof {
        assert(ints(s6@) =~= idct32_stage6(ints(s5@)));
    }
    let s7 = idct32_stage7_exec(&s6);
    proof {
        assert(ints(s7@) =~= idct32_stage7(ints(s6@)));
    }
    let s8 = idct32_stage8_exec(&s7);
    proof {
        assert(ints(s8@) =~= idct32_stage8(ints(s7@)));
    }
    let s9 = idct32_stage9_exec(&s8);
    proof {
        assert(ints(s9@) =~= idct32_stage9(ints(s8@)));
    }
    proof {
        lemma_idct32_prefix(input@);
    }
    let mut i: usize = 0;
    while i < 32
        invariant
            i <= 32,
            output@.len() == old(output)@.len(),
            old(output)@.len() >= 32,
            ints(s9@) == spec_idct32(input@),
            forall|k: int| 0 <= k < i ==> output@[k] == #[trigger] spec_idct32(input@)[k],
            forall|k: int| 32 <= k < old(output)@.len() ==> output@[k] == old(output)@[k],
        decreases 32 - i,
    {
        output[i] = s9[i];
        proof { assert(ints(s9@)[i as int] == s9@[i as int]); }
        i = i + 1;
    }
}

/// The 32-point inverse DCT reads only the first 32 inputs.
proof fn lemma_idct32_prefix(x: Seq<i32>)
    requires x.len() >= 32,
    ensures spec_idct32(x) == idct32_stage9(idct32_stage8(idct32_stage7(idct32_stage6(idct32_stage5(idct32_stage4(idct32_stage3(idct32_stage2(idct32_stage1(ints(x.subrange(0, 32))))))))))),
{
    reveal(idct32_stage1);
    assert(ints(x).subrange(0, 32) =~= ints(x.subrange(0, 32)));
}

/// Each output of [`spec_idct32`] is bounded by the input bound grown stage by stage.
pub proof fn lemma_idct32_gain(x: Seq<i32>, b: int)
    requires b >= 0, bounded(x, 32, b),
    ensures bounded_int(spec_idct32(x), 32, (2 * (2 * (2 * (2 * (2 * (2 * (2 * (2 * (1 * b + 0) + 1) + 1) + 1) + 1) + 1) + 1) + 1) + 0)),
{
    let p0 = ints(x);
    assert(bounded_int(p0, 32, b));
    lemma_idct32_stage1_gain(p0, b);
    let p1 = idct32_stage1(p0);
    lemma_idct32_stage2_gain(p1, (1 * b + 0));
    let p2 = idct32_stage2(p1);
    lemma_idct32_stage3_gain(p2, (2 * (1 * b + 0) + 1));
    let p3 = idct32_stage3(p2);
    lemma_idct32_stage4_gain(p3, (2 * (2 * (1 * b + 0) + 1) + 1));
    let p4 = idct32_stage4(p3);
    lemma_idct32_stage5_gain(p4, (2 * (2 * (2 * (1 * b + 0) + 1) + 1) + 1));
    let p5 = idct32_stage5(p4);
    lemma_idct32_stage6_gain(p5, (2 * (2 * (2 * (2 * (1 * b + 0) + 1) + 1) + 1) + 1));
    let p6 = idct32_stage6(p5);
    lemma_idct32_stage7_gain(p6, (2 * (2 * (2 * (2 * (2 * (1 * b + 0) + 1) + 1) + 1) + 1) + 1));
    let p7 = idct32_stage7(p6);
    lemma_idct32_stage8_gain(p7, (2 * (2 * (2 * (2 * (2 * (2 * (1 * b + 0) + 1) + 1) + 1) + 1) + 1) + 1));
    let p8 = idct32_stage8(p7);
    lemma_idct32_stage9_gain(p8, (2 * (2 * (2 * (2 * (2 * (2 * (2 * (1 * b + 0) + 1) + 1) + 1) + 1) + 1) + 1) + 1));
    let p9 = idct32_stage9(p8);
}

/// Stage 1 of the 8-point inverse ADST.
#[verifier::opaque]
pub open spec fn iadst8_stage1(p: Seq<int>) -> Seq<int> {
    seq![
        p[7],
        p[0],
        p[5],
        p[2],
        p[3],
        p[4],
        p[1],
        p[6],
    ]
}

/// Stage 2 of the 8-point inverse ADST.
#[verifier::opaque]
pub open spec fn iadst8_stage2(p: Seq<int>) -> Seq<int> {
    seq![
        btf(4076, p[0], 401, p[1]),
        btf(401, p[0], -4076, p[1]),
        btf(3612, p[2], 1931, p[3]),
        btf(1931, p[2], -3612, p[3]),
        btf(2598, p[4], 3166, p[5]),
        btf(3166, p[4], -2598, p[5]),
        btf(1189, p[6], 3920, p[7]),
        btf(3920, p[6], -1189, p[7]),
    ]
}

/// Stage 3 of the 8-point inverse ADST.
#[verifier::opaque]
pub open spec fn iadst8_stage3(p: Seq<int>) -> Seq<int> {
    seq![
        p[0] + p[4],
        p[1] + p[5],
        p[2] + p[6],
        p[3] + p[7],
        p[0] - p[4],
        p[1] - p[5],
        p[2] - p[6],
        p[3] - p[7],
    ]
}

/// Stage 4 of the 8-point inverse ADST.
#[verifier::opaque]
pub open spec fn iadst8_stage4(p: Seq<int>) -> Seq<int> {
    seq![
        p[0],
        p[1],
        p[2],
        p[3],
        btf(3784, p[4], 1567, p[5]),
        btf(1567, p[4], -3784, p[5]),
        btf(-1567, p[6], 3784, p[7]),
        btf(3784, p[6], 1567, p[7]),
    ]
}

/// Stage 5 of the 8-point inverse ADST.
#[verifier::opaque]
pub open spec fn iadst8_stage5(p: Seq<int>) -> Seq<int> {
    seq![
        p[0] + p[2],
        p[1] + p[3],
        p[0] - p[2],
        p[1] - p[3],
        p[4] + p[6],
        p[5] + p[7],
        p[4] - p[6],
        p[5] - p[7],
    ]
}

/// Stage 6 of the 8-point inverse ADST.
#[verifier::opaque]
pub open spec fn iadst8_stage6(p: Seq<int>) -> Seq<int> {
    seq![
        p[0],
        p[1],
        btf(2896, p[2], 2896, p[3]),
        btf(2896, p[2], -2896, p[3]),
        p[4],
        p[5],
        btf(2896, p[6], 2896, p[7]),
        btf(2896, p[6], -2896, p[7]),
    ]
}

/// Stage 7 of the 8-point inverse ADST.
#[verifier::opaque]
pub open spec fn iadst8_stage7(p: Seq<int>) -> Seq<int> {
    seq![
        p[0],
        -p[4],
        p[6],
        -p[2],
        p[3],
        -p[7],
        p[5],
        -p[1],
    ]
}

/// 8-point inverse ADST
pub open spec fn spec_iadst8(x: Seq<i32>) -> Seq<int> {
    iadst8_stage7(iadst8_stage6(iadst8_stage5(iadst8_stage4(iadst8_stage3(iadst8_stage2(iadst8_stage1(ints(x))))))))
}

/// Stage 1 of the 8-point inverse ADST on values of at most 8388607.
#[verifier::rlimit(50)]
fn iadst8_stage1_exec(p: &[i32; 8]) -> (r: [i32; 8])
    requires bounded(p@, 8, 8388607),
    ensures
        ints(r@) == iadst8_stage1(ints(p@)),
        bounded(r@, 8, 8388607),
{
    proof {
        reveal(iadst8_stage1);
        assert(-8388607 <= p@[0] <= 8388607);
        assert(-8388607 <= p@[1] <= 8388607);
        assert(-8388607 <= p@[2] <= 8388607);
        assert(-8388607 <= p@[3] <= 8388607);
        assert(-8388607 <= p@[4] <= 8388607);
        assert(-8388607 <= p@[5] <= 8388607);
        assert(-8388607 <= p@[6] <= 8388607);
        assert(-8388607 <= p@[7] <= 8388607);
    }
    let t0: i32 = p[7];
    let t1: i32 = p[0];
    let t2: i32 = p[5];
    let t3: i32 = p[2];
    let t4: i32 = p[3];
    let t5: i32 = p[4];
    let t6: i32 = p[1];
    let t7: i32 = p[6];
    let r: [i32; 8] = [t0, t1, t2, t3, t4, t5, t6, t7];
    proof {
        assert(r@ =~= seq![t0, t1, t2, t3, t4, t5, t6, t7]);
        assert(ints(r@) =~= iadst8_stage1(ints(p@)));
    }
    r
}

/// Stage 1 of the 8-point inverse ADST grows a bound `b` to at most `1 * b + 0`.
pub proof fn lemma_iadst8_stage1_gain(p: Seq<int>, b: int)
    requires b >= 0, bounded_int(p, 8, b),
    ensures bounded_int(iadst8_stage1(p), 8, 1 * b + 0),
{
    reveal(iadst8_stage1);
    assert(-b <= p[7] <= b);
    assert(-b <= p[0] <= b);
    assert(-b <= p[5] <= b);
    assert(-b <= p[2] <= b);
    assert(-b <= p[3] <= b);
    assert(-b <= p[4] <= b);
    assert(-b <= p[1] <= b);
    assert(-b <= p[6] <= b);
}

/// Stage 2 of the 8-point inverse ADST on values of at most 8388607.
#[verifier::rlimit(50)]
fn iadst8_stage2_exec(p: &[i32; 8]) -> (r: [i32; 8])
    requires bounded(p@, 8, 8388607),
    ensures
        ints(r@) == iadst8_stage2(ints(p@)),
        bounded(r@, 8, 16777215),
{
    proof {
        reveal(iadst8_stage2);
        assert(-8388607 <= p@[0] <= 8388607);
        assert(-8388607 <= p@[1] <= 8388607);
        assert(-8388607 <= p@[2] <= 8388607);
        assert(-8388607 <= p@[3] <= 8388607);
        assert(-8388607 <= p@[4] <= 8388607);
        assert(-8388607 <= p@[5] <= 8388607);
        assert(-8388607 <= p@[6] <= 8388607);
        assert(-8388607 <= p@[7] <= 8388607);
    }
    let t0: i32 = hb(4076, p[0], 401, p[1]);
    let t1: i32 = hb(401, p[0], -4076, p[1]);
    let t2: i32 = hb(3612, p[2], 1931, p[3]);
    let t3: i32 = hb(1931, p[2], -3612, p[3]);
    let t4: i32 = hb(2598, p[4], 3166, p[5]);
    let t5: i32 = hb(3166, p[4], -2598, p[5]);
    let t6: i32 = hb(1189, p[6], 3920, p[7]);
    let t7: i32 = hb(3920, p[6], -1189, p[7]);
    let r: [i32; 8] = [t0, t1, t2, t3, t4, t5, t6, t7];
    proof {
        assert(r@ =~= seq![t0, t1, t2, t3, t4, t5, t6, t7]);
        assert(ints(r@) =~= iadst8_stage2(ints(p@)));
    }
    r
}

/// Stage 2 of the 8-point inverse ADST grows a bound `b` to at most `2 * b + 1`.
pub proof fn lemma_iadst8_stage2_gain(p: Seq<int>, b: int)
    requires b >= 0, bounded_int(p, 8, b),
    ensures bounded_int(iadst8_stage2(p), 8, 2 * b + 1),
{
    reveal(iadst8_stage2);
    assert(-b <= p[0] <= b && -b <= p[1] <= b);
    lemma_btf_bound(4076, p[0], 401, p[1], b, b);
    assert(-b <= p[0] <= b && -b <= p[1] <= b);
    lemma_btf_bound(401, p[0], -4076, p[1], b, b);
    assert(-b <= p[2] <= b && -b <= p[3] <= b);
    lemma_btf_bound(3612, p[2], 1931, p[3], b, b);
    assert(-b <= p[2] <= b && -b <= p[3] <= b);
    lemma_btf_bound(1931, p[2], -3612, p[3], b, b);
    assert(-b <= p[4] <= b && -b <= p[5] <= b);
    lemma_btf_bound(2598, p[4], 3166, p[5], b, b);
    assert(-b <= p[4] <= b && -b <= p[5] <= b);
    lemma_btf_bound(3166, p[4], -2598, p[5], b, b);
    assert(-b <= p[6] <= b && -b <= p[7] <= b);
    lemma_btf_bound(1189, p[6], 3920, p[7], b, b);
    assert(-b <= p[6] <= b && -b <= p[7] <= b);
    lemma_btf_bound(3920, p[6], -1189, p[7], b, b);
}

/// Stage 3 of the 8-point inverse ADST on values of at most 16777215.
#[verifier::rlimit(50)]
fn iadst8_stage3_exec(p: &[i32; 8]) -> (r: [i32; 8])
    requires bounded(p@, 8, 16777215),
    ensures
        ints(r@) == iadst8_stage3(ints(p@)),
        bounded(r@, 8, 33554430),
{
    proof {
        reveal(iadst8_stage3);
        assert(-16777215 <= p@[0] <= 16777215);
        assert(-16777215 <= p@[1] <= 16777215);
        assert(-16777215 <= p@[2] <= 16777215);
        assert(-16777215 <= p@[3] <= 16777215);
        assert(-16777215 <= p@[4] <= 16777215);
        assert(-16777215 <= p@[5] <= 16777215);
        assert(-16777215 <= p@[6] <= 16777215);
        assert(-16777215 <= p@[7] <= 16777215);
    }
    let t0: i32 = p[0] + p[4];
    let t1: i32 = p[1] + p[5];
    let t2: i32 = p[2] + p[6];
    let t3: i32 = p[3] + p[7];
    let t4: i32 = p[0] - p[4];
    let t5: i32 = p[1] - p[5];
    let t6: i32 = p[2] - p[6];
    let t7: i32 = p[3] - p[7];
    let r: [i32; 8] = [t0, t1, t2, t3, t4, t5, t6, t7];
    proof {
        assert(r@ =~= seq![t0, t1, t2, t3, t4, t5, t6, t7]);
        assert(ints(r@) =~= iadst8_stage3(ints(p@)));
    }
    r
}

/// Stage 3 of the 8-point inverse ADST grows a bound `b` to at most `2 * b + 0`.
pub proof fn lemma_iadst8_stage3_gain(p: Seq<int>, b: int)
    requires b >= 0, bounded_int(p, 8, b),
    ensures bounded_int(iadst8_stage3(p), 8, 2 * b + 0),
{
    reveal(iadst8_stage3);
    assert(-b <= p[0] <= b && -b <= p[4] <= b);
    assert(-b <= p[1] <= b && -b <= p[5] <= b);
    assert(-b <= p[2] <= b && -b <= p[6] <= b);
    assert(-b <= p[3] <= b && -b <= p[7] <= b);
    assert(-b <= p[0] <= b && -b <= p[4] <= b);
    assert(-b <= p[1] <= b && -b <= p[5] <= b);
    assert(-b <= p[2] <= b && -b <= p[6] <= b);
    assert(-b <= p[3] <= b && -b <= p[7] <= b);
}

/// Stage 4 of the 8-point inverse ADST on values of at most 33554430.
#[verifier::rlimit(50)]
fn iadst8_stage4_exec(p: &[i32; 8]) -> (r: [i32; 8])
    requires bounded(p@, 8, 33554430),
    ensures
        ints(r@) == iadst8_stage4(ints(p@)),
        bounded(r@, 8, 67108861),
{
    proof {
        reveal(iadst8_stage4);
        assert(-33554430 <= p@[0] <= 33554430);
        assert(-33554430 <= p@[1] <= 33554430);
        assert(-33554430 <= p@[2] <= 33554430);
        assert(-33554430 <= p@[3] <= 33554430);
        assert(-33554430 <= p@[4] <= 33554430);
        assert(-33554430 <= p@[5] <= 33554430);
        assert(-33554430 <= p@[6] <= 33554430);
        assert(-33554430 <= p@[7] <= 33554430);
    }
    let t0: i32 = p[0];
    let t1: i32 = p[1];
    let t2: i32 = p[2];
    let t3: i32 = p[3];
    let t4: i32 = hb(3784, p[4], 1567, p[5]);
    let t5: i32 = hb(1567, p[4], -3784, p[5]);
    let t6: i32 = hb(-1567, p[6], 3784, p[7]);
    let t7: i32 = hb(3784, p[6], 1567, p[7]);
    let r: [i32; 8] = [t0, t1, t2, t3, t4, t5, t6, t7];
    proof {
        assert(r@ =~= seq![t0, t1, t2, t3, t4, t5, t6, t7]);
        assert(ints(r@) =~= iadst8_stage4(ints(p@)));
    }
    r
}

/// Stage 4 of the 8-point inverse ADST grows a bound `b` to at most `2 * b + 1`.
pub proof fn lemma_iadst8_stage4_gain(p: Seq<int>, b: int)
    requires b >= 0, bounded_int(p, 8, b),
    ensures bounded_int(iadst8_stage4(p), 8, 2 * b + 1),
{
    reveal(iadst8_stage4);
    assert(-b <= p[0] <= b);
    assert(-b <= p[1] <= b);
    assert(-b <= p[2] <= b);
    assert(-b <= p[3] <= b);
    assert(-b <= p[4] <= b && -b <= p[5] <= b);
    lemma_btf_bound(3784, p[4], 1567, p[5], b, b);
    assert(-b <= p[4] <= b && -b <= p[5] <= b);
    lemma_btf_bound(1567, p[4], -3784, p[5], b, b);
    assert(-b <= p[6] <= b && -b <= p[7] <= b);
    lemma_btf_bound(-1567, p[6], 3784, p[7], b, b);
    assert(-b <= p[6] <= b && -b <= p[7] <= b);
    lemma_btf_bound(3784, p[6], 1567, p[7], b, b);
}

/// Stage 5 of the 8-point inverse ADST on values of at most 67108861.
#[verifier::rlimit(50)]
fn iadst8_stage5_exec(p: &[i32; 8]) -> (r: [i32; 8])
    requires bounded(p@, 8, 67108861),
    ensures
        ints(r@) == iadst8_stage5(ints(p@)),
        bounded(r@, 8, 134217722),
{
    proof {
        reveal(iadst8_stage5);
        assert(-67108861 <= p@[0] <= 67108861);
        assert(-67108861 <= p@[1] <= 67108861);
        assert(-67108861 <= p@[2] <= 67108861);
        assert(-67108861 <= p@[3] <= 67108861);
        assert(-67108861 <= p@[4] <= 67108861);
        assert(-67108861 <= p@[5] <= 67108861);
        assert(-67108861 <= p@[6] <= 67108861);
        assert(-67108861 <= p@[7] <= 67108861);
    }
    let t0: i32 = p[0] + p[2];
    let t1: i32 = p[1] + p[3];
    let t2: i32 = p[0] - p[2];
    let t3: i32 = p[1] - p[3];
    let t4: i32 = p[4] + p[6];
    let t5: i32 = p[5] + p[7];
    let t6: i32 = p[4] - p[6];
    let t7: i32 = p[5] - p[7];
    let r: [i32; 8] = [t0, t1, t2, t3, t4, t5, t6, t7];
    proof {
        assert(r@ =~= seq![t0, t1, t2, t3, t4, t5, t6, t7]);
        assert(ints(r@) =~= iadst8_stage5(ints(p@)));
    }
    r
}

/// Stage 5 of the 8-point inverse ADST grows a bound `b` to at most `2 * b + 0`.
pub proof fn lemma_iadst8_stage5_gain(p: Seq<int>, b: int)
    requires b >= 0, bounded_int(p, 8, b),
    ensures bounded_int(iadst8_stage5(p), 8, 2 * b + 0),
{
    reveal(iadst8_stage5);
    assert(-b <= p[0] <= b && -b <= p[2] <= b);
    assert(-b <= p[1] <= b && -b <= p[3] <= b);
    assert(-b <= p[0] <= b && -b <= p[2] <= b);
    assert(-b <= p[1] <= b && -b <= p[3] <= b);
    assert(-b <= p[4] <= b && -b <= p[6] <= b);
    assert(-b <= p[5] <= b && -b <= p[7] <= b);
    assert(-b <= p[4] <= b && -b <= p[6] <= b);
    assert(-b <= p[5] <= b && -b <= p[7] <= b);
}

/// Stage 6 of the 8-point inverse ADST on values of at most 134217722.
#[verifier::rlimit(50)]
fn iadst8_stage6_exec(p: &[i32; 8]) -> (r: [i32; 8])
    requires bounded(p@, 8, 134217722),
    ensures
        ints(r@) == iadst8_stage6(ints(p@)),
        bounded(r@, 8, 268435445),
{
    proof {
        reveal(iadst8_stage6);
        assert(-134217722 <= p@[0] <= 134217722);
        assert(-134217722 <= p@[1] <= 134217722);
        assert(-134217722 <= p@[2] <= 134217722);
        assert(-134217722 <= p@[3] <= 134217722);
        assert(-134217722 <= p@[4] <= 134217722);
        assert(-134217722 <= p@[5] <= 134217722);
        assert(-134217722 <= p@[6] <= 134217722);
        assert(-134217722 <= p@[7] <= 134217722);
    }
    let t0: i32 = p[0];
    let t1: i32 = p[1];
    let t2: i32 = hb(2896, p[2], 2896, p[3]);
    let t3: i32 = hb(2896, p[2], -2896, p[3]);
    let t4: i32 = p[4];
    let t5: i32 = p[5];
    let t6: i32 = hb(2896, p[6], 2896, p[7]);
    let t7: i32 = hb(2896, p[6], -2896, p[7]);
    let r: [i32; 8] = [t0, t1, t2, t3, t4, t5, t6, t7];
    proof {
        assert(r@ =~= seq![t0, t1, t2, t3, t4, t5, t6, t7]);
        assert(ints(r@) =~= iadst8_stage6(ints(p@)));
    }
    r
}

/// Stage 6 of the 8-point inverse ADST grows a bound `b` to at most `2 * b + 1`.
pub proof fn lemma_iadst8_stage6_gain(p: Seq<int>, b: int)
    requires b >= 0, bounded_int(p, 8, b),
    ensures bounded_int(iadst8_stage6(p), 8, 2 * b + 1),
{
    reveal(iadst8_stage6);
    assert(-b <= p[0] <= b);
    assert(-b <= p[1] <= b);
    assert(-b <= p[2] <= b && -b <= p[3] <= b);
    lemma_btf_bound(2896, p[2], 2896, p[3], b, b);
    assert(-b <= p[2] <= b && -b <= p[3] <= b);
    lemma_btf_bound(2896, p[2], -2896, p[3], b, b);
    assert(-b <= p[4] <= b);
    assert(-b <= p[5] <= b);
    assert(-b <= p[6] <= b && -b <= p[7] <= b);
    lemma_btf_bound(2896, p[6], 2896, p[7], b, b);
    assert(-b <= p[6] <= b && -b <= p[7] <= b);
    lemma_btf_bound(2896, p[6], -2896, p[7], b, b);
}

/// Stage 7 of the 8-point inverse ADST on values of at most 268435445.
#[verifier::rlimit(50)]
fn iadst8_stage7_exec(p: &[i32; 8]) -> (r: [i32; 8])
    requires bounded(p@, 8, 268435445),
    ensures
        ints(r@) == iadst8_stage7(ints(p@)),
        bounded(r@, 8, 268435445),
{
    proof {
        reveal(iadst8_stage7);
        assert(-268435445 <= p@[0] <= 268435445);
        assert(-268435445 <= p@[1] <= 268435445);
        assert(-268435445 <= p@[2] <= 268435445);
        assert(-268435445 <= p@[3] <= 268435445);
        assert(-268435445 <= p@[4] <= 268435445);
        assert(-268435445 <= p@[5] <= 268435445);
        assert(-268435445 <= p@[6] <= 268435445);
        assert(-268435445 <= p@[7] <= 268435445);
    }
    let t0: i32 = p[0];
    let t1: i32 = -p[4];
    let t2: i32 = p[6];
    let t3: i32 = -p[2];
    let t4: i32 = p[3];
    let t5: i32 = -p[7];
    let t6: i32 = p[5];
    let t7: i32 = -p[1];
    let r: [i32; 8] = [t0, t1, t2, t3, t4, t5, t6, t7];
    proof {
        assert(r@ =~= seq![t0, t1, t2, t3, t4, t5, t6, t7]);
        assert(ints(r@) =~= iadst8_stage7(ints(p@)));
    }
    r
}

/// Stage 7 of the 8-point inverse ADST grows a bound `b` to at most `1 * b + 0`.
pub proof fn lemma_iadst8_stage7_gain(p: Seq<int>, b: int)
    requires b >= 0, bounded_int(p, 8, b),
    ensures bounded_int(iadst8_stage7(p), 8, 1 * b + 0),
{
    reveal(iadst8_stage7);
    assert(-b <= p[0] <= b);
    assert(-b <= p[4] <= b);
    assert(-b <= p[6] <= b);
    assert(-b <= p[2] <= b);
    assert(-b <= p[3] <= b);
    assert(-b <= p[7] <= b);
    assert(-b <= p[5] <= b);
    assert(-b <= p[1] <= b);
}

/// 8-point inverse ADST
pub fn iadst8(input: &[i32], output: &mut [i32])
    requires
        input@.len() >= 8,
        old(output)@.len() >= 8,
        bounded(input@, 8, INV_TXFM_INPUT_MAX as int),
    ensures
        final(output)@.len() == old(output)@.len(),
        forall|i: int| 0 <= i < 8 ==> final(output)@[i] == #[trigger] spec_iadst8(input@)[i],
        forall|i: int| 8 <= i < old(output)@.len() ==> final(output)@[i] == old(output)@[i],
{
    let s0: [i32; 8] = [input[0], input[1], input[2], input[3], input[4], input[5], input[6], input[7]];
    proof {
        assert(s0@ =~= input@.subrange(0, 8));
    }
    let s1 = iadst8_stage1_exec(&s0);
    proof {
        assert(ints(s1@) =~= iadst8_stage1(ints(s0@)));
    }
    let s2 = iadst8_stage2_exec(&s1);
    proof {
        assert(ints(s2@) =~= iadst8_stage2(ints(s1@)));
    }
    let s3 = iadst8_stage3_exec(&s2);
    proof {
        assert(ints(s3@) =~= iadst8_stage3(ints(s2@)));
    }
    let s4 = iadst8_stage4_exec(&s3);
    proof {
        assert(ints(s4@) =~= iadst8_stage4(ints(s3@)));
    }
    let s5 = iadst8_stage5_exec(&s4);
    proof {
        assert(ints(s5@) =~= iadst8_stage5(ints(s4@)));
    }
    let s6 = iadst8_stage6_exec(&s5);
    proof {
        assert(ints(s6@) =~= iadst8_stage6(ints(s5@)));
    }
    let s7 = iadst8_stage7_exec(&s6);
    proof {
        assert(ints(s7@) =~= iadst8_stage7(ints(s6@)));
    }
    proof {
        lemma_iadst8_prefix(input@);
    }
    let mut i: usize = 0;
    while i < 8
        invariant
            i <= 8,
            output@.len() == old(output)@.len(),
            old(output)@.len() >= 8,
            ints(s7@) == spec_iadst8(input@),
            forall|k: int| 0 <= k < i ==> output@[k] == #[trigger] spec_iadst8(input@)[k],
            forall|k: int| 8 <= k < old(output)@.len() ==> output@[k] == old(output)@[k],
        decreases 8 - i,
    {
        output[i] = s7[i];
        proof { assert(ints(s7@)[i as int] == s7@[i as int]); }
        i = i + 1;
    }
}

/// The 8-point inverse ADST reads only the first 8 inputs.
proof fn lemma_iadst8_prefix(x: Seq<i32>)
    requires x.len() >= 8,
    ensures spec_iadst8(x) == iadst8_stage7(iadst8_stage6(iadst8_stage5(iadst8_stage4(iadst8_stage3(iadst8_stage2(iadst8_stage1(ints(x.subrange(0, 8))))))))),
{
    reveal(iadst8_stage1);
    assert(ints(x).subrange(0, 8) =~= ints(x.subrange(0, 8)));
}

/// Each output of [`spec_iadst8`] is bounded by the input bound grown stage by stage.
pub proof fn lemma_iadst8_gain(x: Seq<i32>, b: int)
    requires b >= 0, bounded(x, 8, b),
    ensures bounded_int(spec_iadst8(x), 8, (1 * (2 * (2 * (2 * (2 * (2 * (1 * b + 0) + 1) + 0) + 1) + 0) + 1) + 0)),
{
    let p0 = ints(x);
    assert(bounded_int(p0, 8, b));
    lemma_iadst8_stage1_gain(p0, b);
    let p1 = iadst8_stage1(p0);
    lemma_iadst8_stage2_gain(p1, (1 * b + 0));
    let p2 = iadst8_stage2(p1);
    lemma_iadst8_stage3_gain(p2, (2 * (1 * b + 0) + 1));
    let p3 = iadst8_stage3(p2);
    lemma_iadst8_stage4_gain(p3, (2 * (2 * (1 * b + 0) + 1) + 0));
    let p4 = iadst8_stage4(p3);
    lemma_iadst8_stage5_gain(p4, (2 * (2 * (2 * (1 * b + 0) + 1) + 0) + 1));
    let p5 = iadst8_stage5(p4);
    lemma_iadst8_stage6_gain(p5, (2 * (2 * (2 * (2 * (1 * b + 0) + 1) + 0) + 1) + 0));
    let p6 = iadst8_stage6(p5);
    lemma_iadst8_stage7_gain(p6, (2 * (2 * (2 * (2 * (2 * (1 * b + 0) + 1) + 0) + 1) + 0) + 1));
    let p7 = iadst8_stage7(p6);
}

/// Stage 1 of the 16-point inverse ADST.
#[verifier::opaque]
pub open spec fn iadst16_stage1(p: Seq<int>) -> Seq<int> {
    seq![
        p[15],
        p[0],
        p[13],
        p[2],
        p[11],
        p[4],
        p[9],
        p[6],
        p[7],
        p[8],
        p[5],
        p[10],
        p[3],
        p[12],
        p[1],
        p[14],
    ]
}

/// Stage 2 of the 16-point inverse ADST.
#[verifier::opaque]
pub open spec fn iadst16_stage2(p: Seq<int>) -> Seq<int> {
    seq![
        btf(4091, p[0], 201, p[1]),
        btf(201, p[0], -4091, p[1]),
        btf(3973, p[2], 995, p[3]),
        btf(995, p[2], -3973, p[3]),
        btf(3703, p[4], 1751, p[5]),
        btf(1751, p[4], -3703, p[5]),
        btf(3290, p[6], 2440, p[7]),
        btf(2440, p[6], -3290, p[7]),
        btf(2751, p[8], 3035, p[9]),
        btf(3035, p[8], -2751, p[9]),
        btf(2106, p[10], 3513, p[11]),
        btf(3513, p[10], -2106, p[11]),
        btf(1380, p[12], 3857, p[13]),
        btf(3857, p[12], -1380, p[13]),
        btf(601, p[14], 4052, p[15]),
        btf(4052, p[14], -601, p[15]),
    ]
}

/// Stage 3 of the 16-point inverse ADST.
#[verifier::opaque]
pub open spec fn iadst16_stage3(p: Seq<int>) -> Seq<int> {
    seq![
        p[0] + p[8],
        p[1] + p[9],
        p[2] + p[10],
        p[3] + p[11],
        p[4] + p[12],
        p[5] + p[13],
        p[6] + p[14],
        p[7] + p[15],
        p[0] - p[8],
        p[1] - p[9],
        p[2] - p[10],
        p[3] - p[11],
        p[4] - p[12],
        p[5] - p[13],
        p[6] - p[14],
        p[7] - p[15],
    ]
}

/// Stage 4 of the 16-point inverse ADST.
#[verifier::opaque]
pub open spec fn iadst16_stage4(p: Seq<int>) -> Seq<int> {
    seq![
        p[0],
        p[1],
        p[2],
        p[3],
        p[4],
        p[5],
        p[6],
        p[7],
        btf(4017, p[8], 799, p[9]),
        btf(799, p[8], -4017, p[9]),
        btf(2276, p[10], 3406, p[11]),
        btf(3406, p[10], -2276, p[11]),
        btf(-799, p[12], 4017, p[13]),
        btf(4017, p[12], 799, p[13]),
        btf(-3406, p[14], 2276, p[15]),
        btf(2276, p[14], 3406, p[15]),
    ]
}

/// Stage 5 of the 16-point inverse ADST.
#[verifier::opaque]
pub open spec fn iadst16_stage5(p: Seq<int>) -> Seq<int> {
    seq![
        p[0] + p[4],
        p[1] + p[5],
        p[2] + p[6],
        p[3] + p[7],
        p[0] - p[4],
        p[1] - p[5],
        p[2] - p[6],
        p[3] - p[7],
        p[8] + p[12],
        p[9] + p[13],
        p[10] + p[14],
        p[11] + p[15],
        p[8] - p[12],
        p[9] - p[13],
        p[10] - p[14],
        p[11] - p[15],
    ]
}

/// Stage 6 of the 16-point inverse ADST.
#[verifier::opaque]
pub open spec fn iadst16_stage6(p: Seq<int>) -> Seq<int> {
    seq![
        p[0],
        p[1],
        p[2],
        p[3],
        btf(3784, p[4], 1567, p[5]),
        btf(1567, p[4], -3784, p[5]),
        btf(-1567, p[6], 3784, p[7]),
        btf(3784, p[6], 1567, p[7]),
        p[8],
        p[9],
        p[10],
        p[11],
        btf(3784, p[12], 1567, p[13]),
        btf(1567, p[12], -3784, p[13]),
        btf(-1567, p[14], 3784, p[15]),
        btf(3784, p[14], 1567, p[15]),
    ]
}

/// Stage 7 of the 16-point inverse ADST.
#[verifier::opaque]
pub open spec fn iadst16_stage7(p: Seq<int>) -> Seq<int> {
    seq![
        p[0] + p[2],
        p[1] + p[3],
        p[0] - p[2],
        p[1] - p[3],
        p[4] + p[6],
        p[5] + p[7],
        p[4] - p[6],
        p[5] - p[7],
        p[8] + p[10],
        p[9] + p[11],
        p[8] - p[10],
        p[9] - p[11],
        p[12] + p[14],
        p[13] + p[15],
        p[12] - p[14],
        p[13] - p[15],
    ]
}

/// Stage 8 of the 16-point inverse ADST.
#[verifier::opaque]
pub open spec fn iadst16_stage8(p: Seq<int>) -> Seq<int> {
    seq![
        p[0],
        p[1],
        btf(2896, p[2], 2896, p[3]),
        btf(2896, p[2], -2896, p[3]),
        p[4],
        p[5],
        btf(2896, p[6], 2896, p[7]),
        btf(2896, p[6], -2896, p[7]),
        p[8],
        p[9],
        btf(2896, p[10], 2896, p[11]),
        btf(2896, p[10], -2896, p[11]),
        p[12],
        p[13],
        btf(2896, p[14], 2896, p[15]),
        btf(2896, p[14], -2896, p[15]),
    ]
}

/// Stage 9 of the 16-point inverse ADST.
#[verifier::opaque]
pub open spec fn iadst16_stage9(p: Seq<int>) -> Seq<int> {
    seq![
        p[0],
        -p[8],
        p[12],
        -p[4],
        p[6],
        -p[14],
        p[10],
        -p[2],
        p[3],
        -p[11],
        p[15],
        -p[7],
        p[5],
        -p[13],
        p[9],
        -p[1],
    ]
}

/// 16-point inverse ADST
pub open spec fn spec_iadst16(x: Seq<i32>) -> Seq<int> {
    iadst16_stage9(iadst16_stage8(iadst16_stage7(iadst16_stage6(iadst16_stage5(iadst16_stage4(iadst16_stage3(iadst16_stage2(iadst16_stage1(ints(x))))))))))
}

/// Stage 1 of the 16-point inverse ADST on values of at most 8388607.
#[verifier::rlimit(50)]
fn iadst16_stage1_exec(p: &[i32; 16]) -> (r: [i32; 16])
    requires bounded(p@, 16, 8388607),
    ensures
        ints(r@) == iadst16_stage1(ints(p@)),
        bounded(r@, 16, 8388607),
{
    proof {
        reveal(iadst16_stage1);
        assert(-8388607 <= p@[0] <= 8388607);
        assert(-8388607 <= p@[1] <= 8388607);
        assert(-8388607 <= p@[2] <= 8388607);
        assert(-8388607 <= p@[3] <= 8388607);
        assert(-8388607 <= p@[4] <= 8388607);
        assert(-8388607 <= p@[5] <= 8388607);
        assert(-8388607 <= p@[6] <= 8388607);
        assert(-8388607 <= p@[7] <= 8388607);
        assert(-8388607 <= p@[8] <= 8388607);
        assert(-8388607 <= p@[9] <= 8388607);
        assert(-8388607 <= p@[10] <= 8388607);
        assert(-8388607 <= p@[11] <= 8388607);
        assert(-8388607 <= p@[12] <= 8388607);
        assert(-8388607 <= p@[13] <= 8388607);
        assert(-8388607 <= p@[14] <= 8388607);
        assert(-8388607 <= p@[15] <= 8388607);
    }
    let t0: i32 = p[15];
    let t1: i32 = p[0];
    let t2: i32 = p[13];
    let t3: i32 = p[2];
    let t4: i32 = p[11];
    let t5: i32 = p[4];
    let t6: i32 = p[9];
    let t7: i32 = p[6];
    let t8: i32 = p[7];
    let t9: i32 = p[8];
    let t10: i32 = p[5];
    let t11: i32 = p[10];
    let t12: i32 = p[3];
    let t13: i32 = p[12];
    let t14: i32 = p[1];
    let t15: i32 = p[14];
    let r: [i32; 16] = [t0, t1, t2, t3, t4, t5, t6, t7, t8, t9, t10, t11, t12, t13, t14, t15];
    proof {
        assert(r@ =~= seq![t0, t1, t2, t3, t4, t5, t6, t7, t8, t9, t10, t11, t12, t13, t14, t15]);
        assert(ints(r@) =~= iadst16_stage1(ints(p@)));
    }
    r
}

/// Stage 1 of the 16-point inverse ADST grows a bound `b` to at most `1 * b + 0`.
pub proof fn lemma_iadst16_stage1_gain(p: Seq<int>, b: int)
    requires b >= 0, bounded_int(p, 16, b),
    ensures bounded_int(iadst16_stage1(p), 16, 1 * b + 0),
{
    reveal(iadst16_stage1);
    assert(-b <= p[15] <= b);
    assert(-b <= p[0] <= b);
    assert(-b <= p[13] <= b);
    assert(-b <= p[2] <= b);
    assert(-b <= p[11] <= b);
    assert(-b <= p[4] <= b);
    assert(-b <= p[9] <= b);
    assert(-b <= p[6] <= b);
    assert(-b <= p[7] <= b);
    assert(-b <= p[8] <= b);
    assert(-b <= p[5] <= b);
    assert(-b <= p[10] <= b);
    assert(-b <= p[3] <= b);
    assert(-b <= p[12] <= b);
    assert(-b <= p[1] <= b);
    assert(-b <= p[14] <= b);
}

/// Stage 2 of the 16-point inverse ADST on values of at most 8388607.
#[verifier::rlimit(50)]
fn iadst16_stage2_exec(p: &[i32; 16]) -> (r: [i32; 16])
    requires bounded(p@, 16, 8388607),
    ensures
        ints(r@) == iadst16_stage2(ints(p@)),
        bounded(r@, 16, 16777215),
{
    proof {
        reveal(iadst16_stage2);
        assert(-8388607 <= p@[0] <= 8388607);
        assert(-8388607 <= p@[1] <= 8388607);
        assert(-8388607 <= p@[2] <= 8388607);
        assert(-8388607 <= p@[3] <= 8388607);
        assert(-8388607 <= p@[4] <= 8388607);
        assert(-8388607 <= p@[5] <= 8388607);
        assert(-8388607 <= p@[6] <= 8388607);
        assert(-8388607 <= p@[7] <= 8388607);
        assert(-8388607 <= p@[8] <= 8388607);
        assert(-8388607 <= p@[9] <= 8388607);
        assert(-8388607 <= p@[10] <= 8388607);
        assert(-8388607 <= p@[11] <= 8388607);
        assert(-8388607 <= p@[12] <= 8388607);
        assert(-8388607 <= p@[13] <= 8388607);
        assert(-8388607 <= p@[14] <= 8388607);
        assert(-8388607 <= p@[15] <= 8388607);
    }
    let t0: i32 = hb(4091, p[0], 201, p[1]);
    let t1: i32 = hb(201, p[0], -4091, p[1]);
    let t2: i32 = hb(3973, p[2], 995, p[3]);
    let t3: i32 = hb(995, p[2], -3973, p[3]);
    let t4: i32 = hb(3703, p[4], 1751, p[5]);
    let t5: i32 = hb(1751, p[4], -3703, p[5]);
    let t6: i32 = hb(3290, p[6], 2440, p[7]);
    let t7: i32 = hb(2440, p[6], -3290, p[7]);
    let t8: i32 = hb(2751, p[8], 3035, p[9]);
    let t9: i32 = hb(3035, p[8], -2751, p[9]);
    let t10: i32 = hb(2106, p[10], 3513, p[11]);
    let t11: i32 = hb(3513, p[10], -2106, p[11]);
    let t12: i32 = hb(1380, p[12], 3857, p[13]);
    let t13: i32 = hb(3857, p[12], -1380, p[13]);
    let t14: i32 = hb(601, p[14], 4052, p[15]);
    let t15: i32 = hb(4052, p[14], -601, p[15]);
    let r: [i32; 16] = [t0, t1, t2, t3, t4, t5, t6, t7, t8, t9, t10, t11, t12, t13, t14, t15];
    proof {
        assert(r@ =~= seq![t0, t1, t2, t3, t4, t5, t6, t7, t8, t9, t10, t11, t12, t13, t14, t15]);
        assert(ints(r@) =~= iadst16_stage2(ints(p@)));
    }
    r
}

/// Stage 2 of the 16-point inverse ADST grows a bound `b` to at most `2 * b + 1`.
pub proof fn lemma_iadst16_stage2_gain(p: Seq<int>, b: int)
    requires b >= 0, bounded_int(p, 16, b),
    ensures bounded_int(iadst16_stage2(p), 16, 2 * b + 1),
{
    reveal(iadst16_stage2);
    assert(-b <= p[0] <= b && -b <= p[1] <= b);
    lemma_btf_bound(4091, p[0], 201, p[1], b, b);
    assert(-b <= p[0] <= b && -b <= p[1] <= b);
    lemma_btf_bound(201, p[0], -4091, p[1], b, b);
    assert(-b <= p[2] <= b && -b <= p[3] <= b);
    lemma_btf_bound(3973, p[2], 995, p[3], b, b);
    assert(-b <= p[2] <= b && -b <= p[3] <= b);
    lemma_btf_bound(995, p[2], -3973, p[3], b, b);
    assert(-b <= p[4] <= b && -b <= p[5] <= b);
    lemma_btf_bound(3703, p[4], 1751, p[5], b, b);
    assert(-b <= p[4] <= b && -b <= p[5] <= b);
    lemma_btf_bound(1751, p[4], -3703, p[5], b, b);
    assert(-b <= p[6] <= b && -b <= p[7] <= b);
    lemma_btf_bound(3290, p[6], 2440, p[7], b, b);
    assert(-b <= p[6] <= b && -b <= p[7] <= b);
    lemma_btf_bound(2440, p[6], -3290, p[7], b, b);
    assert(-b <= p[8] <= b && -b <= p[9] <= b);
    lemma_btf_bound(2751, p[8], 3035, p[9], b, b);
    assert(-b <= p[8] <= b && -b <= p[9] <= b);
    lemma_btf_bound(3035, p[8], -2751, p[9], b, b);
    assert(-b <= p[10] <= b && -b <= p[11] <= b);
    lemma_btf_bound(2106, p[10], 3513, p[11], b, b);
    assert(-b <= p[10] <= b && -b <= p[11] <= b);
    lemma_btf_bound(3513, p[10], -2106, p[11], b, b);
    assert(-b <= p[12] <= b && -b <= p[13] <= b);
    lemma_btf_bound(1380, p[12], 3857, p[13], b, b);
    assert(-b <= p[12] <= b && -b <= p[13] <= b);
    lemma_btf_bound(3857, p[12], -1380, p[13], b, b);
    assert(-b <= p[14] <= b && -b <= p[15] <= b);
    lemma_btf_bound(601, p[14], 4052, p[15], b, b);
    assert(-b <= p[14] <= b && -b <= p[15] <= b);
    lemma_btf_bound(4052, p[14], -601, p[15], b, b);
}

/// Stage 3 of the 16-point inverse ADST on values of at most 16777215.
#[verifier::rlimit(50)]
fn iadst16_stage3_exec(p: &[i32; 16]) -> (r: [i32; 16])
    requires bounded(p@, 16, 16777215),
    ensures
        ints(r@) == iadst16_stage3(ints(p@)),
        bounded(r@, 16, 33554430),
{
    proof {
        reveal(iadst16_stage3);
        assert(-16777215 <= p@[0] <= 16777215);
        assert(-16777215 <= p@[1] <= 16777215);
        assert(-16777215 <= p@[2] <= 16777215);
        assert(-16777215 <= p@[3] <= 16777215);
        assert(-16777215 <= p@[4] <= 16777215);
        assert(-16777215 <= p@[5] <= 16777215);
        assert(-16777215 <= p@[6] <= 16777215);
        assert(-16777215 <= p@[7] <= 16777215);
        assert(-16777215 <= p@[8] <= 16777215);
        assert(-16777215 <= p@[9] <= 16777215);
        assert(-16777215 <= p@[10] <= 16777215);
        assert(-16777215 <= p@[11] <= 16777215);
        assert(-16777215 <= p@[12] <= 16777215);
        assert(-16777215 <= p@[13] <= 16777215);
        assert(-16777215 <= p@[14] <= 16777215);
        assert(-16777215 <= p@[15] <= 16777215);
    }
    let t0: i32 = p[0] + p[8];
    let t1: i32 = p[1] + p[9];
    let t2: i32 = p[2] + p[10];
    let t3: i32 = p[3] + p[11];
    let t4: i32 = p[4] + p[12];
    let t5: i32 = p[5] + p[13];
    let t6: i32 = p[6] + p[14];
    let t7: i32 = p[7] + p[15];
    let t8: i32 = p[0] - p[8];
    let t9: i32 = p[1] - p[9];
    let t10: i32 = p[2] - p[10];
    let t11: i32 = p[3] - p[11];
    let t12: i32 = p[4] - p[12];
    let t13: i32 = p[5] - p[13];
    let t14: i32 = p[6] - p[14];
    let t15: i32 = p[7] - p[15];
    let r: [i32; 16] = [t0, t1, t2, t3, t4, t5, t6, t7, t8, t9, t10, t11, t12, t13, t14, t15];
    proof {
        assert(r@ =~= seq![t0, t1, t2, t3, t4, t5, t6, t7, t8, t9, t10, t11, t12, t13, t14, t15]);
        assert(ints(r@) =~= iadst16_stage3(ints(p@)));
    }
    r
}

/// Stage 3 of the 16-point inverse ADST grows a bound `b` to at most `2 * b + 0`.
pub proof fn lemma_iadst16_stage3_gain(p: Seq<int>, b: int)
    requires b >= 0, bounded_int(p, 16, b),
    ensures bounded_int(iadst16_stage3(p), 16, 2 * b + 0),
{
    reveal(iadst16_stage3);
    assert(-b <= p[0] <= b && -b <= p[8] <= b);
    assert(-b <= p[1] <= b && -b <= p[9] <= b);
    assert(-b <= p[2] <= b && -b <= p[10] <= b);
    assert(-b <= p[3] <= b && -b <= p[11] <= b);
    assert(-b <= p[4] <= b && -b <= p[12] <= b);
    assert(-b <= p[5] <= b && -b <= p[13] <= b);
    assert(-b <= p[6] <= b && -b <= p[14] <= b);
    assert(-b <= p[7] <= b && -b <= p[15] <= b);
    assert(-b <= p[0] <= b && -b <= p[8] <= b);
    assert(-b <= p[1] <= b && -b <= p[9] <= b);
    assert(-b <= p[2] <= b && -b <= p[10] <= b);
    assert(-b <= p[3] <= b && -b <= p[11] <= b);
    assert(-b <= p[4] <= b && -b <= p[12] <= b);
    assert(-b <= p[5] <= b && -b <= p[13] <= b);
    assert(-b <= p[6] <= b && -b <= p[14] <= b);
    assert(-b <= p[7] <= b && -b <= p[15] <= b);
}

/// Stage 4 of the 16-point inverse ADST on values of at most 33554430.
#[verifier::rlimit(50)]
fn iadst16_stage4_exec(p: &[i32; 16]) -> (r: [i32; 16])
    requires bounded(p@, 16, 33554430),
    ensures
        ints(r@) == iadst16_stage4(ints(p@)),
        bounded(r@, 16, 67108861),
{
    proof {
        reveal(iadst16_stage4);
        assert(-33554430 <= p@[0] <= 33554430);
        assert(-33554430 <= p@[1] <= 33554430);
        assert(-33554430 <= p@[2] <= 33554430);
        assert(-33554430 <= p@[3] <= 33554430);
        assert(-33554430 <= p@[4] <= 33554430);
        assert(-33554430 <= p@[5] <= 33554430);
        assert(-33554430 <= p@[6] <= 33554430);
        assert(-33554430 <= p@[7] <= 33554430);
        assert(-33554430 <= p@[8] <= 33554430);
        assert(-33554430 <= p@[9] <= 33554430);
        assert(-33554430 <= p@[10] <= 33554430);
        assert(-33554430 <= p@[11] <= 33554430);
        assert(-33554430 <= p@[12] <= 33554430);
        assert(-33554430 <= p@[13] <= 33554430);
        assert(-33554430 <= p@[14] <= 33554430);
        assert(-33554430 <= p@[15] <= 33554430);
    }
    let t0: i32 = p[0];
    let t1: i32 = p[1];
    let t2: i32 = p[2];
    let t3: i32 = p[3];
    let t4: i32 = p[4];
    let t5: i32 = p[5];
    let t6: i32 = p[6];
    let t7: i32 = p[7];
    let t8: i32 = hb(4017, p[8], 799, p[9]);
    let t9: i32 = hb(799, p[8], -4017, p[9]);
    let t10: i32 = hb(2276, p[10], 3406, p[11]);
    let t11: i32 = hb(3406, p[10], -2276, p[11]);
    let t12: i32 = hb(-799, p[12], 4017, p[13]);
    let t13: i32 = hb(4017, p[12], 799, p[13]);
    let t14: i32 = hb(-3406, p[14], 2276, p[15]);
    let t15: i32 = hb(2276, p[14], 3406, p[15]);
    let r: [i32; 16] = [t0, t1, t2, t3, t4, t5, t6, t7, t8, t9, t10, t11, t12, t13, t14, t15];
    proof {
        assert(r@ =~= seq![t0, t1, t2, t3, t4, t5, t6, t7, t8, t9, t10, t11, t12, t13, t14, t15]);
        assert(ints(r@) =~= iadst16_stage4(ints(p@)));
    }
    r
}

/// Stage 4 of the 16-point inverse ADST grows a bound `b` to at most `2 * b + 1`.
pub proof fn lemma_iadst16_stage4_gain(p: Seq<int>, b: int)
    requires b >= 0, bounded_int(p, 16, b),
    ensures bounded_int(iadst16_stage4(p), 16, 2 * b + 1),
{
    reveal(iadst16_stage4);
    assert(-b <= p[0] <= b);
    assert(-b <= p[1] <= b);
    assert(-b <= p[2] <= b);
    assert(-b <= p[3] <= b);
    assert(-b <= p[4] <= b);
    assert(-b <= p[5] <= b);
    assert(-b <= p[6] <= b);
    assert(-b <= p[7] <= b);
    assert(-b <= p[8] <= b && -b <= p[9] <= b);
    lemma_btf_bound(4017, p[8], 799, p[9], b, b);
    assert(-b <= p[8] <= b && -b <= p[9] <= b);
    lemma_btf_bound(799, p[8], -4017, p[9], b, b);
    assert(-b <= p[10] <= b && -b <= p[11] <= b);
    lemma_btf_bound(2276, p[10], 3406, p[11], b, b);
    assert(-b <= p[10] <= b && -b <= p[11] <= b);
    lemma_btf_bound(3406, p[10], -2276, p[11], b, b);
    assert(-b <= p[12] <= b && -b <= p[13] <= b);
    lemma_btf_bound(-799, p[12], 4017, p[13], b, b);
    assert(-b <= p[12] <= b && -b <= p[13] <= b);
    lemma_btf_bound(4017, p[12], 799, p[13], b, b);
    assert(-b <= p[14] <= b && -b <= p[15] <= b);
    lemma_btf_bound(-3406, p[14], 2276, p[15], b, b);
    assert(-b <= p[14] <= b && -b <= p[15] <= b);
    lemma_btf_bound(2276, p[14], 3406, p[15], b, b);
}

/// Stage 5 of the 16-point inverse ADST on values of at most 67108861.
#[verifier::rlimit(50)]
fn iadst16_stage5_exec(p: &[i32; 16]) -> (r: [i32; 16])
    requires bounded(p@, 16, 67108861),
    ensures
        ints(r@) == iadst16_stage5(ints(p@)),
        bounded(r@, 16, 134217722),
{
    proof {
        reveal(iadst16_stage5);
        assert(-67108861 <= p@[0] <= 67108861);
        assert(-67108861 <= p@[1] <= 67108861);
        assert(-67108861 <= p@[2] <= 67108861);
        assert(-67108861 <= p@[3] <= 67108861);
        assert(-67108861 <= p@[4] <= 67108861);
        assert(-67108861 <= p@[5] <= 67108861);
        assert(-67108861 <= p@[6] <= 67108861);
        assert(-67108861 <= p@[7] <= 67108861);
        assert(-67108861 <= p@[8] <= 67108861);
        assert(-67108861 <= p@[9] <= 67108861);
        assert(-67108861 <= p@[10] <= 67108861);
        assert(-67108861 <= p@[11] <= 67108861);
        assert(-67108861 <= p@[12] <= 67108861);
        assert(-67108861 <= p@[13] <= 67108861);
        assert(-67108861 <= p@[14] <= 67108861);
        assert(-67108861 <= p@[15] <= 67108861);
    }
    let t0: i32 = p[0] + p[4];
    let t1: i32 = p[1] + p[5];
    let t2: i32 = p[2] + p[6];
    let t3: i32 = p[3] + p[7];
    let t4: i32 = p[0] - p[4];
    let t5: i32 = p[1] - p[5];
    let t6: i32 = p[2] - p[6];
    let t7: i32 = p[3] - p[7];
    let t8: i32 = p[8] + p[12];
    let t9: i32 = p[9] + p[13];
    let t10: i32 = p[10] + p[14];
    let t11: i32 = p[11] + p[15];
    let t12: i32 = p[8] - p[12];
    let t13: i32 = p[9] - p[13];
    let t14: i32 = p[10] - p[14];
    let t15: i32 = p[11] - p[15];
    let r: [i32; 16] = [t0, t1, t2, t3, t4, t5, t6, t7, t8, t9, t10, t11, t12, t13, t14, t15];
    proof {
        assert(r@ =~= seq![t0, t1, t2, t3, t4, t5, t6, t7, t8, t9, t10, t11, t12, t13, t14, t15]);
        assert(ints(r@) =~= iadst16_stage5(ints(p@)));
    }
    r
}

/// Stage 5 of the 16-point inverse ADST grows a bound `b` to at most `2 * b + 0`.
pub proof fn lemma_iadst16_stage5_gain(p: Seq<int>, b: int)
    requires b >= 0, bounded_int(p, 16, b),
    ensures bounded_int(iadst16_stage5(p), 16, 2 * b + 0),
{
    reveal(iadst16_stage5);
    assert(-b <= p[0] <= b && -b <= p[4] <= b);
    assert(-b <= p[1] <= b && -b <= p[5] <= b);
    assert(-b <= p[2] <= b && -b <= p[6] <= b);
    assert(-b <= p[3] <= b && -b <= p[7] <= b);
    assert(-b <= p[0] <= b && -b <= p[4] <= b);
    assert(-b <= p[1] <= b && -b <= p[5] <= b);
    assert(-b <= p[2] <= b && -b <= p[6] <= b);
    assert(-b <= p[3] <= b && -b <= p[7] <= b);
    assert(-b <= p[8] <= b && -b <= p[12] <= b);
    assert(-b <= p[9] <= b && -b <= p[13] <= b);
    assert(-b <= p[10] <= b && -b <= p[14] <= b);
    assert(-b <= p[11] <= b && -b <= p[15] <= b);
    assert(-b <= p[8] <= b && -b <= p[12] <= b);
    assert(-b <= p[9] <= b && -b <= p[13] <= b);
    assert(-b <= p[10] <= b && -b <= p[14] <= b);
    assert(-b <= p[11] <= b && -b <= p[15] <= b);
}

/// Stage 6 of the 16-point inverse ADST on values of at most 134217722.
#[verifier::rlimit(50)]
fn iadst16_stage6_exec(p: &[i32; 16]) -> (r: [i32; 16])
    requires bounded(p@, 16, 134217722),
    ensures
        ints(r@) == iadst16_stage6(ints(p@)),
        bounded(r@, 16, 268435445),
{
    proof {
        reveal(iadst16_stage6);
        assert(-134217722 <= p@[0] <= 134217722);
        assert(-134217722 <= p@[1] <= 134217722);
        assert(-134217722 <= p@[2] <= 134217722);
        assert(-134217722 <= p@[3] <= 134217722);
        assert(-134217722 <= p@[4] <= 134217722);
        assert(-134217722 <= p@[5] <= 134217722);
        assert(-134217722 <= p@[6] <= 134217722);
        assert(-134217722 <= p@[7] <= 134217722);
        assert(-134217722 <= p@[8] <= 134217722);
        assert(-134217722 <= p@[9] <= 134217722);
        assert(-134217722 <= p@[10] <= 134217722);
        assert(-134217722 <= p@[11] <= 134217722);
        assert(-134217722 <= p@[12] <= 134217722);
        assert(-134217722 <= p@[13] <= 134217722);
        assert(-134217722 <= p@[14] <= 134217722);
        assert(-134217722 <= p@[15] <= 134217722);
    }
    let t0: i32 = p[0];
    let t1: i32 = p[1];
    let t2: i32 = p[2];
    let t3: i32 = p[3];
    let t4: i32 = hb(3784, p[4], 1567, p[5]);
    let t5: i32 = hb(1567, p[4], -3784, p[5]);
    let t6: i32 = hb(-1567, p[6], 3784, p[7]);
    let t7: i32 = hb(3784, p[6], 1567, p[7]);
    let t8: i32 = p[8];
    let t9: i32 = p[9];
    let t10: i32 = p[10];
    let t11: i32 = p[11];
    let t12: i32 = hb(3784, p[12], 1567, p[13]);
    let t13: i32 = hb(1567, p[12], -3784, p[13]);
    let t14: i32 = hb(-1567, p[14], 3784, p[15]);
    let t15: i32 = hb(3784, p[14], 1567, p[15]);
    let r: [i32; 16] = [t0, t1, t2, t3, t4, t5, t6, t7, t8, t9, t10, t11, t12, t13, t14, t15];
    proof {
        assert(r@ =~= seq![t0, t1, t2, t3, t4, t5, t6, t7, t8, t9, t10, t11, t12, t13, t14, t15]);
        assert(ints(r@) =~= iadst16_stage6(ints(p@)));
    }
    r
}

/// Stage 6 of the 16-point inverse ADST grows a bound `b` to at most `2 * b + 1`.
pub proof fn lemma_iadst16_stage6_gain(p: Seq<int>, b: int)
    requires b >= 0, bounded_int(p, 16, b),
    ensures bounded_int(iadst16_stage6(p), 16, 2 * b + 1),
{
    reveal(iadst16_stage6);
    assert(-b <= p[0] <= b);
    assert(-b <= p[1] <= b);
    assert(-b <= p[2] <= b);
    assert(-b <= p[3] <= b);
    assert(-b <= p[4] <= b && -b <= p[5] <= b);
    lemma_btf_bound(3784, p[4], 1567, p[5], b, b);
    assert(-b <= p[4] <= b && -b <= p[5] <= b);
    lemma_btf_bound(1567, p[4], -3784, p[5], b, b);
    assert(-b <= p[6] <= b && -b <= p[7] <= b);
    lemma_btf_bound(-1567, p[6], 3784, p[7], b, b);
    assert(-b <= p[6] <= b && -b <= p[7] <= b);
    lemma_btf_bound(3784, p[6], 1567, p[7], b, b);
    assert(-b <= p[8] <= b);
    assert(-b <= p[9] <= b);
    assert(-b <= p[10] <= b);
    assert(-b <= p[11] <= b);
    assert(-b <= p[12] <= b && -b <= p[13] <= b);
    lemma_btf_bound(3784, p[12], 1567, p[13], b, b);
    assert(-b <= p[12] <= b && -b <= p[13] <= b);
    lemma_btf_bound(1567, p[12], -3784, p[13], b, b);
    assert(-b <= p[14] <= b && -b <= p[15] <= b);
    lemma_btf_bound(-1567, p[14], 3784, p[15], b, b);
    assert(-b <= p[14] <= b && -b <= p[15] <= b);
    lemma_btf_bound(3784, p[14], 1567, p[15], b, b);
}

/// Stage 7 of the 16-point inverse ADST on values of at most 268435445.
#[verifier::rlimit(50)]
fn iadst16_stage7_exec(p: &[i32; 16]) -> (r: [i32; 16])
    requires bounded(p@, 16, 268435445),
    ensures
        ints(r@) == iadst16_stage7(ints(p@)),
        bounded(r@, 16, 536870890),
{
    proof {
        reveal(iadst16_stage7);
        assert(-268435445 <= p@[0] <= 268435445);
        assert(-268435445 <= p@[1] <= 268435445);
        assert(-268435445 <= p@[2] <= 268435445);
        assert(-268435445 <= p@[3] <= 268435445);
        assert(-268435445 <= p@[4] <= 268435445);
        assert(-268435445 <= p@[5] <= 268435445);
        assert(-268435445 <= p@[6] <= 268435445);
        assert(-268435445 <= p@[7] <= 268435445);
        assert(-268435445 <= p@[8] <= 268435445);
        assert(-268435445 <= p@[9] <= 268435445);
        assert(-268435445 <= p@[10] <= 268435445);
        assert(-268435445 <= p@[11] <= 268435445);
        assert(-268435445 <= p@[12] <= 268435445);
        assert(-268435445 <= p@[13] <= 268435445);
        assert(-268435445 <= p@[14] <= 268435445);
        assert(-268435445 <= p@[15] <= 268435445);
    }
    let t0: i32 = p[0] + p[2];
    let t1: i32 = p[1] + p[3];
    let t2: i32 = p[0] - p[2];
    let t3: i32 = p[1] - p[3];
    let t4: i32 = p[4] + p[6];
    let t5: i32 = p[5] + p[7];
    let t6: i32 = p[4] - p[6];
    let t7: i32 = p[5] - p[7];
    let t8: i32 = p[8] + p[10];
    let t9: i32 = p[9] + p[11];
    let t10: i32 = p[8] - p[10];
    let t11: i32 = p[9] - p[11];
    let t12: i32 = p[12] + p[14];
    let t13: i32 = p[13] + p[15];
    let t14: i32 = p[12] - p[14];
    let t15: i32 = p[13] - p[15];
    let r: [i32; 16] = [t0, t1, t2, t3, t4, t5, t6, t7, t8, t9, t10, t11, t12, t13, t14, t15];
    proof {
        assert(r@ =~= seq![t0, t1, t2, t3, t4, t5, t6, t7, t8, t9, t10, t11, t12, t13, t14, t15]);
        assert(ints(r@) =~= iadst16_stage7(ints(p@)));
    }
    r
}

/// Stage 7 of the 16-point inverse ADST grows a bound `b` to at most `2 * b + 0`.
pub proof fn lemma_iadst16_stage7_gain(p: Seq<int>, b: int)
    requires b >= 0, bounded_int(p, 16, b),
    ensures bounded_int(iadst16_stage7(p), 16, 2 * b + 0),
{
    reveal(iadst16_stage7);
    assert(-b <= p[0] <= b && -b <= p[2] <= b);
    assert(-b <= p[1] <= b && -b <= p[3] <= b);
    assert(-b <= p[0] <= b && -b <= p[2] <= b);
    assert(-b <= p[1] <= b && -b <= p[3] <= b);
    assert(-b <= p[4] <= b && -b <= p[6] <= b);
    assert(-b <= p[5] <= b && -b <= p[7] <= b);
    assert(-b <= p[4] <= b && -b <= p[6] <= b);
    assert(-b <= p[5] <= b && -b <= p[7] <= b);
    assert(-b <= p[8] <= b && -b <= p[10] <= b);
    assert(-b <= p[9] <= b && -b <= p[11] <= b);
    assert(-b <= p[8] <= b && -b <= p[10] <= b);
    assert(-b <= p[9] <= b && -b <= p[11] <= b);
    assert(-b <= p[12] <= b && -b <= p[14] <= b);
    assert(-b <= p[13] <= b && -b <= p[15] <= b);
    assert(-b <= p[12] <= b && -b <= p[14] <= b);
    assert(-b <= p[13] <= b && -b <= p[15] <= b);
}

/// Stage 8 of the 16-point inverse ADST on values of at most 536870890.
#[verifier::rlimit(50)]
fn iadst16_stage8_exec(p: &[i32; 16]) -> (r: [i32; 16])
    requires bounded(p@, 16, 536870890),
    ensures
        ints(r@) == iadst16_stage8(ints(p@)),
        bounded(r@, 16, 1073741781),
{
    proof {
        reveal(iadst16_stage8);
        assert(-536870890 <= p@[0] <= 536870890);
        assert(-536870890 <= p@[1] <= 536870890);
        assert(-536870890 <= p@[2] <= 536870890);
        assert(-536870890 <= p@[3] <= 536870890);
        assert(-536870890 <= p@[4] <= 536870890);
        assert(-536870890 <= p@[5] <= 536870890);
        assert(-536870890 <= p@[6] <= 536870890);
        assert(-536870890 <= p@[7] <= 536870890);
        assert(-536870890 <= p@[8] <= 536870890);
        assert(-536870890 <= p@[9] <= 536870890);
        assert(-536870890 <= p@[10] <= 536870890);
        assert(-536870890 <= p@[11] <= 536870890);
        assert(-536870890 <= p@[12] <= 536870890);
        assert(-536870890 <= p@[13] <= 536870890);
        assert(-536870890 <= p@[14] <= 536870890);
        assert(-536870890 <= p@[15] <= 536870890);
    }
    let t0: i32 = p[0];
    let t1: i32 = p[1];
    let t2: i32 = hb(2896, p[2], 2896, p[3]);
    let t3: i32 = hb(2896, p[2], -2896, p[3]);
    let t4: i32 = p[4];
    let t5: i32 = p[5];
    let t6: i32 = hb(2896, p[6], 2896, p[7]);
    let t7: i32 = hb(2896, p[6], -2896, p[7]);
    let t8: i32 = p[8];
    let t9: i32 = p[9];
    let t10: i32 = hb(2896, p[10], 2896, p[11]);
    let t11: i32 = hb(2896, p[10], -2896, p[11]);
    let t12: i32 = p[12];
    let t13: i32 = p[13];
    let t14: i32 = hb(2896, p[14], 2896, p[15]);
    let t15: i32 = hb(2896, p[14], -2896, p[15]);
    let r: [i32; 16] = [t0, t1, t2, t3, t4, t5, t6, t7, t8, t9, t10, t11, t12, t13, t14, t15];
    proof {
        assert(r@ =~= seq![t0, t1, t2, t3, t4, t5, t6, t7, t8, t9, t10, t11, t12, t13, t14, t15]);
        assert(ints(r@) =~= iadst16_stage8(ints(p@)));
    }
    r
}

/// Stage 8 of the 16-point inverse ADST grows a bound `b` to at most `2 * b + 1`.
pub proof fn lemma_iadst16_stage8_gain(p: Seq<int>, b: int)
    requires b >= 0, bounded_int(p, 16, b),
    ensures bounded_int(iadst16_stage8(p), 16, 2 * b + 1),
{
    reveal(iadst16_stage8);
    assert(-b <= p[0] <= b);
    assert(-b <= p[1] <= b);
    assert(-b <= p[2] <= b && -b <= p[3] <= b);
    lemma_btf_bound(2896, p[2], 2896, p[3], b, b);
    assert(-b <= p[2] <= b && -b <= p[3] <= b);
    lemma_btf_bound(2896, p[2], -2896, p[3], b, b);
    assert(-b <= p[4] <= b);
    assert(-b <= p[5] <= b);
    assert(-b <= p[6] <= b && -b <= p[7] <= b);
    lemma_btf_bound(2896, p[6], 2896, p[7], b, b);
    assert(-b <= p[6] <= b && -b <= p[7] <= b);
    lemma_btf_bound(2896, p[6], -2896, p[7], b, b);
    assert(-b <= p[8] <= b);
    assert(-b <= p[9] <= b);
    assert(-b <= p[10] <= b && -b <= p[11] <= b);
    lemma_btf_bound(2896, p[10], 2896, p[11], b, b);
    assert(-b <= p[10] <= b && -b <= p[11] <= b);
    lemma_btf_bound(2896, p[10], -2896, p[11], b, b);
    assert(-b <= p[12] <= b);
    assert(-b <= p[13] <= b);
    assert(-b <= p[14] <= b && -b <= p[15] <= b);
    lemma_btf_bound(2896, p[14], 2896, p[15], b, b);
    assert(-b <= p[14] <= b && -b <= p[15] <= b);
    lemma_btf_bound(2896, p[14], -2896, p[15], b, b);
}

/// Stage 9 of the 16-point inverse ADST on values of at most 1073741781.
#[verifier::rlimit(50)]
fn iadst16_stage9_exec(p: &[i32; 16]) -> (r: [i32; 16])
    requires bounded(p@, 16, 1073741781),
    ensures
        ints(r@) == iadst16_stage9(ints(p@)),
        bounded(r@, 16, 1073741781),
{
    proof {
        reveal(iadst16_stage9);
        assert(-1073741781 <= p@[0] <= 1073741781);
        assert(-1073741781 <= p@[1] <= 1073741781);
        assert(-1073741781 <= p@[2] <= 1073741781);
        assert(-1073741781 <= p@[3] <= 1073741781);
        assert(-1073741781 <= p@[4] <= 1073741781);
        assert(-1073741781 <= p@[5] <= 1073741781);
        assert(-1073741781 <= p@[6] <= 1073741781);
        assert(-1073741781 <= p@[7] <= 1073741781);
        assert(-1073741781 <= p@[8] <= 1073741781);
        assert(-1073741781 <= p@[9] <= 1073741781);
        assert(-1073741781 <= p@[10] <= 1073741781);
        assert(-1073741781 <= p@[11] <= 1073741781);
        assert(-1073741781 <= p@[12] <= 1073741781);
        assert(-1073741781 <= p@[13] <= 1073741781);
        assert(-1073741781 <= p@[14] <= 1073741781);
        assert(-1073741781 <= p@[15] <= 1073741781);
    }
    let t0: i32 = p[0];
    let t1: i32 = -p[8];
    let t2: i32 = p[12];
    let t3: i32 = -p[4];
    let t4: i32 = p[6];
    let t5: i32 = -p[14];
    let t6: i32 = p[10];
    let t7: i32 = -p[2];
    let t8: i32 = p[3];
    let t9: i32 = -p[11];
    let t10: i32 = p[15];
    let t11: i32 = -p[7];
    let t12: i32 = p[5];
    let t13: i32 = -p[13];
    let t14: i32 = p[9];
    let t15: i32 = -p[1];
    let r: [i32; 16] = [t0, t1, t2, t3, t4, t5, t6, t7, t8, t9, t10, t11, t12, t13, t14, t15];
    proof {
        assert(r@ =~= seq![t0, t1, t2, t3, t4, t5, t6, t7, t8, t9, t10, t11, t12, t13, t14, t15]);
        assert(ints(r@) =~= iadst16_stage9(ints(p@)));
    }
    r
}

/// Stage 9 of the 16-point inverse ADST grows a bound `b` to at most `1 * b + 0`.
pub proof fn lemma_iadst16_stage9_gain(p: Seq<int>, b: int)
    requires b >= 0, bounded_int(p, 16, b),
    ensures bounded_int(iadst16_stage9(p), 16, 1 * b + 0),
{
    reveal(iadst16_stage9);
    assert(-b <= p[0] <= b);
    assert(-b <= p[8] <= b);
    assert(-b <= p[12] <= b);
    assert(-b <= p[4] <= b);
    assert(-b <= p[6] <= b);
    assert(-b <= p[14] <= b);
    assert(-b <= p[10] <= b);
    assert(-b <= p[2] <= b);
    assert(-b <= p[3] <= b);
    assert(-b <= p[11] <= b);
    assert(-b <= p[15] <= b);
    assert(-b <= p[7] <= b);
    assert(-b <= p[5] <= b);
    assert(-b <= p[13] <= b);
    assert(-b <= p[9] <= b);
    assert(-b <= p[1] <= b);
}

/// 16-point inverse ADST
pub fn iadst16(input: &[i32], output: &mut [i32])
    requires
        input@.len() >= 16,
        old(output)@.len() >= 16,
        bounded(input@, 16, INV_TXFM_INPUT_MAX as int),
    ensures
        final(output)@.len() == old(output)@.len(),
        forall|i: int| 0 <= i < 16 ==> final(output)@[i] == #[trigger] spec_iadst16(input@)[i],
        forall|i: int| 16 <= i < old(output)@.len() ==> final(output)@[i] == old(output)@[i],
{
    let s0: [i32; 16] = [input[0], input[1], input[2], input[3], input[4], input[5], input[6], input[7], input[8], input[9], input[10], input[11], input[12], input[13], input[14], input[15]];
    proof {
        assert(s0@ =~= input@.subrange(0, 16));
    }
    let s1 = iadst16_stage1_exec(&s0);
    proof {
        assert(ints(s1@) =~= iadst16_stage1(ints(s0@)));
    }
    let s2 = iadst16_stage2_exec(&s1);
    proof {
        assert(ints(s2@) =~= iadst16_stage2(ints(s1@)));
    }
    let s3 = iadst16_stage3_exec(&s2);
    proof {
        assert(ints(s3@) =~= iadst16_stage3(ints(s2@)));
    }
    let s4 = iadst16_stage4_exec(&s3);
    proof {
        assert(ints(s4@) =~= iadst16_stage4(ints(s3@)));
    }
    let s5 = iadst16_stage5_exec(&s4);
    proof {
        assert(ints(s5@) =~= iadst16_stage5(ints(s4@)));
    }
    let s6 = iadst16_stage6_exec(&s5);
    proof {
        assert(ints(s6@) =~= iadst16_stage6(ints(s5@)));
    }
    let s7 = iadst16_stage7_exec(&s6);
    proof {
        assert(ints(s7@) =~= iadst16_stage7(ints(s6@)));
    }
    let s8 = iadst16_stage8_exec(&s7);
    proof {
        assert(ints(s8@) =~= iadst16_stage8(ints(s7@)));
    }
    let s9 = iadst16_stage9_exec(&s8);
    proof {
        assert(ints(s9@) =~= iadst16_stage9(ints(s8@)));
    }
    proof {
        lemma_iadst16_prefix(input@);
    }
    let mut i: usize = 0;
    while i < 16
        invariant
            i <= 16,
            output@.len() == old(output)@.len(),
            old(output)@.len() >= 16,
            ints(s9@) == spec_iadst16(input@),
            forall|k: int| 0 <= k < i ==> output@[k] == #[trigger] spec_iadst16(input@)[k],
            forall|k: int| 16 <= k < old(output)@.len() ==> output@[k] == old(output)@[k],
        decreases 16 - i,
    {
        output[i] = s9[i];
        proof { assert(ints(s9@)[i as int] == s9@[i as int]); }
        i = i + 1;
    }
}

/// The 16-point inverse ADST reads only the first 16 inputs.
proof fn lemma_iadst16_prefix(x: Seq<i32>)
    requires x.len() >= 16,
    ensures spec_iadst16(x) == iadst16_stage9(iadst16_stage8(iadst16_stage7(iadst16_stage6(iadst16_stage5(iadst16_stage4(iadst16_stage3(iadst16_stage2(iadst16_stage1(ints(x.subrange(0, 16))))))))))),
{
    reveal(iadst16_stage1);
    assert(ints(x).subrange(0, 16) =~= ints(x.subrange(0, 16)));
}

/// Each output of [`spec_iadst16`] is bounded by the input bound grown stage by stage.
pub proof fn lemma_iadst16_gain(x: Seq<i32>, b: int)
    requires b >= 0, bounded(x, 16, b),
    ensures bounded_int(spec_iadst16(x), 16, (1 * (2 * (2 * (2 * (2 * (2 * (2 * (2 * (1 * b + 0) + 1) + 0) + 1) + 0) + 1) + 0) + 1) + 0)),
{
    let p0 = ints(x);
    assert(bounded_int(p0, 16, b));
    lemma_iadst16_stage1_gain(p0, b);
    let p1 = iadst16_stage1(p0);
    lemma_iadst16_stage2_gain(p1, (1 * b + 0));
    let p2 = iadst16_stage2(p1);
    lemma_iadst16_stage3_gain(p2, (2 * (1 * b + 0) + 1));
    let p3 = iadst16_stage3(p2);
    lemma_iadst16_stage4_gain(p3, (2 * (2 * (1 * b + 0) + 1) + 0));
    let p4 = iadst16_stage4(p3);
    lemma_iadst16_stage5_gain(p4, (2 * (2 * (2 * (1 * b + 0) + 1) + 0) + 1));
    let p5 = iadst16_stage5(p4);
    lemma_iadst16_stage6_gain(p5, (2 * (2 * (2 * (2 * (1 * b + 0) + 1) + 0) + 1) + 0));
    let p6 = iadst16_stage6(p5);
    lemma_iadst16_stage7_gain(p6, (2 * (2 * (2 * (2 * (2 * (1 * b + 0) + 1) + 0) + 1) + 0) + 1));
    let p7 = iadst16_stage7(p6);
    lemma_iadst16_stage8_gain(p7, (2 * (2 * (2 * (2 * (2 * (2 * (1 * b + 0) + 1) + 0) + 1) + 0) + 1) + 0));
    let p8 = iadst16_stage8(p7);
    lemma_iadst16_stage9_gain(p8, (2 * (2 * (2 * (2 * (2 * (2 * (2 * (1 * b + 0) + 1) + 0) + 1) + 0) + 1) + 0) + 1));
    let p9 = iadst16_stage9(p8);
}


/// 4-point inverse ADST.
pub open spec fn spec_iadst4(x: Seq<i32>) -> Seq<int> {
    let x0 = x[0] as int;
    let x1 = x[1] as int;
    let x2 = x[2] as int;
    let x3 = x[3] as int;
    let s0 = 1321 * x0 + 3803 * x2 + 2482 * x3;
    let s1 = 2482 * x0 - 1321 * x2 - 3803 * x3;
    let s2 = 3344 * (x0 - x2 + x3);
    let s3 = 3344 * x1;
    seq![spec_round_shift(s0 + s3, 12), spec_round_shift(s1 + s3, 12), spec_round_shift(s2, 12),
        spec_round_shift(s0 + s1 - s3, 12)]
}

/// 4-point inverse ADST (an all-zero input gives all zeros at once).
#[verifier::rlimit(50)]
pub fn iadst4(input: &[i32], output: &mut [i32])
    requires
        input@.len() >= 4,
        old(output)@.len() >= 4,
        bounded(input@, 4, IADST4_INPUT_MAX as int),
    ensures
        final(output)@.len() == old(output)@.len(),
        forall|i: int| 0 <= i < 4 ==> final(output)@[i] == #[trigger] spec_iadst4(input@)[i],
        forall|i: int| 4 <= i < old(output)@.len() ==> final(output)@[i] == old(output)@[i],
{
    let x0: i32 = input[0];
    let x1: i32 = input[1];
    let x2: i32 = input[2];
    let x3: i32 = input[3];
    proof {
        assert(-IADST4_INPUT_MAX <= x0 <= IADST4_INPUT_MAX);
        assert(-IADST4_INPUT_MAX <= x1 <= IADST4_INPUT_MAX);
        assert(-IADST4_INPUT_MAX <= x2 <= IADST4_INPUT_MAX);
        assert(-IADST4_INPUT_MAX <= x3 <= IADST4_INPUT_MAX);
        vstd::arithmetic::power2::lemma2_to64();
    }
    if x0 == 0 && x1 == 0 && x2 == 0 && x3 == 0 {
        proof {
            lemma_rs12_small(0);
        }
        output[0] = 0;
        output[1] = 0;
        output[2] = 0;
        output[3] = 0;
        return;
    }
    // stage 1
    let s0: i32 = 1321 * x0;
    let s1: i32 = 2482 * x0;
    let s2: i32 = 3344 * x1;
    let s3: i32 = 3803 * x2;
    let s4: i32 = 1321 * x2;
    let s5: i32 = 2482 * x3;
    let s6: i32 = 3803 * x3;
    // stage 2
    let s7: i32 = (x0 - x2) + x3;
    // stages 3 and 4
    let s0: i32 = s0 + s3;
    let s1: i32 = s1 - s4;
    let s3: i32 = s2;
    let s2: i32 = 3344 * s7;
    let s0: i32 = s0 + s5;
    let s1: i32 = s1 - s6;
    // stages 5 and 6
    let y0: i32 = s0 + s3;
    let y1: i32 = s1 + s3;
    let y2: i32 = s2;
    let y3: i32 = s0 + s1;
    let y3: i32 = y3 - s3;
    proof {
        assert(y0 == 1321 * x0 + 3803 * x2 + 2482 * x3 + 3344 * x1);
        assert(y1 == 2482 * x0 - 1321 * x2 - 3803 * x3 + 3344 * x1);
        assert(y2 == 3344 * (x0 - x2 + x3));
        assert(y3 == 1321 * x0 + 3803 * x2 + 2482 * x3 + 2482 * x0 - 1321 * x2 - 3803 * x3 - 3344 * x1);
        lemma_rs12_small(y0 as int);
        lemma_rs12_small(y1 as int);
        lemma_rs12_small(y2 as int);
        lemma_rs12_small(y3 as int);
    }
    output[0] = round_shift_i64(y0 as i64, 12);
    output[1] = round_shift_i64(y1 as i64, 12);
    output[2] = round_shift_i64(y2 as i64, 12);
    output[3] = round_shift_i64(y3 as i64, 12);
}

/// 4-point inverse identity: each input scaled by `sqrt(2)`.
pub fn iidentity4(input: &[i32], output: &mut [i32])
    requires
        input@.len() >= 4,
        old(output)@.len() >= 4,
        bounded(input@, 4, INV_TXFM_INPUT_MAX as int),
    ensures
        final(output)@.len() == old(output)@.len(),
        forall|i: int| 0 <= i < 4 ==> final(output)@[i] == spec_scale_sqrt2(#[trigger] input@[i] as int),
        forall|i: int| 4 <= i < old(output)@.len() ==> final(output)@[i] == old(output)@[i],
{
    let mut i: usize = 0;
    while i < 4
        invariant
            i <= 4,
            input@.len() >= 4,
            old(output)@.len() >= 4,
            bounded(input@, 4, INV_TXFM_INPUT_MAX as int),
            output@.len() == old(output)@.len(),
            forall|k: int| 0 <= k < i ==> output@[k] == spec_scale_sqrt2(#[trigger] input@[k] as int),
            forall|k: int| 4 <= k < old(output)@.len() ==> output@[k] == old(output)@[k],
        decreases 4 - i,
    {
        let v: i64 = input[i] as i64 * 5793;
        proof {
            assert(-INV_TXFM_INPUT_MAX <= input@[i as int] <= INV_TXFM_INPUT_MAX);
            lemma_rs12_small(v as int);
            vstd::arithmetic::power2::lemma2_to64();
        }
        output[i] = round_shift_i64(v, 12);
        i = i + 1;
    }
}

/// 8-point inverse identity: each input doubled.
pub fn iidentity8(input: &[i32], output: &mut [i32])
    requires
        input@.len() >= 8,
        old(output)@.len() >= 8,
        bounded(input@, 8, INV_TXFM_INPUT_MAX as int),
    ensures
        final(output)@.len() == old(output)@.len(),
        forall|i: int| 0 <= i < 8 ==> final(output)@[i] == 2 * #[trigger] input@[i],
        forall|i: int| 8 <= i < old(output)@.len() ==> final(output)@[i] == old(output)@[i],
{
    let mut i: usize = 0;
    while i < 8
        invariant
            i <= 8,
            input@.len() >= 8,
            old(output)@.len() >= 8,
            bounded(input@, 8, INV_TXFM_INPUT_MAX as int),
            output@.len() == old(output)@.len(),
            forall|k: int| 0 <= k < i ==> output@[k] == 2 * #[trigger] input@[k],
            forall|k: int| 8 <= k < old(output)@.len() ==> output@[k] == old(output)@[k],
        decreases 8 - i,
    {
        assert(-INV_TXFM_INPUT_MAX <= input@[i as int] <= INV_TXFM_INPUT_MAX);
        output[i] = input[i] * 2;
        i = i + 1;
    }
}

/// 16-point inverse identity: each input scaled by `2 * sqrt(2)`.
pub fn iidentity16(input: &[i32], output: &mut [i32])
    requires
        input@.len() >= 16,
        old(output)@.len() >= 16,
        bounded(input@, 16, INV_TXFM_INPUT_MAX as int),
    ensures
        final(output)@.len() == old(output)@.len(),
        forall|i: int| 0 <= i < 16 ==> final(output)@[i] == spec_scale_sqrt2(2 * #[trigger] input@[i]),
        forall|i: int| 16 <= i < old(output)@.len() ==> final(output)@[i] == old(output)@[i],
{
    let mut i: usize = 0;
    while i < 16
        invariant
            i <= 16,
            input@.len() >= 16,
            old(output)@.len() >= 16,
            bounded(input@, 16, INV_TXFM_INPUT_MAX as int),
            output@.len() == old(output)@.len(),
            forall|k: int| 0 <= k < i ==> output@[k] == spec_scale_sqrt2(2 * #[trigger] input@[k]),
            forall|k: int| 16 <= k < old(output)@.len() ==> output@[k] == old(output)@[k],
        decreases 16 - i,
    {
        let v: i64 = input[i] as i64 * 2 * 5793;
        proof {
            assert(-INV_TXFM_INPUT_MAX <= input@[i as int] <= INV_TXFM_INPUT_MAX);
            assert(v == (2 * input@[i as int]) * 5793);
            lemma_rs12_small(v as int);
            vstd::arithmetic::power2::lemma2_to64();
        }
        output[i] = round_shift_i64(v, 12);
        i = i + 1;
    }
}

/// 32-point inverse identity: each input multiplied by 4.
pub fn iidentity32(input: &[i32], output: &mut [i32])
    requires
        input@.len() >= 32,
        old(output)@.len() >= 32,
        bounded(input@, 32, INV_TXFM_INPUT_MAX as int),
    ensures
        final(output)@.len() == old(output)@.len(),
        forall|i: int| 0 <= i < 32 ==> final(output)@[i] == 4 * #[trigger] input@[i],
        forall|i: int| 32 <= i < old(output)@.len() ==> final(output)@[i] == old(output)@[i],
{
    let mut i: usize = 0;
    while i < 32
        invariant
            i <= 32,
            input@.len() >= 32,
            old(output)@.len() >= 32,
            bounded(input@, 32, INV_TXFM_INPUT_MAX as int),
            output@.len() == old(output)@.len(),
            forall|k: int| 0 <= k < i ==> output@[k] == 4 * #[trigger] input@[k],
            forall|k: int| 32 <= k < old(output)@.len() ==> output@[k] == old(output)@[k],
        decreases 32 - i,
    {
        assert(-INV_TXFM_INPUT_MAX <= input@[i as int] <= INV_TXFM_INPUT_MAX);
        output[i] = input[i] * 4;
        i = i + 1;
    }
}

/// The one-dimensional inverse transforms.
#[derive(Debug, Clone, Copy, PartialEq, Eq)]
pub enum InvTxfm1d {
    Idct4,
    Idct8,
    Idct16,
    Idct32,
    Iadst4,
    Iadst8,
    Iadst16,
    Iidentity4,
    Iidentity8,
    Iidentity16,
    Iidentity32,
}

impl InvTxfm1d {
    /// Kind of the transform: 0 for a DCT, 1 for an ADST, 3 for the identity.
    pub open spec fn spec_kind(self) -> u8 {
        match self {
            InvTxfm1d::Idct4 | InvTxfm1d::Idct8 | InvTxfm1d::Idct16 | InvTxfm1d::Idct32 => 0,
            InvTxfm1d::Iadst4 | InvTxfm1d::Iadst8 | InvTxfm1d::Iadst16 => 1,
            InvTxfm1d::Iidentity4 | InvTxfm1d::Iidentity8 | InvTxfm1d::Iidentity16 | InvTxfm1d::Iidentity32 => 3,
        }
    }

    /// Number of points of the transform.
    pub open spec fn spec_size(self) -> nat {
        match self {
            InvTxfm1d::Idct4 | InvTxfm1d::Iadst4 | InvTxfm1d::Iidentity4 => 4,
            InvTxfm1d::Idct8 | InvTxfm1d::Iadst8 | InvTxfm1d::Iidentity8 => 8,
            InvTxfm1d::Idct16 | InvTxfm1d::Iadst16 | InvTxfm1d::Iidentity16 => 16,
            InvTxfm1d::Idct32 | InvTxfm1d::Iidentity32 => 32,
        }
    }

    /// The outputs of the transform on `x`.
    #[verifier::opaque]
    pub open spec fn spec_apply(self, x: Seq<i32>) -> Seq<int> {
        match self {
            InvTxfm1d::Idct4 => spec_idct4(x),
            InvTxfm1d::Idct8 => spec_idct8(x),
            InvTxfm1d::Idct16 => spec_idct16(x),
            InvTxfm1d::Idct32 => spec_idct32(x),
            InvTxfm1d::Iadst4 => spec_iadst4(x),
            InvTxfm1d::Iadst8 => spec_iadst8(x),
            InvTxfm1d::Iadst16 => spec_iadst16(x),
            InvTxfm1d::Iidentity4 => Seq::new(4, |i: int| spec_scale_sqrt2(x[i] as int)),
            InvTxfm1d::Iidentity8 => Seq::new(8, |i: int| 2 * x[i]),
            InvTxfm1d::Iidentity16 => Seq::new(16, |i: int| spec_scale_sqrt2(2 * x[i])),
            InvTxfm1d::Iidentity32 => Seq::new(32, |i: int| 4 * x[i]),
        }
    }

    /// The transform has one output per point.
    pub proof fn lemma_apply_len(self, x: Seq<i32>)
        ensures self.spec_apply(x).len() == self.spec_size(),
    {
        reveal(InvTxfm1d::spec_apply);
        reveal(idct8_stage5);
        reveal(idct16_stage7);
        reveal(idct32_stage9);
        reveal(iadst8_stage7);
        reveal(iadst16_stage9);
    }

    /// Number of points of the transform.
    pub fn size(&self) -> (r: usize)
        ensures r == self.spec_size(),
    {
        match self {
            InvTxfm1d::Idct4 | InvTxfm1d::Iadst4 | InvTxfm1d::Iidentity4 => 4,
            InvTxfm1d::Idct8 | InvTxfm1d::Iadst8 | InvTxfm1d::Iidentity8 => 8,
            InvTxfm1d::Idct16 | InvTxfm1d::Iadst16 | InvTxfm1d::Iidentity16 => 16,
            InvTxfm1d::Idct32 | InvTxfm1d::Iidentity32 => 32,
        }
    }

    /// Largest input magnitude the transform accepts.
    pub open spec fn input_max(self) -> int {
        match self {
            InvTxfm1d::Iadst4 => IADST4_INPUT_MAX as int,
            _ => INV_TXFM_INPUT_MAX as int,
        }
    }

    /// Apply the transform to the first `size` entries of `input`.
    pub fn apply(&self, input: &[i32], output: &mut [i32])
        requires
            input@.len() >= self.spec_size(),
            old(output)@.len() >= self.spec_size(),
            bounded(input@, self.spec_size(), self.input_max()),
        ensures
            final(output)@.len() == old(output)@.len(),
            forall|i: int| 0 <= i < self.spec_size() ==> final(output)@[i] == #[trigger] self.spec_apply(input@)[i],
            forall|i: int| self.spec_size() <= i < old(output)@.len() ==> final(output)@[i] == old(output)@[i],
    {
        reveal(InvTxfm1d::spec_apply);
        match self {
            InvTxfm1d::Idct4 => idct4(input, output),
            InvTxfm1d::Idct8 => idct8(input, output),
            InvTxfm1d::Idct16 => idct16(input, output),
            InvTxfm1d::Idct32 => idct32(input, output),
            InvTxfm1d::Iadst4 => iadst4(input, output),
            InvTxfm1d::Iadst8 => iadst8(input, output),
            InvTxfm1d::Iadst16 => iadst16(input, output),
            InvTxfm1d::Iidentity4 => iidentity4(input, output),
            InvTxfm1d::Iidentity8 => iidentity8(input, output),
            InvTxfm1d::Iidentity16 => iidentity16(input, output),
            InvTxfm1d::Iidentity32 => iidentity32(input, output),
        }
    }
}

/// The 1D inverse transform for a type (0 DCT, 1 ADST, 3 identity) and size, if there
/// is one.
pub open spec fn spec_inv_txfm_func(tx_type_1d: u8, size: usize) -> Option<InvTxfm1d> {
    if tx_type_1d == 0 && size == 4 { Some(InvTxfm1d::Idct4) }
    else if tx_type_1d == 0 && size == 8 { Some(InvTxfm1d::Idct8) }
    else if tx_type_1d == 0 && size == 16 { Some(InvTxfm1d::Idct16) }
    else if tx_type_1d == 0 && size == 32 { Some(InvTxfm1d::Idct32) }
    else if tx_type_1d == 1 && size == 4 { Some(InvTxfm1d::Iadst4) }
    else if tx_type_1d == 1 && size == 8 { Some(InvTxfm1d::Iadst8) }
    else if tx_type_1d == 1 && size == 16 { Some(InvTxfm1d::Iadst16) }
    else if tx_type_1d == 3 && size == 4 { Some(InvTxfm1d::Iidentity4) }
    else if tx_type_1d == 3 && size == 8 { Some(InvTxfm1d::Iidentity8) }
    else if tx_type_1d == 3 && size == 16 { Some(InvTxfm1d::Iidentity16) }
    else if tx_type_1d == 3 && size == 32 { Some(InvTxfm1d::Iidentity32) }
    else { None }
}

/// Transform law: the inverse 1D transform chosen for a type and size is a kernel of
/// that type with that many points, and there is one exactly for the DCT and the ADST
/// at 4 to 32 and 4 to 16 points and the identity at 4 to 32 points.
pub proof fn lemma_inv_txfm_func_kind(tx_type_1d: u8, size: usize)
    ensures
        spec_inv_txfm_func(tx_type_1d, size) matches Some(f) ==>
            f.spec_kind() == tx_type_1d && f.spec_size() == size,
        spec_inv_txfm_func(tx_type_1d, size) is Some <==> (
            (tx_type_1d == 0 && (size == 4 || size == 8 || size == 16 || size == 32))
            || (tx_type_1d == 1 && (size == 4 || size == 8 || size == 16))
            || (tx_type_1d == 3 && (size == 4 || size == 8 || size == 16 || size == 32))),
{
}

/// Transform law: the chosen inverse transform computes the kernel of the requested
/// type at the requested size: the inverse DCT for type 0, the inverse ADST for type 1.
pub proof fn lemma_inv_txfm_func_apply(tx_type_1d: u8, size: usize, x: Seq<i32>)
    requires spec_inv_txfm_func(tx_type_1d, size) is Some,
    ensures
        ({
            let f = spec_inv_txfm_func(tx_type_1d, size)->0;
            &&& tx_type_1d == 0 && size == 4 ==> f.spec_apply(x) == spec_idct4(x)
            &&& tx_type_1d == 0 && size == 8 ==> f.spec_apply(x) == spec_idct8(x)
            &&& tx_type_1d == 0 && size == 16 ==> f.spec_apply(x) == spec_idct16(x)
            &&& tx_type_1d == 0 && size == 32 ==> f.spec_apply(x) == spec_idct32(x)
            &&& tx_type_1d == 1 && size == 4 ==> f.spec_apply(x) == spec_iadst4(x)
            &&& tx_type_1d == 1 && size == 8 ==> f.spec_apply(x) == spec_iadst8(x)
            &&& tx_type_1d == 1 && size == 16 ==> f.spec_apply(x) == spec_iadst16(x)
        }),
{
    reveal(InvTxfm1d::spec_apply);
}

/// The 1D inverse transform for a type and size.
pub fn get_inv_txfm_func(tx_type_1d: u8, size: usize) -> (r: Option<InvTxfm1d>)
    ensures
        r == spec_inv_txfm_func(tx_type_1d, size),
        r matches Some(f) ==> f.spec_size() == size,
        r matches Some(f) ==> f.spec_kind() == tx_type_1d,
{
    match (tx_type_1d, size) {
        (0, 4) => Some(InvTxfm1d::Idct4),
        (0, 8) => Some(InvTxfm1d::Idct8),
        (0, 16) => Some(InvTxfm1d::Idct16),
        (0, 32) => Some(InvTxfm1d::Idct32),
        (1, 4) => Some(InvTxfm1d::Iadst4),
        (1, 8) => Some(InvTxfm1d::Iadst8),
        (1, 16) => Some(InvTxfm1d::Iadst16),
        (3, 4) => Some(InvTxfm1d::Iidentity4),
        (3, 8) => Some(InvTxfm1d::Iidentity8),
        (3, 16) => Some(InvTxfm1d::Iidentity16),
        (3, 32) => Some(InvTxfm1d::Iidentity32),
        _ => None,
    }
}


/// Row `r` of a block with row stride `stride`.
pub open spec fn block_row(input: Seq<i32>, stride: nat, size: nat, r: int) -> Seq<i32> {
    Seq::new(size, |c: int| input[r * stride + c])
}

/// Row `r` after the row transform `g`, shifted by `-shift[0]`.
pub open spec fn inv_row_pass(input: Seq<i32>, stride: nat, g: InvTxfm1d, size: nat, shift: [i32; 2], r: int) -> Seq<int> {
    shifted(as_i32s(g.spec_apply(block_row(input, stride, size, r))), -shift[0])
}

/// Input of the column transform of column `c`: column `c` of the row pass.
pub open spec fn inv_col_input(input: Seq<i32>, stride: nat, g: InvTxfm1d, size: nat, shift: [i32; 2], c: int) -> Seq<i32> {
    Seq::new(size, |r: int| inv_row_pass(input, stride, g, size, shift, r)[c] as i32)
}

/// Column `c` after the column transform `f`, shifted by `-shift[1]`.
pub open spec fn inv_col_pass(input: Seq<i32>, stride: nat, g: InvTxfm1d, f: InvTxfm1d, size: nat, shift: [i32; 2],
    c: int) -> Seq<int> {
    shifted(as_i32s(f.spec_apply(inv_col_input(input, stride, g, size, shift, c))), -shift[1])
}

/// The separable inverse 2D transform at row `r`, column `c`: rows with `g`, then
/// columns with `f`.
pub open spec fn spec_inv_txfm2d(input: Seq<i32>, stride: nat, g: InvTxfm1d, f: InvTxfm1d, size: nat, shift: [i32; 2],
    r: int, c: int) -> int {
    inv_col_pass(input, stride, g, f, size, shift, c)[r]
}

/// Every input of a 1D inverse transform stays within its bound and no
/// shifted value leaves `i32`.
pub open spec fn inv2d_ok(input: Seq<i32>, stride: nat, g: InvTxfm1d, f: InvTxfm1d, size: nat, shift: [i32; 2]) -> bool {
    &&& forall|r: int, c: int| 0 <= r < size && 0 <= c < size ==>
        -g.input_max() <= #[trigger] input[r * stride + c] <= g.input_max()
    &&& forall|r: int, c: int| 0 <= r < size && 0 <= c < size ==>
        shift_ok(#[trigger] g.spec_apply(block_row(input, stride, size, r))[c], -shift[0])
    &&& forall|r: int, c: int| 0 <= r < size && 0 <= c < size ==>
        -f.input_max() <= #[trigger] inv_row_pass(input, stride, g, size, shift, r)[c] <= f.input_max()
    &&& forall|c: int, r: int| 0 <= c < size && 0 <= r < size ==>
        shift_ok(#[trigger] f.spec_apply(inv_col_input(input, stride, g, size, shift, c))[r], -shift[1])
}

/// The row-pass buffer holds `inv_row_pass(r)[c]` at `raster(r, c)` for rows below `nrows`.
pub open spec fn inv_rows_filled(buf: Seq<i32>, input: Seq<i32>, stride: nat, g: InvTxfm1d, size: nat,
    shift: [i32; 2], nrows: int) -> bool {
    forall|r: int, c: int| 0 <= r < nrows && 0 <= c < size ==>
        buf[raster(r, c, size as int)] == #[trigger] inv_row_pass(input, stride, g, size, shift, r)[c]
}

/// The column-pass buffer holds `inv_col_pass(c)[r]` at `raster(r, c)` for columns below `ncols`.
pub open spec fn inv_cols_filled(res: Seq<i32>, input: Seq<i32>, stride: nat, g: InvTxfm1d, f: InvTxfm1d, size: nat,
    shift: [i32; 2], ncols: int) -> bool {
    forall|r: int, c: int| 0 <= r < size && 0 <= c < ncols ==>
        res[raster(r, c, size as int)] == #[trigger] inv_col_pass(input, stride, g, f, size, shift, c)[r]
}

/// Row pass of one row: read, transform, shift, and store the row in `buf`.
fn inv2d_row(input: &[i32], stride: usize, row_func: InvTxfm1d, col_func: InvTxfm1d, size: usize,
    shift: [i32; 2], row: usize, buf: &mut Vec<i32>)
    requires
        row < size, size <= 32,
        row_func.spec_size() == size,
        col_func.spec_size() == size,
        (size - 1) * stride + size <= input@.len(),
        inv2d_ok(input@, stride as nat, row_func, col_func, size as nat, shift),
        old(buf)@.len() == size * size,
        inv_rows_filled(old(buf)@, input@, stride as nat, row_func, size as nat, shift, row as int),
    ensures
        final(buf)@.len() == size * size,
        inv_rows_filled(final(buf)@, input@, stride as nat, row_func, size as nat, shift, row + 1),
{
    let ghost g = row_func;
    let ghost inp = input@;
    let ghost st = stride as nat;
    let ghost sz = size as nat;
    let ilen: usize = input.len();
    proof {
        assert(shift_ok(g.spec_apply(block_row(inp, st, sz, 0))[0], -shift[0]));
        assert(row * stride <= (size - 1) * stride) by (nonlinear_arith) requires row < size;
        assert(row * size + size <= size * size) by (nonlinear_arith) requires row < size;
        assert(size * size <= 1024) by (nonlinear_arith) requires size <= 32;
        lemma_raster_injective(size as int);
    }
    let mut temp_in: Vec<i32> = vec![0i32; size];
    let mut temp_out: Vec<i32> = vec![0i32; size];
    let row_start: usize = row * stride;
    let mut c: usize = 0;
    while c < size
        invariant
            c <= size, row < size, ilen == input@.len(),
            row_start == row * stride,
            row * stride <= (size - 1) * stride,
            (size - 1) * stride + size <= input@.len(),
            temp_in@.len() == size,
            forall|cc: int| 0 <= cc < c ==> temp_in@[cc] == #[trigger] block_row(inp, st, sz, row as int)[cc],
            inp == input@, st == stride, sz == size,
        decreases size - c,
    {
        temp_in.set(c, input[row_start + c]);
        c = c + 1;
    }
    proof {
        assert(temp_in@ =~= block_row(inp, st, sz, row as int));
        assert forall|cc: int| 0 <= cc < size implies
            -g.input_max() <= #[trigger] temp_in@[cc] <= g.input_max() by {
            assert(-g.input_max() <= input@[row * stride + cc] <= g.input_max());
        }
    }
    row_func.apply(temp_in.as_slice(), temp_out.as_mut_slice());
    proof {
        g.lemma_apply_len(block_row(inp, st, sz, row as int));
        assert forall|cc: int| 0 <= cc < size implies shift_ok(#[trigger] temp_out@[cc] as int, -shift[0]) by {
            assert(shift_ok(g.spec_apply(block_row(inp, st, sz, row as int))[cc], -shift[0]));
        }
    }
    round_shift_array(temp_out.as_mut_slice(), -shift[0]);
    proof {
        assert forall|cc: int| 0 <= cc < size implies
            temp_out@[cc] == #[trigger] inv_row_pass(inp, st, g, sz, shift, row as int)[cc] by {
        }
    }
    let mut c2: usize = 0;
    while c2 < size
        invariant
            c2 <= size, row < size, size <= 32, size * size <= 1024,
            row * size + size <= size * size,
            inp == input@, st == stride, sz == size, g == row_func,
            buf@.len() == size * size, temp_out@.len() == size,
            forall|cc: int| 0 <= cc < size ==> temp_out@[cc] == #[trigger] inv_row_pass(inp, st, g, sz, shift, row as int)[cc],
            inv_rows_filled(buf@, inp, st, g, sz, shift, row as int),
            forall|cc: int| 0 <= cc < c2 ==>
                buf@[raster(row as int, cc, size as int)] == #[trigger] inv_row_pass(inp, st, g, sz, shift, row as int)[cc],
        decreases size - c2,
    {
        proof {
            lemma_raster_injective(size as int);
        }
        let idx: usize = row * size + c2;
        assert(idx as int == raster(row as int, c2 as int, size as int));
        let ghost old_buf = buf@;
        buf.set(idx, temp_out[c2]);
        proof {
            assert forall|r: int, cc: int| 0 <= r < row && 0 <= cc < size implies
                buf@[raster(r, cc, size as int)] == #[trigger] inv_row_pass(inp, st, g, sz, shift, r)[cc] by {
                assert(raster(r, cc, size as int) != raster(row as int, c2 as int, size as int));
                assert(old_buf[raster(r, cc, sz as int)] == inv_row_pass(inp, st, g, sz, shift, r)[cc]);
            }
            assert forall|cc: int| 0 <= cc < c2 + 1 implies
                buf@[raster(row as int, cc, size as int)] == #[trigger] inv_row_pass(inp, st, g, sz, shift, row as int)[cc] by {
                if cc < c2 {
                    assert(raster(row as int, cc, size as int) != raster(row as int, c2 as int, size as int));
                }
            }
        }
        c2 = c2 + 1;
    }
}

/// Column pass of one column: gather from `buf`, transform, shift, and store in `res`.
fn inv2d_column(input: &[i32], stride: usize, row_func: InvTxfm1d, col_func: InvTxfm1d, size: usize,
    shift: [i32; 2], col: usize, buf: &Vec<i32>, res: &mut Vec<i32>)
    requires
        col < size, size <= 32,
        row_func.spec_size() == size,
        col_func.spec_size() == size,
        inv2d_ok(input@, stride as nat, row_func, col_func, size as nat, shift),
        buf@.len() == size * size,
        inv_rows_filled(buf@, input@, stride as nat, row_func, size as nat, shift, size as int),
        old(res)@.len() == size * size,
        inv_cols_filled(old(res)@, input@, stride as nat, row_func, col_func, size as nat, shift, col as int),
    ensures
        final(res)@.len() == size * size,
        inv_cols_filled(final(res)@, input@, stride as nat, row_func, col_func, size as nat, shift, col + 1),
{
    let ghost g = row_func;
    let ghost f = col_func;
    let ghost inp = input@;
    let ghost st = stride as nat;
    let ghost sz = size as nat;
    proof {
        assert(shift_ok(f.spec_apply(inv_col_input(inp, st, g, sz, shift, 0))[0], -shift[1]));
        assert(size * size <= 1024) by (nonlinear_arith) requires size <= 32;
        lemma_raster_injective(size as int);
    }
    let mut temp_in: Vec<i32> = vec![0i32; size];
    let mut temp_out: Vec<i32> = vec![0i32; size];
    let mut r: usize = 0;
    while r < size
        invariant
            r <= size, col < size, size <= 32, size * size <= 1024,
            inp == input@, st == stride, sz == size, g == row_func,
            buf@.len() == size * size, temp_in@.len() == size,
            inv_rows_filled(buf@, inp, st, g, sz, shift, size as int),
            forall|rr: int| 0 <= rr < r ==> temp_in@[rr] == #[trigger] inv_row_pass(inp, st, g, sz, shift, rr)[col as int],
        decreases size - r,
    {
        proof {
            lemma_raster_injective(size as int);
        }
        assert(raster(r as int, col as int, size as int) == r * size + col);
        assert(buf@[raster(r as int, col as int, size as int)] == inv_row_pass(inp, st, g, sz, shift, r as int)[col as int]);
        temp_in.set(r, buf[r * size + col]);
        r = r + 1;
    }
    proof {
        assert(temp_in@ =~= inv_col_input(inp, st, g, sz, shift, col as int));
        assert forall|rr: int| 0 <= rr < size implies
            -f.input_max() <= #[trigger] temp_in@[rr] <= f.input_max() by {
            assert(-f.input_max() <= inv_row_pass(inp, st, g, sz, shift, rr)[col as int] <= f.input_max());
        }
    }
    col_func.apply(temp_in.as_slice(), temp_out.as_mut_slice());
    proof {
        f.lemma_apply_len(inv_col_input(inp, st, g, sz, shift, col as int));
        assert forall|rr: int| 0 <= rr < size implies shift_ok(#[trigger] temp_out@[rr] as int, -shift[1]) by {
            assert(shift_ok(f.spec_apply(inv_col_input(inp, st, g, sz, shift, col as int))[rr], -shift[1]));
        }
    }
    round_shift_array(temp_out.as_mut_slice(), -shift[1]);
    proof {
        assert forall|rr: int| 0 <= rr < size implies
            temp_out@[rr] == #[trigger] inv_col_pass(inp, st, g, f, sz, shift, col as int)[rr] by {
        }
    }
    let mut r2: usize = 0;
    while r2 < size
        invariant
            r2 <= size, col < size, size <= 32, size * size <= 1024,
            inp == input@, st == stride, sz == size, g == row_func, f == col_func,
            res@.len() == size * size, temp_out@.len() == size,
            forall|rr: int| 0 <= rr < size ==> temp_out@[rr] == #[trigger] inv_col_pass(inp, st, g, f, sz, shift, col as int)[rr],
            inv_cols_filled(res@, inp, st, g, f, sz, shift, col as int),
            forall|rr: int| 0 <= rr < r2 ==>
                res@[raster(rr, col as int, size as int)] == #[trigger] inv_col_pass(inp, st, g, f, sz, shift, col as int)[rr],
        decreases size - r2,
    {
        proof {
            assert(r2 * size + col < size * size) by (nonlinear_arith) requires r2 < size, col < size;
            lemma_raster_injective(size as int);
        }
        let idx: usize = r2 * size + col;
        assert(idx as int == raster(r2 as int, col as int, size as int));
        let ghost old_res = res@;
        res.set(idx, temp_out[r2]);
        proof {
            assert forall|rr: int, cc: int| 0 <= rr < size && 0 <= cc < col implies
                res@[raster(rr, cc, size as int)] == #[trigger] inv_col_pass(inp, st, g, f, sz, shift, cc)[rr] by {
                assert(raster(rr, cc, size as int) != raster(r2 as int, col as int, size as int));
                assert(old_res[raster(rr, cc, sz as int)] == inv_col_pass(inp, st, g, f, sz, shift, cc)[rr]);
            }
            assert forall|rr: int| 0 <= rr < r2 + 1 implies
                res@[raster(rr, col as int, size as int)] == #[trigger] inv_col_pass(inp, st, g, f, sz, shift, col as int)[rr] by {
                if rr < r2 {
                    assert(raster(rr, col as int, size as int) != raster(r2 as int, col as int, size as int));
                }
            }
        }
        r2 = r2 + 1;
    }
}

/// Inverse 2D transform of a `size` x `size` block: row transforms (output shifted by
/// `-shift[0]`), then column transforms (output shifted by `-shift[1]`), written to
/// `output` with row stride `stride`; the rest of `output` is left as it was.
pub fn inv_txfm2d(input: &[i32], output: &mut [i32], stride: usize, row_func: InvTxfm1d,
    col_func: InvTxfm1d, size: usize, shift: [i32; 2])
    requires
        row_func.spec_size() == size,
        col_func.spec_size() == size,
        size <= stride,
        (size - 1) * stride + size <= input@.len(),
        (size - 1) * stride + size <= old(output)@.len(),
        inv2d_ok(input@, stride as nat, row_func, col_func, size as nat, shift),
    ensures
        block_written(final(output)@, old(output)@, stride as nat, size as nat, size as nat,
            |r: int, c: int| spec_inv_txfm2d(input@, stride as nat, row_func, col_func, size as nat, shift, r, c) as i32),
        forall|r: int, c: int| 0 <= r < size && 0 <= c < size ==> final(output)@[#[trigger] raster(r, c, stride as int)]
            == spec_inv_txfm2d(input@, stride as nat, row_func, col_func, size as nat, shift, r, c),
{
    let ghost inp = input@;
    let ghost st = stride as nat;
    let ghost sz = size as nat;
    let ghost val = |r: int, c: int| spec_inv_txfm2d(inp, st, row_func, col_func, sz, shift, r, c) as i32;
    proof {
        assert(size <= 32);
        assert(size * size <= 1024) by (nonlinear_arith) requires size <= 32;
    }
    let mut buf: Vec<i32> = vec![0i32; size * size];
    let mut row: usize = 0;
    while row < size
        invariant
            row <= size, size <= 32,
            row_func.spec_size() == size, col_func.spec_size() == size,
            (size - 1) * stride + size <= input@.len(),
            inv2d_ok(input@, stride as nat, row_func, col_func, size as nat, shift),
            buf@.len() == size * size,
            inv_rows_filled(buf@, input@, stride as nat, row_func, size as nat, shift, row as int),
        decreases size - row,
    {
        inv2d_row(input, stride, row_func, col_func, size, shift, row, &mut buf);
        row = row + 1;
    }
    let mut res: Vec<i32> = vec![0i32; size * size];
    let mut col: usize = 0;
    while col < size
        invariant
            col <= size, size <= 32,
            row_func.spec_size() == size, col_func.spec_size() == size,
            inv2d_ok(input@, stride as nat, row_func, col_func, size as nat, shift),
            buf@.len() == size * size,
            inv_rows_filled(buf@, input@, stride as nat, row_func, size as nat, shift, size as int),
            res@.len() == size * size,
            inv_cols_filled(res@, input@, stride as nat, row_func, col_func, size as nat, shift, col as int),
        decreases size - col,
    {
        inv2d_column(input, stride, row_func, col_func, size, shift, col, &buf, &mut res);
        col = col + 1;
    }
    let olen: usize = output.len();
    let mut r: usize = 0;
    while r < size
        invariant
            r <= size, size <= 32, size * size <= 1024, size <= stride, olen == output@.len(),
            (size - 1) * stride + size <= old(output)@.len(),
            inp == input@, st == stride, sz == size,
            val == (|r: int, c: int| spec_inv_txfm2d(inp, st, row_func, col_func, sz, shift, r, c) as i32),
            res@.len() == size * size,
            inv_cols_filled(res@, inp, st, row_func, col_func, sz, shift, size as int),
            output@.len() == old(output)@.len(),
            forall|rr: int, cc: int| 0 <= rr < size && 0 <= cc < size && rr < r ==>
                output@[#[trigger] raster(rr, cc, stride as int)] == val(rr, cc),
            forall|i: int| 0 <= i < old(output)@.len() && !in_block(i, stride as nat, size as nat, size as nat) ==>
                #[trigger] output@[i] == old(output)@[i],
        decreases size - r,
    {
        let mut c: usize = 0;
        while c < size
            invariant
                r < size, c <= size, size <= 32, size * size <= 1024, size <= stride, olen == output@.len(),
                (size - 1) * stride + size <= old(output)@.len(),
                inp == input@, st == stride, sz == size,
                val == (|r: int, c: int| spec_inv_txfm2d(inp, st, row_func, col_func, sz, shift, r, c) as i32),
                res@.len() == size * size,
                inv_cols_filled(res@, inp, st, row_func, col_func, sz, shift, size as int),
                output@.len() == old(output)@.len(),
                forall|rr: int, cc: int| 0 <= rr < size && 0 <= cc < size && (rr < r || (rr == r && cc < c)) ==>
                    output@[#[trigger] raster(rr, cc, stride as int)] == val(rr, cc),
                forall|i: int| 0 <= i < old(output)@.len() && !in_block(i, stride as nat, size as nat, size as nat) ==>
                    #[trigger] output@[i] == old(output)@[i],
            decreases size - c,
        {
            proof {
                assert(r * stride + c < (size - 1) * stride + size) by (nonlinear_arith)
                    requires r < size, c < size, stride >= 0;
                assert(r * size + c < size * size) by (nonlinear_arith) requires r < size, c < size;
                assert(res@[raster(r as int, c as int, size as int)]
                    == inv_col_pass(inp, st, row_func, col_func, sz, shift, c as int)[r as int]);
            }
            let v: i32 = res[r * size + c];
            let ghost before = output@;
            output[r * stride + c] = v;
            proof {
                assert(v == val(r as int, c as int));
                lemma_block_step(output@, before, old(output)@, stride as nat, size as nat, size as nat, val,
                    r as int, c as int);
            }
            c = c + 1;
        }
        r = r + 1;
    }
    proof {
        lemma_raster_injective(size as int);
        assert forall|rr: int, cc: int| 0 <= rr < size && 0 <= cc < size implies
            output@[#[trigger] raster(rr, cc, stride as int)]
                == spec_inv_txfm2d(inp, st, row_func, col_func, sz, shift, rr, cc) by {
            assert(res@[raster(rr, cc, size as int)] == inv_col_pass(inp, st, row_func, col_func, sz, shift, cc)[rr]);
        }
    }
}

/// Shifts of the 4x4 inverse transform.
pub const INV_SHIFT_4X4: [i32; 2] = [0, -4];

/// Shifts of the 8x8 inverse transform.
pub const INV_SHIFT_8X8: [i32; 2] = [-1, -4];

/// Shifts of the 16x16 inverse transform.
pub const INV_SHIFT_16X16: [i32; 2] = [-2, 0];

/// Inverse 4x4 DCT-DCT (shifts `[0, -4]`), written with row stride `stride`.
pub fn inv_txfm2d_4x4_dct_dct(input: &[i32], output: &mut [i32], stride: usize)
    requires
        4 <= stride,
        3 * stride + 4 <= input@.len(),
        3 * stride + 4 <= old(output)@.len(),
        inv2d_ok(input@, stride as nat, InvTxfm1d::Idct4, InvTxfm1d::Idct4, 4, INV_SHIFT_4X4),
    ensures
        block_written(final(output)@, old(output)@, stride as nat, 4, 4,
            |r: int, c: int| spec_inv_txfm2d(input@, stride as nat, InvTxfm1d::Idct4, InvTxfm1d::Idct4, 4, INV_SHIFT_4X4, r, c) as i32),
        forall|r: int, c: int| 0 <= r < 4 && 0 <= c < 4 ==> final(output)@[#[trigger] raster(r, c, stride as int)]
            == spec_inv_txfm2d(input@, stride as nat, InvTxfm1d::Idct4, InvTxfm1d::Idct4, 4, INV_SHIFT_4X4, r, c),
{
    inv_txfm2d(input, output, stride, InvTxfm1d::Idct4, InvTxfm1d::Idct4, 4, INV_SHIFT_4X4);
}

/// Inverse 8x8 DCT-DCT (shifts `[-1, -4]`), written with row stride `stride`.
pub fn inv_txfm2d_8x8_dct_dct(input: &[i32], output: &mut [i32], stride: usize)
    requires
        8 <= stride,
        7 * stride + 8 <= input@.len(),
        7 * stride + 8 <= old(output)@.len(),
        inv2d_ok(input@, stride as nat, InvTxfm1d::Idct8, InvTxfm1d::Idct8, 8, INV_SHIFT_8X8),
    ensures
        block_written(final(output)@, old(output)@, stride as nat, 8, 8,
            |r: int, c: int| spec_inv_txfm2d(input@, stride as nat, InvTxfm1d::Idct8, InvTxfm1d::Idct8, 8, INV_SHIFT_8X8, r, c) as i32),
        forall|r: int, c: int| 0 <= r < 8 && 0 <= c < 8 ==> final(output)@[#[trigger] raster(r, c, stride as int)]
            == spec_inv_txfm2d(input@, stride as nat, InvTxfm1d::Idct8, InvTxfm1d::Idct8, 8, INV_SHIFT_8X8, r, c),
{
    inv_txfm2d(input, output, stride, InvTxfm1d::Idct8, InvTxfm1d::Idct8, 8, INV_SHIFT_8X8);
}

/// Inverse 16x16 DCT-DCT (shifts `[-2, 0]`), written with row stride `stride`.
pub fn inv_txfm2d_16x16_dct_dct(input: &[i32], output: &mut [i32], stride: usize)
    requires
        16 <= stride,
        15 * stride + 16 <= input@.len(),
        15 * stride + 16 <= old(output)@.len(),
        inv2d_ok(input@, stride as nat, InvTxfm1d::Idct16, InvTxfm1d::Idct16, 16, INV_SHIFT_16X16),
    ensures
        block_written(final(output)@, old(output)@, stride as nat, 16, 16,
            |r: int, c: int| spec_inv_txfm2d(input@, stride as nat, InvTxfm1d::Idct16, InvTxfm1d::Idct16, 16, INV_SHIFT_16X16, r, c) as i32),
        forall|r: int, c: int| 0 <= r < 16 && 0 <= c < 16 ==> final(output)@[#[trigger] raster(r, c, stride as int)]
            == spec_inv_txfm2d(input@, stride as nat, InvTxfm1d::Idct16, InvTxfm1d::Idct16, 16, INV_SHIFT_16X16, r, c),
{
    inv_txfm2d(input, output, stride, InvTxfm1d::Idct16, InvTxfm1d::Idct16, 16, INV_SHIFT_16X16);
}

} // verus!
