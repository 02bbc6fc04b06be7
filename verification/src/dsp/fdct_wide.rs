//! Forward DCT-II of 32 and 64 points, computed directly from the cosine table.
use vstd::prelude::*;
use crate::dsp::fwd_txfm::{COSPI, TXFM_INPUT_MAX, bounded, spec_round_shift, round_shift_i64};

verus! {

/// `cos(j * pi / 128)` in Q12, from the quarter-wave table by symmetry.
pub open spec fn cos_q12(j: int) -> int {
    let m = j % 256;
    if m < 64 { COSPI[m] as int }
    else if m == 64 { 0 }
    else if m <= 128 { -(COSPI[128 - m] as int) }
    else if m < 192 { -(COSPI[m - 128] as int) }
    else if m == 192 { 0 }
    else { COSPI[256 - m] as int }
}

/// Weight of input `i` in output `k` of the `n`-point DCT (Q12): `cos(pi / 4)` for the
/// DC term, else `cos((2i + 1) k pi / 2n)`.
pub open spec fn dct_coef(n: nat, k: int, i: int) -> int {
    if k == 0 { COSPI[32] as int } else { cos_q12((2 * i + 1) * k * (64int / (n as int))) }
}

/// `sum_{i < m} x[i] * dct_coef(n, k, i)`.
pub open spec fn dct_sum(x: Seq<i32>, n: nat, k: int, m: int) -> int
    decreases m,
{
    if m <= 0 { 0 } else { dct_sum(x, n, k, m - 1) + x[m - 1] * dct_coef(n, k, m - 1) }
}

/// The `n`-point DCT-II of `x`: each weighted sum rounded from Q12.
pub open spec fn spec_fdct_wide(x: Seq<i32>, n: nat) -> Seq<int> {
    Seq::new(n, |k: int| spec_round_shift(dct_sum(x, n, k, n as int), 12))
}

proof fn lemma_cospi_range()
    ensures forall|j: int| 0 <= j < 64 ==> 0 < #[trigger] COSPI[j] <= 4096,
{
}

proof fn lemma_coef_range(n: nat, k: int, i: int)
    requires n == 32 || n == 64,
    ensures -4096 <= dct_coef(n, k, i) <= 4096,
{
    lemma_cospi_range();
    if k != 0 {
        let m = ((2 * i + 1) * k * (64int / (n as int))) % 256;
        if m < 64 { assert(0 < COSPI[m] <= 4096); }
        else if 64 < m <= 128 { assert(0 < COSPI[128 - m] <= 4096); }
        else if 128 < m < 192 { assert(0 < COSPI[m - 128] <= 4096); }
        else if m > 192 { assert(0 < COSPI[256 - m] <= 4096); }
    } else {
        assert(0 < COSPI[32] <= 4096);
    }
}

proof fn lemma_sum_range(x: Seq<i32>, n: nat, k: int, m: int)
    requires n == 32 || n == 64, 0 <= m <= n, bounded(x, n, TXFM_INPUT_MAX as int),
    ensures -m * 0x10_0000_0000 <= dct_sum(x, n, k, m) <= m * 0x10_0000_0000,
    decreases m,
{
    if m > 0 {
        lemma_sum_range(x, n, k, m - 1);
        lemma_coef_range(n, k, m - 1);
        let (v, w) = (x[m - 1] as int, dct_coef(n, k, m - 1));
        assert(-0x10_0000_0000 <= v * w <= 0x10_0000_0000) by (nonlinear_arith)
            requires -16777216 <= v <= 16777216, -4096 <= w <= 4096;
    }
}

/// Cosine of `j * pi / 128` in Q12 (see [`cos_q12`]).
fn cos_q12_exec(j: usize) -> (r: i32)
    ensures r == cos_q12(j as int), -4096 <= r <= 4096,
{
    proof { lemma_cospi_range(); }
    let m: usize = j % 256;
    if m < 64 { COSPI[m] }
    else if m == 64 { 0 }
    else if m <= 128 { -COSPI[128 - m] }
    else if m < 192 { -COSPI[m - 128] }
    else if m == 192 { 0 }
    else { COSPI[256 - m] }
}

/// `n`-point forward DCT (`n` of 32 or 64) of the first `n` entries of `input` into
/// the first `n` of `output`, which keeps the rest.
pub fn fdct_wide(input: &[i32], output: &mut [i32], n: usize)
    requires
        n == 32 || n == 64,
        input@.len() >= n,
        old(output)@.len() >= n,
        bounded(input@, n as nat, TXFM_INPUT_MAX as int),
    ensures
        final(output)@.len() == old(output)@.len(),
        forall|i: int| 0 <= i < n ==> final(output)@[i] == #[trigger] spec_fdct_wide(input@, n as nat)[i],
        forall|i: int| n <= i < old(output)@.len() ==> final(output)@[i] == old(output)@[i],
{
    let step: usize = 64 / n;
    let mut k: usize = 0;
    while k < n
        invariant
            k <= n, n == 32 || n == 64, step == 64int / (n as int), input@.len() >= n, old(output)@.len() >= n,
            bounded(input@, n as nat, TXFM_INPUT_MAX as int),
            output@.len() == old(output)@.len(),
            forall|i: int| 0 <= i < k ==> output@[i] == #[trigger] spec_fdct_wide(input@, n as nat)[i],
            forall|i: int| n <= i < old(output)@.len() ==> output@[i] == old(output)@[i],
        decreases n - k,
    {
        let mut sum: i64 = 0;
        let mut i: usize = 0;
        while i < n
            invariant
                i <= n, k < n, n == 32 || n == 64, step == 64int / (n as int), input@.len() >= n,
                bounded(input@, n as nat, TXFM_INPUT_MAX as int),
                sum == dct_sum(input@, n as nat, k as int, i as int),
                output@.len() == old(output)@.len(), old(output)@.len() >= n,
            decreases n - i,
        {
            proof {
                lemma_sum_range(input@, n as nat, k as int, i + 1);
                assert((i + 1) * 0x10_0000_0000 <= 0x400_0000_0000) by (nonlinear_arith) requires i < n, n <= 64;
            }
            let w: i32 = if k == 0 {
                COSPI[32]
            } else {
                proof {
                    assert((2 * i + 1) * k <= 127 * 63) by (nonlinear_arith) requires i < 64, k < 64;
                    assert((2 * i + 1) * k * step <= 127 * 63 * 4) by (nonlinear_arith)
                        requires (2 * i + 1) * k <= 127 * 63, step <= 4;
                    assert((2 * i + 1) * k * step >= 0) by (nonlinear_arith);
                }
                cos_q12_exec((2 * i + 1) * k * step)
            };
            proof {
                lemma_coef_range(n as nat, k as int, i as int);
                assert(w == dct_coef(n as nat, k as int, i as int));
            }
            let v: i64 = input[i] as i64;
            proof {
                assert(-0x10_0000_0000 <= v * w <= 0x10_0000_0000) by (nonlinear_arith)
                    requires -16777216 <= v <= 16777216, -4096 <= w <= 4096;
            }
            sum = sum + v * w as i64;
            i = i + 1;
        }
        proof {
            lemma_sum_range(input@, n as nat, k as int, n as int);
            vstd::arithmetic::power2::lemma2_to64();
            let s = sum as int;
            assert(n * 0x10_0000_0000 <= 0x400_0000_0000) by (nonlinear_arith) requires n <= 64;
            assert(-0x4000_0000 <= (s + 2048) / 4096 <= 0x4000_0001) by (nonlinear_arith)
                requires -0x400_0000_0000 <= s <= 0x400_0000_0000;
        }
        let r: i32 = round_shift_i64(sum, 12);
        output[k] = r;
        k = k + 1;
    }
}

} // verus!
