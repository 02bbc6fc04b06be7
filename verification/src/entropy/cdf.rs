//! CDF tables in inverse form (ICDF) and their backward adaptation.
use vstd::prelude::*;

verus! {

/// Number of probability bits.
pub const CDF_PROB_BITS: u32 = 15;
/// Probability one in Q15 (32768).
pub const CDF_PROB_TOP: u16 = 32768;
/// Initial CDF top value.
pub const CDF_INIT_TOP: u16 = 32768;

/// `CDF_PROB_TOP - x`: the inverse-CDF form of a probability.
pub fn aom_icdf(x: u16) -> (r: u16)
    requires x <= 32768,
    ensures r == 32768 - x,
{
    CDF_PROB_TOP - x
}

/// Size of a CDF array for `nsymbs` symbols (one more, for the counter).
pub fn cdf_size(nsymbs: usize) -> (r: usize)
    requires nsymbs < usize::MAX,
    ensures r == nsymbs + 1,
{
    nsymbs + 1
}

/// The adaptation rate after `count` observations of a CDF with `nsymbs` symbols.
pub open spec fn spec_rate(count: u16, nsymbs: nat) -> nat {
    (4 + count / 16 + (if nsymbs > 3 { 1nat } else { 0nat })) as nat
}

/// One adapted entry: below the coded symbol it moves toward 32768, at or above it toward 0
/// (16-bit wrapping arithmetic, as the encoder computes it).
pub open spec fn spec_adapt(x: u16, below: bool, rate: nat) -> u16 {
    if below {
        ((x as int + (((32768 - x as int) % 65536) as u16 >> rate) as int) % 65536) as u16
    } else {
        ((x as int - (x >> rate) as int) % 65536) as u16
    }
}

/// Update an ICDF after coding symbol `val` of `nsymbs`: entries `0..nsymbs-1`
/// adapt toward the coded symbol and the counter at `nsymbs - 1` advances up to 32.
pub fn update_cdf(cdf: &mut [u16], val: usize, nsymbs: usize)
    requires
        val < nsymbs < 17,
        nsymbs <= old(cdf)@.len(),
        old(cdf)@[nsymbs - 1] <= 32,
    ensures
        final(cdf)@.len() == old(cdf)@.len(),
        forall|i: int| 0 <= i < nsymbs - 1 ==> #[trigger] final(cdf)@[i]
            == spec_adapt(old(cdf)@[i], i < val, spec_rate(old(cdf)@[nsymbs - 1], nsymbs as nat)),
        final(cdf)@[nsymbs - 1] == (if old(cdf)@[nsymbs - 1] < 32 { old(cdf)@[nsymbs - 1] + 1 } else { 32 }),
        forall|i: int| nsymbs <= i < old(cdf)@.len() ==> #[trigger] final(cdf)@[i] == old(cdf)@[i],
{
    let n = nsymbs - 1;
    let count = cdf[n];
    let extra: u16 = if nsymbs > 3 { 1 } else { 0 };
    assert(count >> 4 == count / 16) by (bit_vector);
    let rate: u16 = 4 + (count >> 4) + extra;
    let mut i: usize = 0;
    while i < n
        invariant
            n == nsymbs - 1,
            val < nsymbs < 17,
            nsymbs <= cdf@.len(),
            cdf@.len() == old(cdf)@.len(),
            count == old(cdf)@[n as int],
            rate == spec_rate(count, nsymbs as nat),
            rate <= 7,
            i <= n,
            forall|j: int| 0 <= j < i ==> #[trigger] cdf@[j]
                == spec_adapt(old(cdf)@[j], j < val, rate as nat),
            forall|j: int| i <= j < old(cdf)@.len() ==> #[trigger] cdf@[j] == old(cdf)@[j],
        decreases n - i,
    {
        let x = cdf[i];
        if i < val {
            let up: u16 = CDF_PROB_TOP.wrapping_sub(x) >> rate;
            cdf[i] = x.wrapping_add(up);
        } else {
            cdf[i] = x.wrapping_sub(x >> rate);
        }
        i = i + 1;
    }
    let bump: u16 = if count < 32 { 1 } else { 0 };
    cdf[n] = count + bump;
}

/// Adaptation law: an ICDF entry that is a valid probability (at most 32768)
/// stays one, moving up below the coded symbol and down at or above it.
pub proof fn lemma_adapt_stays_probability(x: u16, below: bool, rate: nat)
    requires
        x <= 32768,
        1 <= rate <= 15,
    ensures
        spec_adapt(x, below, rate) <= 32768,
        below ==> spec_adapt(x, below, rate) >= x,
        !below ==> spec_adapt(x, below, rate) <= x,
{
    let d: u16 = (32768 - x) as u16;
    let r16: u16 = rate as u16;
    assert(d >> r16 <= d) by (bit_vector);
    assert(x >> r16 <= x) by (bit_vector);
    assert((d >> r16) as nat == d >> rate);
    assert((x >> r16) as nat == x >> rate);
}

/// Fill the first `nsymbs - 1` entries with `32768 * (nsymbs - 1 - i) / (nsymbs - 1)`
/// and clear the counter at `nsymbs`.
pub fn init_uniform_cdf(cdf: &mut [u16], nsymbs: usize)
    requires
        2 <= nsymbs < old(cdf)@.len(),
        nsymbs <= 65536,
    ensures
        final(cdf)@.len() == old(cdf)@.len(),
        forall|i: int| 0 <= i < nsymbs - 1 ==> #[trigger] final(cdf)@[i]
            == (32768 * (nsymbs - 1 - i) / (nsymbs - 1)) as u16,
        final(cdf)@[nsymbs as int] == 0,
        final(cdf)@[nsymbs - 1] == old(cdf)@[nsymbs - 1],
        forall|i: int| nsymbs < i < old(cdf)@.len() ==> #[trigger] final(cdf)@[i] == old(cdf)@[i],
{
    let m = nsymbs - 1;
    let mut i: usize = 0;
    while i < m
        invariant
            m == nsymbs - 1,
            2 <= nsymbs < cdf@.len(),
            nsymbs <= 65536,
            cdf@.len() == old(cdf)@.len(),
            i <= m,
            forall|j: int| 0 <= j < i ==> #[trigger] cdf@[j] == (32768 * (nsymbs - 1 - j) / (nsymbs - 1)) as u16,
            forall|j: int| i <= j < old(cdf)@.len() ==> #[trigger] cdf@[j] == old(cdf)@[j],
        decreases m - i,
    {
        let num: u32 = 32768u32 * ((m - i) as u32);
        cdf[i] = (num / (m as u32)) as u16;
        i = i + 1;
    }
    cdf[nsymbs] = 0;
}

} // verus!
