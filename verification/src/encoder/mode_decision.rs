//! Mode decision: intra candidates, their rate-distortion cost, and the choice of
//! the cheapest.
use vstd::prelude::*;
use crate::types::block::BlockSize;
use crate::types::prediction::PredictionMode;
use crate::types::transform::TxType;

verus! {

/// A mode decision candidate.
#[derive(Debug, Clone, Copy)]
pub struct MdCandidate {
    pub mode: PredictionMode,
    pub tx_type: TxType,
    /// Rate cost in bits (fixed-point Q8).
    pub rate: u32,
    /// Distortion (SSE).
    pub distortion: u64,
    /// RD cost = distortion + lambda * rate.
    pub rd_cost: u64,
}

impl Default for MdCandidate {
    /// DC prediction with DCT-DCT, no rate or distortion yet, and the largest cost.
    fn default() -> (r: Self)
        ensures
            r.mode == PredictionMode::DcPred,
            r.tx_type == TxType::DctDct,
            r.rate == 0,
            r.distortion == 0,
            r.rd_cost == u64::MAX,
    {
        MdCandidate { mode: PredictionMode::DcPred, tx_type: TxType::DctDct, rate: 0, distortion: 0, rd_cost: u64::MAX }
    }
}

/// `distortion + (lambda * rate) / 256`.
pub open spec fn spec_rd_cost(distortion: u64, rate: u32, lambda: u64) -> int {
    distortion + (lambda * rate) / 256
}

/// RD cost from distortion and rate, with `lambda` in Q8 fixed point.
pub fn compute_rd_cost(distortion: u64, rate: u32, lambda: u64) -> (r: u64)
    requires
        lambda * rate <= u64::MAX,
        spec_rd_cost(distortion, rate, lambda) <= u64::MAX,
    ensures r == spec_rd_cost(distortion, rate, lambda),
{
    let prod: u64 = lambda * rate as u64;
    proof {
        vstd::bits::lemma_u64_shr_is_div(prod, 8);
        vstd::arithmetic::power2::lemma2_to64();
    }
    distortion + (prod >> 8)
}

/// A candidate with `mode`, otherwise as [`MdCandidate::default`].
pub open spec fn fresh_candidate(c: MdCandidate, mode: PredictionMode) -> bool {
    &&& c.mode == mode
    &&& c.tx_type == TxType::DctDct
    &&& c.rate == 0
    &&& c.distortion == 0
    &&& c.rd_cost == u64::MAX
}

/// The intra modes tried for a block, in order: DC, V, H, the three smooth modes,
/// Paeth, and for blocks of 8x8 and later in the enumeration six directional modes.
pub open spec fn intra_candidate_modes(block_size: BlockSize) -> Seq<PredictionMode> {
    let base = seq![PredictionMode::DcPred, PredictionMode::VPred, PredictionMode::HPred,
        PredictionMode::SmoothPred, PredictionMode::SmoothVPred, PredictionMode::SmoothHPred,
        PredictionMode::PaethPred];
    if block_size.index() >= 3 {
        base + seq![PredictionMode::D45Pred, PredictionMode::D135Pred, PredictionMode::D113Pred,
            PredictionMode::D157Pred, PredictionMode::D203Pred, PredictionMode::D67Pred]
    } else {
        base
    }
}

fn push_fresh(candidates: &mut Vec<MdCandidate>, mode: PredictionMode)
    ensures
        final(candidates)@.len() == old(candidates)@.len() + 1,
        forall|i: int| 0 <= i < old(candidates)@.len() ==> final(candidates)@[i] == old(candidates)@[i],
        fresh_candidate(final(candidates)@[old(candidates)@.len() as int], mode),
{
    let mut c = MdCandidate::default();
    c.mode = mode;
    candidates.push(c);
}

/// Intra mode candidates for a block (see [`intra_candidate_modes`]), each fresh.
pub fn generate_intra_candidates(block_size: BlockSize) -> (r: Vec<MdCandidate>)
    ensures
        r@.len() == intra_candidate_modes(block_size).len(),
        forall|i: int| 0 <= i < r@.len() ==> fresh_candidate(#[trigger] r@[i], intra_candidate_modes(block_size)[i]),
{
    let mut candidates: Vec<MdCandidate> = Vec::new();
    push_fresh(&mut candidates, PredictionMode::DcPred);
    push_fresh(&mut candidates, PredictionMode::VPred);
    push_fresh(&mut candidates, PredictionMode::HPred);
    push_fresh(&mut candidates, PredictionMode::SmoothPred);
    push_fresh(&mut candidates, PredictionMode::SmoothVPred);
    push_fresh(&mut candidates, PredictionMode::SmoothHPred);
    push_fresh(&mut candidates, PredictionMode::PaethPred);
    if block_size.as_index() >= 3 {
        push_fresh(&mut candidates, PredictionMode::D45Pred);
        push_fresh(&mut candidates, PredictionMode::D135Pred);
        push_fresh(&mut candidates, PredictionMode::D113Pred);
        push_fresh(&mut candidates, PredictionMode::D157Pred);
        push_fresh(&mut candidates, PredictionMode::D203Pred);
        push_fresh(&mut candidates, PredictionMode::D67Pred);
    }
    proof {
        let m = intra_candidate_modes(block_size);
        assert forall|i: int| 0 <= i < candidates@.len() implies fresh_candidate(#[trigger] candidates@[i], m[i]) by {
        }
    }
    candidates
}

/// Rate of signalling a mode in Q8 bits: DC 256, V and H 384, smooth and Paeth 512,
/// any other 768.
pub open spec fn spec_mode_rate(mode: PredictionMode) -> u32 {
    match mode {
        PredictionMode::DcPred => 256,
        PredictionMode::VPred | PredictionMode::HPred => 384,
        PredictionMode::SmoothPred | PredictionMode::SmoothVPred | PredictionMode::SmoothHPred
            | PredictionMode::PaethPred => 512,
        _ => 768,
    }
}

fn estimate_mode_rate(mode: PredictionMode) -> (r: u32)
    ensures r == spec_mode_rate(mode),
{
    match mode {
        PredictionMode::DcPred => 256,
        PredictionMode::VPred | PredictionMode::HPred => 384,
        PredictionMode::SmoothPred | PredictionMode::SmoothVPred | PredictionMode::SmoothHPred
            | PredictionMode::PaethPred => 512,
        _ => 768,
    }
}

/// Sum of squared differences of the first `n` entries of `a` and `b`.
pub open spec fn spec_sse(a: Seq<u8>, b: Seq<u8>, n: int) -> int
    decreases n,
{
    if n <= 0 {
        0
    } else {
        spec_sse(a, b, n - 1) + (a[n - 1] - b[n - 1]) * (a[n - 1] - b[n - 1])
    }
}

/// The sum of squared differences grows with `n`.
pub proof fn lemma_sse_monotone(a: Seq<u8>, b: Seq<u8>, m: int, n: int)
    requires 0 <= m <= n,
    ensures 0 <= spec_sse(a, b, m) <= spec_sse(a, b, n),
    decreases n,
{
    if n > m {
        lemma_sse_monotone(a, b, m, n - 1);
        assert((a[n - 1] - b[n - 1]) * (a[n - 1] - b[n - 1]) >= 0) by (nonlinear_arith);
    } else if n > 0 {
        lemma_sse_monotone(a, b, n - 1, n - 1);
        assert((a[n - 1] - b[n - 1]) * (a[n - 1] - b[n - 1]) >= 0) by (nonlinear_arith);
    }
}

/// Evaluate a candidate: its distortion is the SSE of `src` against `pred` over
/// `width * height` pixels, its rate that of its mode, its cost their RD cost.
pub fn evaluate_candidate(candidate: &mut MdCandidate, src: &[u8], pred: &[u8], width: usize, height: usize,
    lambda: u64)
    requires
        width * height <= src@.len(),
        width * height <= pred@.len(),
        lambda * spec_mode_rate(old(candidate).mode) <= u64::MAX,
        spec_sse(src@, pred@, width * height) + (lambda * spec_mode_rate(old(candidate).mode)) / 256 <= u64::MAX,
    ensures
        final(candidate).mode == old(candidate).mode,
        final(candidate).tx_type == old(candidate).tx_type,
        final(candidate).distortion == spec_sse(src@, pred@, width * height),
        final(candidate).rate == spec_mode_rate(old(candidate).mode),
        final(candidate).rd_cost == spec_rd_cost(final(candidate).distortion, final(candidate).rate, lambda),
{
    let slen: usize = src.len();
    assert(width * height <= slen);
    let n: usize = width * height;
    let mut sse: u64 = 0;
    let mut i: usize = 0;
    while i < n
        invariant
            i <= n, n == width * height, n <= src@.len(), n <= pred@.len(),
            sse == spec_sse(src@, pred@, i as int),
            spec_sse(src@, pred@, n as int) <= u64::MAX,
        decreases n - i,
    {
        let diff: i32 = src[i] as i32 - pred[i] as i32;
        proof {
            lemma_sse_monotone(src@, pred@, i + 1, n as int);
            assert(0 <= diff * diff <= 65025) by (nonlinear_arith) requires -255 <= diff <= 255;
        }
        sse = sse + (diff * diff) as u64;
        i = i + 1;
    }
    candidate.distortion = sse;
    candidate.rate = estimate_mode_rate(candidate.mode);
    candidate.rd_cost = compute_rd_cost(sse, candidate.rate, lambda);
}

/// Index of the first candidate of least RD cost.
pub open spec fn is_first_min(candidates: Seq<MdCandidate>, i: int) -> bool {
    &&& 0 <= i < candidates.len()
    &&& forall|j: int| 0 <= j < candidates.len() ==> candidates[i].rd_cost <= #[trigger] candidates[j].rd_cost
    &&& forall|j: int| 0 <= j < i ==> candidates[i].rd_cost < #[trigger] candidates[j].rd_cost
}

/// The candidate of least RD cost (the first of several), `None` for no candidates.
pub fn select_best_candidate(candidates: &[MdCandidate]) -> (r: Option<&MdCandidate>)
    ensures
        r is None <==> candidates@.len() == 0,
        r is Some ==> exists|i: int| is_first_min(candidates@, i) && *r->0 == candidates@[i],
{
    let n: usize = candidates.len();
    if n == 0 {
        return None;
    }
    let mut best: usize = 0;
    let mut i: usize = 1;
    while i < n
        invariant
            1 <= i <= n, n == candidates@.len(), best < i,
            forall|j: int| 0 <= j < i ==> candidates@[best as int].rd_cost <= #[trigger] candidates@[j].rd_cost,
            forall|j: int| 0 <= j < best ==> candidates@[best as int].rd_cost < #[trigger] candidates@[j].rd_cost,
        decreases n - i,
    {
        if candidates[i].rd_cost < candidates[best].rd_cost {
            best = i;
        }
        i = i + 1;
    }
    assert(is_first_min(candidates@, best as int));
    Some(&candidates[best])
}

} // verus!
