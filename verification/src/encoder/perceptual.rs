//! Perceptual tuning: frequency-weighted quantization matrices and the loop-filter
//! strengths of still-image coding.
use vstd::prelude::*;

verus! {

/// Quantization matrix: a Q8 weight per coefficient position of an 8x8 block; a
/// weight above 256 quantizes its coefficient more coarsely.
pub struct QuantMatrix {
    weights: [u16; 64],
}

/// `a / b` rounded toward zero.
pub open spec fn trunc_div(a: int, b: int) -> int {
    if a >= 0 { a / b } else { -((-a) / b) }
}

/// Coefficients changed by a quantization matrix: the first `min(len, 64, size^2)`
/// are `f(i, c)`, the rest stay.
pub open spec fn qm_scaled(new: Seq<i32>, old: Seq<i32>, size: usize, f: spec_fn(int, i32) -> i32) -> bool {
    let n = if old.len() < 64 { old.len() as int } else { 64 };
    let n = if n < size * size { n } else { size * size };
    &&& new.len() == old.len()
    &&& forall|i: int| 0 <= i < n ==> #[trigger] new[i] == f(i, old[i])
    &&& forall|i: int| n <= i < old.len() ==> #[trigger] new[i] == old[i]
}

impl QuantMatrix {
    /// The weights in raster order.
    pub closed spec fn view(&self) -> Seq<u16> {
        self.weights@
    }

    /// Every weight is at least 256 (no coefficient is refined).
    #[verifier::type_invariant]
    closed spec fn weights_ok(&self) -> bool {
        forall|i: int| 0 <= i < 64 ==> #[trigger] self.weights@[i] >= 256
    }

    /// Every weight is 256: no frequency weighting.
    pub fn flat() -> (r: Self)
        ensures r@ == Seq::new(64, |i: int| 256u16),
    {
        let r = QuantMatrix { weights: [256u16; 64] };
        assert(r@ =~= Seq::new(64, |i: int| 256u16));
        r
    }

    /// The 8x8 matrix of the contrast sensitivity function: 256 at DC rising to 576 at
    /// the highest frequency.
    pub fn av1_default_8x8() -> (r: Self)
        ensures r@ == DEFAULT_8X8_WEIGHTS@,
    {
        QuantMatrix { weights: DEFAULT_8X8_WEIGHTS }
    }

    /// The still-image 8x8 matrix, which keeps more mid-frequency detail.
    pub fn still_image_8x8() -> (r: Self)
        ensures r@ == STILL_8X8_WEIGHTS@,
    {
        QuantMatrix { weights: STILL_8X8_WEIGHTS }
    }

    /// Apply the matrix before quantization: `c * 256 / w` (rounded toward zero) for
    /// the first `min(len, 64, size^2)` coefficients.
    pub fn apply(&self, coeffs: &mut [i32], size: usize)
        requires size * size <= usize::MAX,
        ensures
            qm_scaled(final(coeffs)@, old(coeffs)@, size,
                |i: int, c: i32| trunc_div(c * 256, self@[i] as int) as i32),
    {
        proof { use_type_invariant(self); }
        let len: usize = coeffs.len();
        let mut n: usize = if len < 64 { len } else { 64 };
        if size * size < n {
            n = size * size;
        }
        let mut i: usize = 0;
        while i < n
            invariant
                i <= n, n <= 64, n <= len, len == coeffs@.len(), coeffs@.len() == old(coeffs)@.len(),
                n == (if (if old(coeffs)@.len() < 64 { old(coeffs)@.len() as int } else { 64 }) < size * size {
                    (if old(coeffs)@.len() < 64 { old(coeffs)@.len() as int } else { 64 }) } else { size * size }),
                forall|k: int| 0 <= k < 64 ==> #[trigger] self.weights@[k] >= 256,
                forall|k: int| 0 <= k < i ==> #[trigger] coeffs@[k] == trunc_div(old(coeffs)@[k] * 256,
                    self@[k] as int) as i32,
                forall|k: int| i <= k < old(coeffs)@.len() ==> #[trigger] coeffs@[k] == old(coeffs)@[k],
            decreases n - i,
        {
            let w: i64 = self.weights[i] as i64;
            let c: i64 = coeffs[i] as i64 * 256;
            let q: i64 = if c >= 0 { c / w } else { -((-c) / w) };
            coeffs[i] = q as i32;
            i = i + 1;
        }
    }

    /// Remove the matrix from dequantized coefficients: `c * w / 256` (rounded toward
    /// zero, truncated to `i32`) for the first `min(len, 64, size^2)` coefficients.
    pub fn unapply(&self, dqcoeffs: &mut [i32], size: usize)
        requires size * size <= usize::MAX,
        ensures
            qm_scaled(final(dqcoeffs)@, old(dqcoeffs)@, size,
                |i: int, c: i32| trunc_div(c * self@[i], 256) as i32),
    {
        let len: usize = dqcoeffs.len();
        let mut n: usize = if len < 64 { len } else { 64 };
        if size * size < n {
            n = size * size;
        }
        let mut i: usize = 0;
        while i < n
            invariant
                i <= n, n <= 64, n <= len, len == dqcoeffs@.len(), dqcoeffs@.len() == old(dqcoeffs)@.len(),
                n == (if (if old(dqcoeffs)@.len() < 64 { old(dqcoeffs)@.len() as int } else { 64 }) < size * size {
                    (if old(dqcoeffs)@.len() < 64 { old(dqcoeffs)@.len() as int } else { 64 }) } else { size * size }),
                forall|k: int| 0 <= k < i ==> #[trigger] dqcoeffs@[k] == trunc_div(old(dqcoeffs)@[k] * self@[k], 256) as i32,
                forall|k: int| i <= k < old(dqcoeffs)@.len() ==> #[trigger] dqcoeffs@[k] == old(dqcoeffs)@[k],
            decreases n - i,
        {
            let w: i64 = self.weights[i] as i64;
            let d: i64 = dqcoeffs[i] as i64;
            proof {
                assert(-0x8000_0000 * 65535 <= d * w <= 0x8000_0000 * 65535) by (nonlinear_arith)
                    requires -0x8000_0000 <= d < 0x8000_0000, 0 <= w <= 65535;
            }
            let c: i64 = d * w;
            let q: i64 = if c >= 0 { c / 256 } else { -((-c) / 256) };
            dqcoeffs[i] = q as i32;
            i = i + 1;
        }
    }
}

/// Weights of [`QuantMatrix::av1_default_8x8`].
pub const DEFAULT_8X8_WEIGHTS: [u16; 64] = [
    256, 256, 260, 270, 290, 320, 360, 400,
    256, 258, 265, 280, 300, 340, 380, 420,
    260, 265, 275, 295, 320, 360, 400, 440,
    270, 280, 295, 315, 345, 385, 425, 460,
    290, 300, 320, 345, 375, 415, 450, 480,
    320, 340, 360, 385, 415, 450, 480, 512,
    360, 380, 400, 425, 450, 480, 512, 540,
    400, 420, 440, 460, 480, 512, 540, 576,
];

/// Weights of [`QuantMatrix::still_image_8x8`].
pub const STILL_8X8_WEIGHTS: [u16; 64] = [
    256, 256, 258, 262, 270, 285, 305, 340,
    256, 257, 260, 268, 280, 298, 320, 355,
    258, 260, 266, 278, 295, 315, 340, 370,
    262, 268, 278, 295, 315, 340, 365, 395,
    270, 280, 295, 315, 340, 370, 400, 430,
    285, 298, 315, 340, 370, 400, 435, 465,
    305, 320, 340, 365, 400, 435, 470, 500,
    340, 355, 370, 395, 430, 465, 500, 540,
];

/// Still-image quality options.
#[derive(Debug, Clone)]
pub struct StillImageConfig {
    /// Use a perceptual distortion metric instead of MSE.
    pub perceptual_distortion: bool,
    /// Reduce CDEF strength to preserve fine detail.
    pub reduce_cdef: bool,
    /// Reduce deblocking strength.
    pub reduce_deblock: bool,
    /// Use finer QP granularity.
    pub fine_qp: bool,
}

impl Default for StillImageConfig {
    /// Every option on.
    fn default() -> (r: Self)
        ensures r.perceptual_distortion, r.reduce_cdef, r.reduce_deblock, r.fine_qp,
    {
        StillImageConfig { perceptual_distortion: true, reduce_cdef: true, reduce_deblock: true, fine_qp: true }
    }
}

/// Deblocking and CDEF strengths for still images: `min(2 qp, 63)` and
/// `min(qp / 4, 15)`, each reduced to 2/3 and 3/4 (rounded down) when the
/// configuration asks for it.
pub fn adjust_loop_filter_for_still(qp: u8, config: &StillImageConfig) -> (r: (i32, u8))
    ensures
        r.0 == (if config.reduce_deblock { (if 2 * qp < 63 { 2 * qp } else { 63int }) * 2 / 3 }
            else { if 2 * qp < 63 { 2 * qp } else { 63int } }),
        r.1 == (if config.reduce_cdef { (if qp / 4 < 15 { qp as int / 4 } else { 15int }) * 3 / 4 }
            else { if qp / 4 < 15 { qp as int / 4 } else { 15int } }),
{
    let base_deblock: i32 = if (qp as i32) * 2 < 63 { (qp as i32) * 2 } else { 63 };
    let base_cdef: u8 = if qp / 4 < 15 { qp / 4 } else { 15 };
    let deblock: i32 = if config.reduce_deblock { base_deblock * 2 / 3 } else { base_deblock };
    let cdef: u8 = if config.reduce_cdef { base_cdef * 3 / 4 } else { base_cdef };
    (deblock, cdef)
}

} // verus!
