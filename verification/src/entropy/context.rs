//! Frame entropy contexts: the CDF tables of a frame and the writers of
//! block-level syntax elements that code with them.
use vstd::prelude::*;
use crate::entropy::range_coder::CodedSymbol;
use crate::entropy::writer::{AomWriter, cdf_ok, codable, adapted, literal_symbols};

verus! {

pub const PARTITION_CONTEXTS: usize = 20;
pub const INTRA_MODES: usize = 13;
pub const UV_INTRA_MODES: usize = 14;
pub const KF_MODE_CONTEXTS: usize = 5;
pub const COMP_INTER_CONTEXTS: usize = 5;
pub const INTER_MODE_CONTEXTS: usize = 8;
pub const NEWMV_MODE_CONTEXTS: usize = 6;
pub const GLOBALMV_MODE_CONTEXTS: usize = 2;
pub const REFMV_MODE_CONTEXTS: usize = 6;
pub const DRL_MODE_CONTEXTS: usize = 3;
pub const INTRA_INTER_CONTEXTS: usize = 4;
pub const SKIP_CONTEXTS: usize = 3;
pub const SKIP_MODE_CONTEXTS: usize = 3;
pub const TX_SIZE_CONTEXTS: usize = 3;
pub const DELTA_Q_PROBS: usize = 3;
pub const REF_CONTEXTS: usize = 3;
pub const INTERP_FILTER_CONTEXTS: usize = 16;
pub const SWITCHABLE_FILTERS: usize = 3;
pub const BLOCK_SIZE_GROUPS: usize = 4;
pub const TX_TYPES: usize = 16;
pub const EXT_TX_SIZES: usize = 4;
pub const EOB_COEF_CONTEXTS: usize = 9;
pub const SIG_COEF_CONTEXTS: usize = 42;
pub const LEVEL_CONTEXTS: usize = 21;
pub const NUM_BASE_LEVELS: usize = 2;
pub const BR_CDF_SIZE: usize = 4;
pub const COEFF_BASE_RANGE: usize = 12;
pub const DC_SIGN_CONTEXTS: usize = 3;
pub const PLANE_TYPES: usize = 2;
pub const TXB_SKIP_CONTEXTS: usize = 13;
pub const EOB_MAX_SYMS: usize = 13;
/// Number of directional intra modes (V_PRED through D67_PRED).
pub const DIRECTIONAL_MODES: usize = 8;
/// Number of angle delta symbols (delta -3 to +3).
pub const ANGLE_DELTA_SYMS: usize = 7;

/// The CDF tables of a frame (or tile), all in ICDF form with a trailing
/// adaptation counter.
#[derive(Clone)]
pub struct FrameContext {
    /// Partition type CDFs per partition context (4, 10 or 8 symbols).
    pub partition_cdf: [[u16; 11]; 20],
    /// Skip flag CDFs.
    pub skip_cdf: [[u16; 3]; 3],
    /// Skip mode CDFs.
    pub skip_mode_cdf: [[u16; 3]; 3],
    /// Intra/inter flag CDFs.
    pub intra_inter_cdf: [[u16; 3]; 4],
    /// Key-frame luma mode CDFs by above and left mode context.
    pub kf_y_mode_cdf: [[[u16; 14]; 5]; 5],
    /// Inter-frame luma mode CDFs by block size group.
    pub y_mode_cdf: [[u16; 14]; 4],
    /// Chroma mode CDFs (without and with CfL) by luma mode.
    pub uv_mode_cdf: [[[u16; 15]; 13]; 2],
    /// Angle delta CDFs per directional mode.
    pub angle_delta_cdf: [[u16; 8]; 8],
    /// Compound inter mode CDFs.
    pub inter_compound_mode_cdf: [[u16; 5]; 8],
    /// New-MV flag CDFs.
    pub newmv_cdf: [[u16; 3]; 6],
    /// Global-MV flag CDFs.
    pub globalmv_cdf: [[u16; 3]; 2],
    /// Ref-MV flag CDFs.
    pub refmv_cdf: [[u16; 3]; 6],
    /// DRL index CDFs.
    pub drl_cdf: [[u16; 3]; 3],
    /// Transform size CDFs.
    pub tx_size_cdf: [[u16; 4]; 3],
    /// Transform-block skip CDFs.
    pub txb_skip_cdf: [[u16; 3]; 13],
    /// DC sign CDFs by plane type.
    pub dc_sign_cdf: [[[u16; 3]; 3]; 2],
    /// End-of-block CDFs by plane type.
    pub eob_flag_cdf: [[[u16; 14]; 2]; 2],
    /// Interpolation filter CDFs.
    pub interp_filter_cdf: [[u16; 4]; 16],
    /// Single reference CDFs.
    pub single_ref_cdf: [[[u16; 3]; 6]; 3],
    /// Compound reference CDFs.
    pub comp_ref_cdf: [[[u16; 3]; 3]; 3],
    /// Compound inter CDFs.
    pub comp_inter_cdf: [[u16; 3]; 5],
    /// Delta-Q CDF.
    pub delta_q_cdf: [u16; 5],
}

/// Default partition CDFs from spec. Zero-padded to 11 for uniform array size.
/// Contexts 0-3: 4 types, 4-15: 10 types, 16-19: 8 types.
pub const DEFAULT_PARTITION_CDF: [[u16; 11]; 20] = [[13636, 7258, 2376, 0, 0, 0, 0, 0, 0, 0, 0], [18840, 12913, 4228, 0, 0, 0, 0, 0, 0, 0, 0], [20246, 9089, 4139, 0, 0, 0, 0, 0, 0, 0, 0], [22872, 13985, 6915, 0, 0, 0, 0, 0, 0, 0, 0], [17171, 11839, 8197, 6062, 5104, 3947, 3167, 2197, 866, 0, 0], [24843, 21725, 15983, 10298, 8797, 7725, 6117, 4067, 2934, 0, 0], [27354, 19499, 17657, 12280, 10408, 8268, 7231, 6432, 651, 0, 0], [30106, 26406, 24154, 11908, 9715, 7990, 6332, 4939, 1597, 0, 0], [14306, 11848, 9644, 5121, 4541, 3719, 3249, 2590, 1224, 0, 0], [25079, 23708, 20712, 7776, 7108, 6586, 5817, 4727, 3716, 0, 0], [26753, 23759, 22706, 8224, 7359, 6223, 5697, 5242, 721, 0, 0], [31374, 30560, 29972, 4154, 3707, 3302, 2928, 2583, 869, 0, 0], [12631, 11221, 9690, 3202, 2931, 2507, 2244, 1876, 1044, 0, 0], [26036, 25278, 23271, 4824, 4518, 4253, 3799, 3138, 2664, 0, 0], [26823, 25105, 24420, 4085, 3651, 3019, 2704, 2470, 530, 0, 0], [31898, 31556, 31281, 1570, 1374, 1194, 1025, 887, 436, 0, 0], [4869, 4549, 4239, 284, 229, 149, 129, 0, 0, 0, 0], [26161, 25778, 24500, 708, 549, 430, 397, 0, 0, 0, 0], [27339, 26092, 25646, 741, 541, 237, 186, 0, 0, 0, 0], [32057, 31802, 31596, 320, 230, 151, 104, 0, 0, 0, 0],];

/// Default skip CDFs.
pub const DEFAULT_SKIP_CDF: [[u16; 3]; 3] = [[1097, 0, 0], [16253, 0, 0], [28192, 0, 0],];

/// Default intra/inter CDFs.
pub const DEFAULT_INTRA_INTER_CDF: [[u16; 3]; 4] = [[31962, 0, 0], [16106, 0, 0], [12582, 0, 0], [6230, 0, 0],];

/// Default Y-mode CDFs for inter frames.
pub const DEFAULT_Y_MODE_CDF: [[u16; 14]; 4] = [[9967, 9279, 8475, 8012, 7167, 6645, 6162, 5350, 4823, 3540, 3083, 2419, 0, 0], [14095, 12923, 10137, 9450, 8818, 8119, 7241, 5404, 4616, 3067, 2784, 1916, 0, 0], [12998, 11789, 9372, 8829, 8527, 8114, 7632, 5695, 4938, 3408, 3038, 2109, 0, 0], [12613, 11467, 9930, 9590, 9507, 9235, 9065, 7964, 7416, 6193, 5752, 4719, 0, 0],];

/// Default keyframe Y-mode CDFs [above_mode][left_mode][13 modes + sentinel].
pub const DEFAULT_KF_Y_MODE_CDF: [[[u16; 14]; 5]; 5] = [[[17180, 15741, 13430, 12550, 12086, 11658, 10943, 9524, 8579, 4603, 3675, 2302, 0, 0], [20752, 14702, 13252, 12465, 12049, 11324, 10880, 9736, 8334, 4110, 2596, 1359, 0, 0], [22716, 21997, 10472, 9980, 9713, 9529, 8635, 7148, 6608, 3432, 2839, 1201, 0, 0], [18677, 17362, 16326, 13960, 13632, 13222, 12770, 10672, 8022, 3183, 1810, 306, 0, 0], [20646, 19503, 17165, 16267, 14159, 12735, 10377, 7185, 6331, 2507, 1695, 293, 0, 0]], [[22745, 13183, 11920, 11328, 10936, 10008, 9679, 8745, 7387, 3754, 2286, 1332, 0, 0], [26785, 8669, 8208, 7882, 7702, 6973, 6855, 6345, 5158, 2863, 1492, 974, 0, 0], [25324, 19987, 12591, 12040, 11691, 11161, 10598, 9363, 8299, 4853, 3678, 2276, 0, 0], [24231, 18079, 17336, 15681, 15360, 14596, 14360, 12943, 8119, 3615, 1672, 558, 0, 0], [25225, 18537, 17272, 16573, 14863, 12051, 10784, 8252, 6767, 3093, 1787, 774, 0, 0]], [[20155, 19177, 11385, 10764, 10456, 10191, 9367, 7713, 7039, 3230, 2463, 691, 0, 0], [23081, 19298, 14262, 13538, 13164, 12621, 12073, 10706, 9549, 5025, 3557, 1861, 0, 0], [26585, 26263, 6744, 6516, 6402, 6334, 5686, 4414, 4213, 2301, 1974, 682, 0, 0], [22050, 21034, 17814, 15544, 15203, 14844, 14207, 11245, 8890, 3793, 2481, 516, 0, 0], [23574, 22910, 16267, 15505, 14344, 13597, 11205, 6807, 6207, 2696, 2031, 305, 0, 0]], [[20166, 18369, 17280, 14387, 13990, 13453, 13044, 11349, 7708, 3072, 1851, 359, 0, 0], [24565, 18947, 18244, 15663, 15329, 14637, 14364, 13300, 7543, 3283, 1610, 426, 0, 0], [24317, 23037, 17764, 15125, 14756, 14343, 13698, 11230, 8163, 3650, 2690, 750, 0, 0], [25054, 23720, 23252, 16101, 15951, 15774, 15615, 14001, 6025, 2379, 1232, 240, 0, 0], [23925, 22488, 21272, 17451, 16116, 14825, 13660, 10050, 6999, 2815, 1785, 283, 0, 0]], [[20190, 19097, 16789, 15934, 13693, 11855, 9779, 7319, 6549, 2554, 1618, 291, 0, 0], [23205, 19142, 17688, 16876, 15012, 11905, 10561, 8532, 7388, 3115, 1625, 491, 0, 0], [24412, 23867, 15152, 14512, 13418, 12662, 10170, 6821, 6302, 2868, 2245, 507, 0, 0], [21933, 20953, 19644, 16726, 15750, 14729, 13821, 10015, 8153, 3279, 1885, 286, 0, 0], [25150, 24480, 22909, 22259, 17382, 14111, 9865, 3992, 3588, 1413, 966, 175, 0, 0]],];

/// Default single reference CDFs.
pub const DEFAULT_SINGLE_REF_CDF: [[[u16; 3]; 6]; 3] = [[[27871, 0, 0], [31213, 0, 0], [28532, 0, 0], [24118, 0, 0], [31864, 0, 0], [31324, 0, 0]], [[15795, 0, 0], [16017, 0, 0], [13121, 0, 0], [7995, 0, 0], [21754, 0, 0], [17681, 0, 0]], [[3024, 0, 0], [2489, 0, 0], [1574, 0, 0], [873, 0, 0], [5893, 0, 0], [2464, 0, 0]],];

/// Default comp ref CDFs.
pub const DEFAULT_COMP_REF_CDF: [[[u16; 3]; 3]; 3] = [[[27822, 0, 0], [23300, 0, 0], [31265, 0, 0]], [[12877, 0, 0], [10327, 0, 0], [17608, 0, 0]], [[2037, 0, 0], [1709, 0, 0], [5224, 0, 0]],];

/// Default comp inter CDFs.
pub const DEFAULT_COMP_INTER_CDF: [[u16; 3]; 5] = [[5940, 0, 0], [8733, 0, 0], [20737, 0, 0], [22128, 0, 0], [29867, 0, 0],];

/// Default of the field of the same name.
pub const DEFAULT_SKIP_MODE_CDF: [[u16; 3]; 3] = [[16384, 0, 0], [16384, 0, 0], [16384, 0, 0]];

/// Default of the field of the same name.
pub const DEFAULT_UV_MODE_CDF: [[[u16; 15]; 13]; 2] = [[[0, 0, 0, 0, 0, 0, 0, 0, 0, 0, 0, 0, 0, 0, 0], [0, 0, 0, 0, 0, 0, 0, 0, 0, 0, 0, 0, 0, 0, 0], [0, 0, 0, 0, 0, 0, 0, 0, 0, 0, 0, 0, 0, 0, 0], [0, 0, 0, 0, 0, 0, 0, 0, 0, 0, 0, 0, 0, 0, 0], [0, 0, 0, 0, 0, 0, 0, 0, 0, 0, 0, 0, 0, 0, 0], [0, 0, 0, 0, 0, 0, 0, 0, 0, 0, 0, 0, 0, 0, 0], [0, 0, 0, 0, 0, 0, 0, 0, 0, 0, 0, 0, 0, 0, 0], [0, 0, 0, 0, 0, 0, 0, 0, 0, 0, 0, 0, 0, 0, 0], [0, 0, 0, 0, 0, 0, 0, 0, 0, 0, 0, 0, 0, 0, 0], [0, 0, 0, 0, 0, 0, 0, 0, 0, 0, 0, 0, 0, 0, 0], [0, 0, 0, 0, 0, 0, 0, 0, 0, 0, 0, 0, 0, 0, 0], [0, 0, 0, 0, 0, 0, 0, 0, 0, 0, 0, 0, 0, 0, 0], [0, 0, 0, 0, 0, 0, 0, 0, 0, 0, 0, 0, 0, 0, 0]], [[0, 0, 0, 0, 0, 0, 0, 0, 0, 0, 0, 0, 0, 0, 0], [0, 0, 0, 0, 0, 0, 0, 0, 0, 0, 0, 0, 0, 0, 0], [0, 0, 0, 0, 0, 0, 0, 0, 0, 0, 0, 0, 0, 0, 0], [0, 0, 0, 0, 0, 0, 0, 0, 0, 0, 0, 0, 0, 0, 0], [0, 0, 0, 0, 0, 0, 0, 0, 0, 0, 0, 0, 0, 0, 0], [0, 0, 0, 0, 0, 0, 0, 0, 0, 0, 0, 0, 0, 0, 0], [0, 0, 0, 0, 0, 0, 0, 0, 0, 0, 0, 0, 0, 0, 0], [0, 0, 0, 0, 0, 0, 0, 0, 0, 0, 0, 0, 0, 0, 0], [0, 0, 0, 0, 0, 0, 0, 0, 0, 0, 0, 0, 0, 0, 0], [0, 0, 0, 0, 0, 0, 0, 0, 0, 0, 0, 0, 0, 0, 0], [0, 0, 0, 0, 0, 0, 0, 0, 0, 0, 0, 0, 0, 0, 0], [0, 0, 0, 0, 0, 0, 0, 0, 0, 0, 0, 0, 0, 0, 0], [0, 0, 0, 0, 0, 0, 0, 0, 0, 0, 0, 0, 0, 0, 0]]];

/// Default of the field of the same name.
pub const DEFAULT_ANGLE_DELTA_CDF: [[u16; 8]; 8] = [[32768, 27306, 21845, 16384, 10922, 5461, 0, 0], [32768, 27306, 21845, 16384, 10922, 5461, 0, 0], [32768, 27306, 21845, 16384, 10922, 5461, 0, 0], [32768, 27306, 21845, 16384, 10922, 5461, 0, 0], [32768, 27306, 21845, 16384, 10922, 5461, 0, 0], [32768, 27306, 21845, 16384, 10922, 5461, 0, 0], [32768, 27306, 21845, 16384, 10922, 5461, 0, 0], [32768, 27306, 21845, 16384, 10922, 5461, 0, 0]];

/// Default of the field of the same name.
pub const DEFAULT_INTER_COMPOUND_MODE_CDF: [[u16; 5]; 8] = [[24576, 16384, 8192, 0, 0], [24576, 16384, 8192, 0, 0], [24576, 16384, 8192, 0, 0], [24576, 16384, 8192, 0, 0], [24576, 16384, 8192, 0, 0], [24576, 16384, 8192, 0, 0], [24576, 16384, 8192, 0, 0], [24576, 16384, 8192, 0, 0]];

/// Default of the field of the same name.
pub const DEFAULT_NEWMV_CDF: [[u16; 3]; 6] = [[16384, 0, 0], [16384, 0, 0], [16384, 0, 0], [16384, 0, 0], [16384, 0, 0], [16384, 0, 0]];

/// Default of the field of the same name.
pub const DEFAULT_GLOBALMV_CDF: [[u16; 3]; 2] = [[16384, 0, 0], [16384, 0, 0]];

/// Default of the field of the same name.
pub const DEFAULT_REFMV_CDF: [[u16; 3]; 6] = [[16384, 0, 0], [16384, 0, 0], [16384, 0, 0], [16384, 0, 0], [16384, 0, 0], [16384, 0, 0]];

/// Default of the field of the same name.
pub const DEFAULT_DRL_CDF: [[u16; 3]; 3] = [[16384, 0, 0], [16384, 0, 0], [16384, 0, 0]];

/// Default of the field of the same name.
pub const DEFAULT_TX_SIZE_CDF: [[u16; 4]; 3] = [[21844, 10922, 0, 0], [21844, 10922, 0, 0], [21844, 10922, 0, 0]];

/// Default of the field of the same name.
pub const DEFAULT_TXB_SKIP_CDF: [[u16; 3]; 13] = [[16384, 0, 0], [16384, 0, 0], [16384, 0, 0], [16384, 0, 0], [16384, 0, 0], [16384, 0, 0], [16384, 0, 0], [16384, 0, 0], [16384, 0, 0], [16384, 0, 0], [16384, 0, 0], [16384, 0, 0], [16384, 0, 0]];

/// Default of the field of the same name.
pub const DEFAULT_DC_SIGN_CDF: [[[u16; 3]; 3]; 2] = [[[16384, 0, 0], [16384, 0, 0], [16384, 0, 0]], [[16384, 0, 0], [16384, 0, 0], [16384, 0, 0]]];

/// Default of the field of the same name.
pub const DEFAULT_EOB_FLAG_CDF: [[[u16; 14]; 2]; 2] = [[[0, 0, 0, 0, 0, 0, 0, 0, 0, 0, 0, 0, 0, 0], [0, 0, 0, 0, 0, 0, 0, 0, 0, 0, 0, 0, 0, 0]], [[0, 0, 0, 0, 0, 0, 0, 0, 0, 0, 0, 0, 0, 0], [0, 0, 0, 0, 0, 0, 0, 0, 0, 0, 0, 0, 0, 0]]];

/// Default of the field of the same name.
pub const DEFAULT_INTERP_FILTER_CDF: [[u16; 4]; 16] = [[21844, 10922, 0, 0], [21844, 10922, 0, 0], [21844, 10922, 0, 0], [21844, 10922, 0, 0], [21844, 10922, 0, 0], [21844, 10922, 0, 0], [21844, 10922, 0, 0], [21844, 10922, 0, 0], [21844, 10922, 0, 0], [21844, 10922, 0, 0], [21844, 10922, 0, 0], [21844, 10922, 0, 0], [21844, 10922, 0, 0], [21844, 10922, 0, 0], [21844, 10922, 0, 0], [21844, 10922, 0, 0]];

/// Default of the field of the same name.
pub const DEFAULT_DELTA_Q_CDF: [u16; 5] = [24576, 16384, 8192, 0, 0];


impl FrameContext {
    /// A frame context holding the default CDFs.
    pub fn new_default() -> (r: Self)
        ensures
            r.partition_cdf == DEFAULT_PARTITION_CDF,
            r.skip_cdf == DEFAULT_SKIP_CDF,
            r.skip_mode_cdf == DEFAULT_SKIP_MODE_CDF,
            r.intra_inter_cdf == DEFAULT_INTRA_INTER_CDF,
            r.kf_y_mode_cdf == DEFAULT_KF_Y_MODE_CDF,
            r.y_mode_cdf == DEFAULT_Y_MODE_CDF,
            r.uv_mode_cdf == DEFAULT_UV_MODE_CDF,
            r.angle_delta_cdf == DEFAULT_ANGLE_DELTA_CDF,
            r.inter_compound_mode_cdf == DEFAULT_INTER_COMPOUND_MODE_CDF,
            r.newmv_cdf == DEFAULT_NEWMV_CDF,
            r.globalmv_cdf == DEFAULT_GLOBALMV_CDF,
            r.refmv_cdf == DEFAULT_REFMV_CDF,
            r.drl_cdf == DEFAULT_DRL_CDF,
            r.tx_size_cdf == DEFAULT_TX_SIZE_CDF,
            r.txb_skip_cdf == DEFAULT_TXB_SKIP_CDF,
            r.dc_sign_cdf == DEFAULT_DC_SIGN_CDF,
            r.eob_flag_cdf == DEFAULT_EOB_FLAG_CDF,
            r.interp_filter_cdf == DEFAULT_INTERP_FILTER_CDF,
            r.single_ref_cdf == DEFAULT_SINGLE_REF_CDF,
            r.comp_ref_cdf == DEFAULT_COMP_REF_CDF,
            r.comp_inter_cdf == DEFAULT_COMP_INTER_CDF,
            r.delta_q_cdf == DEFAULT_DELTA_Q_CDF,
    {
        FrameContext {
            partition_cdf: DEFAULT_PARTITION_CDF,
            skip_cdf: DEFAULT_SKIP_CDF,
            skip_mode_cdf: DEFAULT_SKIP_MODE_CDF,
            intra_inter_cdf: DEFAULT_INTRA_INTER_CDF,
            kf_y_mode_cdf: DEFAULT_KF_Y_MODE_CDF,
            y_mode_cdf: DEFAULT_Y_MODE_CDF,
            uv_mode_cdf: DEFAULT_UV_MODE_CDF,
            angle_delta_cdf: DEFAULT_ANGLE_DELTA_CDF,
            inter_compound_mode_cdf: DEFAULT_INTER_COMPOUND_MODE_CDF,
            newmv_cdf: DEFAULT_NEWMV_CDF,
            globalmv_cdf: DEFAULT_GLOBALMV_CDF,
            refmv_cdf: DEFAULT_REFMV_CDF,
            drl_cdf: DEFAULT_DRL_CDF,
            tx_size_cdf: DEFAULT_TX_SIZE_CDF,
            txb_skip_cdf: DEFAULT_TXB_SKIP_CDF,
            dc_sign_cdf: DEFAULT_DC_SIGN_CDF,
            eob_flag_cdf: DEFAULT_EOB_FLAG_CDF,
            interp_filter_cdf: DEFAULT_INTERP_FILTER_CDF,
            single_ref_cdf: DEFAULT_SINGLE_REF_CDF,
            comp_ref_cdf: DEFAULT_COMP_REF_CDF,
            comp_inter_cdf: DEFAULT_COMP_INTER_CDF,
            delta_q_cdf: DEFAULT_DELTA_Q_CDF,
        }
    }
}

/// `x` clamped to at most `m`.
pub open spec fn at_most(x: int, m: int) -> int {
    if x <= m { x } else { m }
}

/// The row a coded symbol leaves behind: adapted when updates are on.
pub open spec fn after_coding(allow: bool, row: Seq<u16>, sym: nat, n: nat) -> Seq<u16> {
    if allow { adapted(row, sym, n) } else { row }
}

/// Skip context: the number of skipped neighbours.
pub fn get_skip_context(above_skip: bool, left_skip: bool) -> (r: usize)
    ensures r == (if above_skip { 1int } else { 0 }) + (if left_skip { 1int } else { 0 }),
{
    (if above_skip { 1usize } else { 0 }) + (if left_skip { 1usize } else { 0 })
}

/// Skip flag, coded under `skip_cdf[min(ctx, 2)]`.
pub fn write_skip(w: &mut AomWriter, fc: &mut FrameContext, ctx: usize, skip: bool)
    requires
        old(w).room(1),
        cdf_ok(old(fc).skip_cdf[at_most(ctx as int, 2)]@, 2),
        codable(old(fc).skip_cdf[at_most(ctx as int, 2)]@, if skip { 1nat } else { 0nat }),
    ensures
        final(w).ec.wf(),
        final(w).ec@.offs <= old(w).ec@.offs + 7,
        final(w).allow_update_cdf == old(w).allow_update_cdf,
        final(w).ec.base() == old(w).ec.base(),
        final(w).ec.coded() == old(w).ec.coded().push(CodedSymbol::Cdf(
            if skip { 1usize } else { 0usize }, old(fc).skip_cdf[at_most(ctx as int, 2)]@, 2)),
        final(fc).skip_cdf@ == old(fc).skip_cdf@.update(at_most(ctx as int, 2),
            final(fc).skip_cdf[at_most(ctx as int, 2)]),
        final(fc).skip_cdf[at_most(ctx as int, 2)]@ == after_coding(old(w).allow_update_cdf,
            old(fc).skip_cdf[at_most(ctx as int, 2)]@, if skip { 1nat } else { 0nat }, 2),
        *final(fc) == (FrameContext { skip_cdf: final(fc).skip_cdf, ..*old(fc) }),
{
    let c: usize = if ctx < 2 { ctx } else { 2 };
    let sym: usize = if skip { 1 } else { 0 };
    let mut row = fc.skip_cdf[c];
    w.write_symbol(sym, &mut row, 2);
    fc.skip_cdf[c] = row;
    proof {
        assert(fc.skip_cdf@ =~= old(fc).skip_cdf@.update(c as int, row));
    }
}

/// Intra/inter context: 0 when both neighbours are intra, 3 when neither is.
pub fn get_intra_inter_context(above_intra: bool, left_intra: bool) -> (r: usize)
    ensures r == (if above_intra { 0int } else { 2 }) + (if left_intra { 0int } else { 1 }),
{
    match (above_intra, left_intra) {
        (true, true) => 0,
        (true, false) => 1,
        (false, true) => 2,
        (false, false) => 3,
    }
}

/// The mode context group of an intra mode: DC, V/H, smooth, Paeth, directional.
pub open spec fn spec_intra_mode_context(mode: u8) -> usize {
    if mode == 0 { 0 }
    else if mode <= 2 { 1 }
    else if mode <= 6 { 2 }
    else if mode == 7 { 3 }
    else { 4 }
}

/// Context group of an intra mode, for the key-frame mode CDF.
pub fn intra_mode_context(mode: u8) -> (r: usize)
    ensures r == spec_intra_mode_context(mode), r < 5,
{
    match mode {
        0 => 0,
        1 | 2 => 1,
        3..=6 => 2,
        7 => 3,
        _ => 4,
    }
}

/// Block size group of a `width` x `height` block, by its smaller side.
pub open spec fn spec_block_size_group(width: usize, height: usize) -> usize {
    let n = if width <= height { width } else { height };
    if n <= 4 { 0 } else if n <= 8 { 1 } else if n <= 16 { 2 } else { 3 }
}

/// Block size group for the inter-frame luma mode CDF.
pub fn block_size_group(width: usize, height: usize) -> (r: usize)
    ensures r == spec_block_size_group(width, height), r < 4,
{
    let n: usize = if width <= height { width } else { height };
    match n {
        0..=4 => 0,
        5..=8 => 1,
        9..=16 => 2,
        _ => 3,
    }
}

/// Partition context of a block `width` wide and the number of partition symbols there.
pub open spec fn spec_partition_context(width: usize, above_same_size: bool, left_same_size: bool) -> (usize, usize) {
    let bsl: int = if width <= 8 { 0 } else if width <= 16 { 1 } else if width <= 32 { 2 } else { 4 };
    let sub: int = (if above_same_size { 0int } else { 2 }) + (if left_same_size { 0int } else { 1 });
    let ctx = bsl * 4 + sub;
    let nsymbs: usize = if ctx <= 3 { 4 } else if ctx <= 15 { 10 } else { 8 };
    (at_most(ctx, 19) as usize, nsymbs)
}

/// Partition context and symbol count: blocks up to 8 wide use contexts 0-3 (4 partition
/// types), 16 and 32 wide 4-11 (10 types), 64 and wider 16-19 (8 types); the neighbour
/// pattern (above, left of the same size) picks the context within the class.
pub fn get_partition_context(width: usize, above_same_size: bool, left_same_size: bool) -> (r: (usize, usize))
    ensures r == spec_partition_context(width, above_same_size, left_same_size), r.0 < 20,
{
    let bsl: usize = if width <= 8 { 0 } else if width <= 16 { 1 } else if width <= 32 { 2 } else { 4 };
    let sub: usize = match (above_same_size, left_same_size) {
        (true, true) => 0,
        (true, false) => 1,
        (false, true) => 2,
        (false, false) => 3,
    };
    let ctx: usize = bsl * 4 + sub;
    let nsymbs: usize = if ctx <= 3 { 4 } else if ctx <= 15 { 10 } else { 8 };
    (if ctx < 19 { ctx } else { 19 }, nsymbs)
}

/// Partition type, coded under `partition_cdf[ctx]` with `min(nsymbs, 10)` symbols; a
/// partition past the last symbol is coded as the last.
pub fn write_partition(w: &mut AomWriter, fc: &mut FrameContext, ctx: usize, partition: u8, nsymbs: usize)
    requires
        old(w).room(1),
        ctx < 20,
        cdf_ok(old(fc).partition_cdf[ctx as int]@, at_most(nsymbs as int, 10) as nat),
        codable(old(fc).partition_cdf[ctx as int]@, at_most(partition as int, at_most(nsymbs as int, 10) - 1) as nat),
    ensures
        final(w).ec.wf(),
        final(w).ec@.offs <= old(w).ec@.offs + 7,
        final(w).allow_update_cdf == old(w).allow_update_cdf,
        final(w).ec.base() == old(w).ec.base(),
        final(w).ec.coded() == old(w).ec.coded().push(CodedSymbol::Cdf(
            at_most(partition as int, at_most(nsymbs as int, 10) - 1) as usize,
            old(fc).partition_cdf[ctx as int]@, at_most(nsymbs as int, 10) as usize)),
        final(fc).partition_cdf@ == old(fc).partition_cdf@.update(ctx as int, final(fc).partition_cdf[ctx as int]),
        final(fc).partition_cdf[ctx as int]@ == after_coding(old(w).allow_update_cdf,
            old(fc).partition_cdf[ctx as int]@,
            at_most(partition as int, at_most(nsymbs as int, 10) - 1) as nat, at_most(nsymbs as int, 10) as nat),
        *final(fc) == (FrameContext { partition_cdf: final(fc).partition_cdf, ..*old(fc) }),
{
    let symbs: usize = if nsymbs < 10 { nsymbs } else { 10 };
    let p: usize = partition as usize;
    let sym: usize = if p < symbs - 1 { p } else { symbs - 1 };
    let mut row = fc.partition_cdf[ctx];
    w.write_symbol(sym, &mut row, symbs);
    fc.partition_cdf[ctx] = row;
    proof {
        assert(fc.partition_cdf@ =~= old(fc).partition_cdf@.update(ctx as int, row));
    }
}

/// Intra/inter flag, coded under `intra_inter_cdf[min(ctx, 3)]`.
pub fn write_intra_inter(w: &mut AomWriter, fc: &mut FrameContext, ctx: usize, is_inter: bool)
    requires
        old(w).room(1),
        cdf_ok(old(fc).intra_inter_cdf[at_most(ctx as int, 3)]@, 2),
        codable(old(fc).intra_inter_cdf[at_most(ctx as int, 3)]@, if is_inter { 1nat } else { 0nat }),
    ensures
        final(w).ec.wf(),
        final(w).ec@.offs <= old(w).ec@.offs + 7,
        final(w).allow_update_cdf == old(w).allow_update_cdf,
        final(w).ec.base() == old(w).ec.base(),
        final(w).ec.coded() == old(w).ec.coded().push(CodedSymbol::Cdf(
            if is_inter { 1usize } else { 0usize }, old(fc).intra_inter_cdf[at_most(ctx as int, 3)]@, 2)),
        final(fc).intra_inter_cdf@ == old(fc).intra_inter_cdf@.update(at_most(ctx as int, 3),
            final(fc).intra_inter_cdf[at_most(ctx as int, 3)]),
        final(fc).intra_inter_cdf[at_most(ctx as int, 3)]@ == after_coding(old(w).allow_update_cdf,
            old(fc).intra_inter_cdf[at_most(ctx as int, 3)]@, if is_inter { 1nat } else { 0nat }, 2),
        *final(fc) == (FrameContext { intra_inter_cdf: final(fc).intra_inter_cdf, ..*old(fc) }),
{
    let c: usize = if ctx < 3 { ctx } else { 3 };
    let sym: usize = if is_inter { 1 } else { 0 };
    let mut row = fc.intra_inter_cdf[c];
    w.write_symbol(sym, &mut row, 2);
    fc.intra_inter_cdf[c] = row;
    proof {
        assert(fc.intra_inter_cdf@ =~= old(fc).intra_inter_cdf@.update(c as int, row));
    }
}

/// Key-frame luma mode, coded under `kf_y_mode_cdf[min(above, 4)][min(left, 4)]`.
pub fn write_intra_mode_kf(w: &mut AomWriter, fc: &mut FrameContext, above_mode: usize, left_mode: usize, mode: u8)
    requires
        old(w).room(1),
        mode < 13,
        cdf_ok(old(fc).kf_y_mode_cdf[at_most(above_mode as int, 4)][at_most(left_mode as int, 4)]@, 13),
        codable(old(fc).kf_y_mode_cdf[at_most(above_mode as int, 4)][at_most(left_mode as int, 4)]@, mode as nat),
    ensures
        final(w).ec.wf(),
        final(w).ec@.offs <= old(w).ec@.offs + 7,
        final(w).allow_update_cdf == old(w).allow_update_cdf,
        final(w).ec.base() == old(w).ec.base(),
        final(w).ec.coded() == old(w).ec.coded().push(CodedSymbol::Cdf(mode as usize,
            old(fc).kf_y_mode_cdf[at_most(above_mode as int, 4)][at_most(left_mode as int, 4)]@, 13)),
        final(fc).kf_y_mode_cdf@ == old(fc).kf_y_mode_cdf@.update(at_most(above_mode as int, 4),
            final(fc).kf_y_mode_cdf[at_most(above_mode as int, 4)]),
        final(fc).kf_y_mode_cdf[at_most(above_mode as int, 4)]@ ==
            old(fc).kf_y_mode_cdf[at_most(above_mode as int, 4)]@.update(at_most(left_mode as int, 4),
                final(fc).kf_y_mode_cdf[at_most(above_mode as int, 4)][at_most(left_mode as int, 4)]),
        final(fc).kf_y_mode_cdf[at_most(above_mode as int, 4)][at_most(left_mode as int, 4)]@ ==
            after_coding(old(w).allow_update_cdf,
                old(fc).kf_y_mode_cdf[at_most(above_mode as int, 4)][at_most(left_mode as int, 4)]@, mode as nat, 13),
        *final(fc) == (FrameContext { kf_y_mode_cdf: final(fc).kf_y_mode_cdf, ..*old(fc) }),
{
    let a: usize = if above_mode < 4 { above_mode } else { 4 };
    let l: usize = if left_mode < 4 { left_mode } else { 4 };
    let mut plane = fc.kf_y_mode_cdf[a];
    let mut row = plane[l];
    w.write_symbol(mode as usize, &mut row, 13);
    plane[l] = row;
    fc.kf_y_mode_cdf[a] = plane;
    proof {
        assert(plane@ =~= old(fc).kf_y_mode_cdf[a as int]@.update(l as int, row));
        assert(fc.kf_y_mode_cdf@ =~= old(fc).kf_y_mode_cdf@.update(a as int, plane));
    }
}

/// Whether an intra mode is directional (V_PRED through D67_PRED).
pub fn is_directional_mode(mode: u8) -> (r: bool)
    ensures r == (1 <= mode <= 8),
{
    1 <= mode && mode <= 8
}

/// Angle delta of directional `mode`, coded under `angle_delta_cdf[mode - 1]` as the
/// symbol `clamp(angle_delta + 3, 0, 6)`.
pub fn write_angle_delta(w: &mut AomWriter, fc: &mut FrameContext, mode: u8, angle_delta: i8)
    requires
        old(w).room(1),
        1 <= mode <= 8,
        angle_delta <= 124,
        cdf_ok(old(fc).angle_delta_cdf[mode - 1]@, 7),
        codable(old(fc).angle_delta_cdf[mode - 1]@,
            (if angle_delta < -3 { 0int } else if angle_delta > 3 { 6int } else { angle_delta + 3 }) as nat),
    ensures
        final(w).ec.wf(),
        final(w).ec@.offs <= old(w).ec@.offs + 7,
        final(w).allow_update_cdf == old(w).allow_update_cdf,
        final(w).ec.base() == old(w).ec.base(),
        final(w).ec.coded() == old(w).ec.coded().push(CodedSymbol::Cdf(
            (if angle_delta < -3 { 0int } else if angle_delta > 3 { 6int } else { angle_delta + 3 }) as usize,
            old(fc).angle_delta_cdf[mode - 1]@, 7)),
        final(fc).angle_delta_cdf@ == old(fc).angle_delta_cdf@.update(mode - 1, final(fc).angle_delta_cdf[mode - 1]),
        final(fc).angle_delta_cdf[mode - 1]@ == after_coding(old(w).allow_update_cdf,
            old(fc).angle_delta_cdf[mode - 1]@,
            (if angle_delta < -3 { 0int } else if angle_delta > 3 { 6int } else { angle_delta + 3 }) as nat, 7),
        *final(fc) == (FrameContext { angle_delta_cdf: final(fc).angle_delta_cdf, ..*old(fc) }),
{
    let m: usize = mode as usize - 1;
    let d: i8 = angle_delta + 3;
    let sym: usize = if d < 0 { 0 } else if d > 6 { 6 } else { d as usize };
    let mut row = fc.angle_delta_cdf[m];
    w.write_symbol(sym, &mut row, 7);
    fc.angle_delta_cdf[m] = row;
    proof {
        assert(fc.angle_delta_cdf@ =~= old(fc).angle_delta_cdf@.update(m as int, row));
    }
}

/// Inter-frame luma mode, coded under `y_mode_cdf[min(bsize_group, 3)]`.
pub fn write_intra_mode_inter(w: &mut AomWriter, fc: &mut FrameContext, bsize_group: usize, mode: u8)
    requires
        old(w).room(1),
        mode < 13,
        cdf_ok(old(fc).y_mode_cdf[at_most(bsize_group as int, 3)]@, 13),
        codable(old(fc).y_mode_cdf[at_most(bsize_group as int, 3)]@, mode as nat),
    ensures
        final(w).ec.wf(),
        final(w).ec@.offs <= old(w).ec@.offs + 7,
        final(w).allow_update_cdf == old(w).allow_update_cdf,
        final(w).ec.base() == old(w).ec.base(),
        final(w).ec.coded() == old(w).ec.coded().push(CodedSymbol::Cdf(mode as usize,
            old(fc).y_mode_cdf[at_most(bsize_group as int, 3)]@, 13)),
        final(fc).y_mode_cdf@ == old(fc).y_mode_cdf@.update(at_most(bsize_group as int, 3),
            final(fc).y_mode_cdf[at_most(bsize_group as int, 3)]),
        final(fc).y_mode_cdf[at_most(bsize_group as int, 3)]@ == after_coding(old(w).allow_update_cdf,
            old(fc).y_mode_cdf[at_most(bsize_group as int, 3)]@, mode as nat, 13),
        *final(fc) == (FrameContext { y_mode_cdf: final(fc).y_mode_cdf, ..*old(fc) }),
{
    let g: usize = if bsize_group < 3 { bsize_group } else { 3 };
    let mut row = fc.y_mode_cdf[g];
    w.write_symbol(mode as usize, &mut row, 13);
    fc.y_mode_cdf[g] = row;
    proof {
        assert(fc.y_mode_cdf@ =~= old(fc).y_mode_cdf@.update(g as int, row));
    }
}

/// Intra mode as a 4-bit literal.
pub fn write_intra_mode(w: &mut AomWriter, mode: u8)
    requires old(w).room(4),
    ensures
        final(w).ec.wf(),
        final(w).ec@.offs <= old(w).ec@.offs + 28,
        final(w).allow_update_cdf == old(w).allow_update_cdf,
        final(w).ec.base() == old(w).ec.base(),
        final(w).ec.coded() == old(w).ec.coded() + literal_symbols(mode as u32, 4),
{
    w.write_literal(mode as u32, 4);
}

/// Motion vector component: a sign bit, then the magnitude as a 14-bit literal.
pub fn write_mv_component(w: &mut AomWriter, comp: i16)
    requires old(w).room(15),
    ensures
        final(w).ec.wf(),
        final(w).ec@.offs <= old(w).ec@.offs + 105,
        final(w).allow_update_cdf == old(w).allow_update_cdf,
        final(w).ec.base() == old(w).ec.base(),
        final(w).ec.coded() == old(w).ec.coded().push(CodedSymbol::Bool(comp < 0, 16384))
            + literal_symbols((if comp < 0 { -comp } else { comp as int }) as u32, 14),
{
    let mag: u32 = if comp < 0 { (0i32 - comp as i32) as u32 } else { comp as u32 };
    w.write_bit(comp < 0);
    w.write_literal(mag, 14);
}

/// Transform type as a 4-bit literal.
pub fn write_tx_type(w: &mut AomWriter, tx_type: u8)
    requires old(w).room(4),
    ensures
        final(w).ec.wf(),
        final(w).ec@.offs <= old(w).ec@.offs + 28,
        final(w).allow_update_cdf == old(w).allow_update_cdf,
        final(w).ec.base() == old(w).ec.base(),
        final(w).ec.coded() == old(w).ec.coded() + literal_symbols(tx_type as u32, 4),
{
    w.write_literal(tx_type as u32, 4);
}

} // verus!
