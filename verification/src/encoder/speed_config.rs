//! Speed presets: which coding tools are enabled and how thoroughly they search, from
//! preset 0 (slowest, best quality) to 13 (fastest).
use vstd::prelude::*;

verus! {

/// Speed configuration derived from a preset number.
#[derive(Debug, Clone)]
pub struct SpeedConfig {
    /// Preset number (0-13).
    pub preset: u8,
    /// Maximum partition depth (0 = 128x128 only, 4 = down to 4x4).
    pub max_partition_depth: u8,
    /// Whether to enable ADST transform types.
    pub enable_adst: bool,
    /// Whether to enable identity transform.
    pub enable_identity_tx: bool,
    /// Whether to try all directional intra modes.
    pub enable_directional_modes: bool,
    /// Whether to enable CfL chroma prediction.
    pub enable_cfl: bool,
    /// Whether to enable filter-intra.
    pub enable_filter_intra: bool,
    /// Whether to enable palette mode.
    pub enable_palette: bool,
    /// Whether to enable OBMC.
    pub enable_obmc: bool,
    /// Whether to enable warped motion.
    pub enable_warped_motion: bool,
    /// Whether to enable compound inter prediction.
    pub enable_compound: bool,
    /// Whether to enable temporal filtering.
    pub enable_temporal_filter: bool,
    /// Whether to enable CDEF.
    pub enable_cdef: bool,
    /// Whether to enable loop restoration.
    pub enable_restoration: bool,
    /// Whether to use RDO for transform type selection.
    pub rdo_tx_decision: bool,
    /// Maximum number of intra candidates to evaluate.
    pub max_intra_candidates: u8,
    /// Sub-pixel ME precision (0=full-pel, 1=half, 2=quarter, 3=eighth).
    pub subpel_precision: u8,
    /// HME levels to use (0=none, 1=L2 only, 2=L1+L2, 3=L0+L1+L2).
    pub hme_levels: u8,
    /// ME search area width.
    pub me_search_width: u16,
    /// ME search area height.
    pub me_search_height: u16,
}

/// The configuration of preset `p`, for `p` at most 13.
pub open spec fn spec_speed_config(p: u8) -> SpeedConfig {
    SpeedConfig {
        preset: p,
        max_partition_depth: if p <= 3 { 4 } else if p <= 6 { 3 } else if p <= 9 { 2 } else { 1 },
        enable_adst: p <= 10,
        enable_identity_tx: p <= 8,
        enable_directional_modes: p <= 10,
        enable_cfl: p <= 11,
        enable_filter_intra: p <= 6,
        enable_palette: p <= 4,
        enable_obmc: p <= 6,
        enable_warped_motion: p <= 8,
        enable_compound: p <= 10,
        enable_temporal_filter: p <= 12,
        enable_cdef: p <= 12,
        enable_restoration: p <= 10,
        rdo_tx_decision: p <= 6,
        max_intra_candidates: if p <= 3 { 13 } else if p <= 6 { 7 } else if p <= 9 { 4 } else { 2 },
        subpel_precision: if p <= 5 { 3 } else if p <= 8 { 2 } else if p <= 11 { 1 } else { 0 },
        hme_levels: if p <= 3 { 3 } else if p <= 8 { 2 } else { 1 },
        me_search_width: if p <= 3 { 64 } else if p <= 6 { 48 } else if p <= 9 { 32 } else { 16 },
        me_search_height: if p <= 3 { 64 } else if p <= 6 { 48 } else if p <= 9 { 32 } else { 16 },
    }
}

/// The preset actually used: at most 13.
pub open spec fn clamp_preset(preset: u8) -> u8 {
    if preset <= 13 { preset } else { 13 }
}

impl SpeedConfig {
    /// The lambda multiplier of the preset in tenths: 10 up to preset 3, 11 up to 6,
    /// 12 up to 9, 14 beyond (higher presets favour rate over distortion).
    pub fn lambda_scale_tenths(&self) -> (r: u32)
        ensures
            r == (if self.preset <= 3 { 10u32 } else if self.preset <= 6 { 11u32 } else if self.preset <= 9 { 12u32 }
                else { 14u32 }),
    {
        if self.preset <= 3 { 10 } else if self.preset <= 6 { 11 } else if self.preset <= 9 { 12 } else { 14 }
    }

    /// The configuration of a preset; presets above 13 are taken as 13.
    pub fn from_preset(preset: u8) -> (r: Self)
        ensures r == spec_speed_config(clamp_preset(preset)),
    {
        let p: u8 = if preset < 13 { preset } else { 13 };
        SpeedConfig {
            preset: p,
            max_partition_depth: if p <= 3 { 4 } else if p <= 6 { 3 } else if p <= 9 { 2 } else { 1 },
            enable_adst: p <= 10,
            enable_identity_tx: p <= 8,
            enable_directional_modes: p <= 10,
            enable_cfl: p <= 11,
            enable_filter_intra: p <= 6,
            enable_palette: p <= 4,
            enable_obmc: p <= 6,
            enable_warped_motion: p <= 8,
            enable_compound: p <= 10,
            enable_temporal_filter: p <= 12,
            enable_cdef: p <= 12,
            enable_restoration: p <= 10,
            rdo_tx_decision: p <= 6,
            max_intra_candidates: if p <= 3 { 13 } else if p <= 6 { 7 } else if p <= 9 { 4 } else { 2 },
            subpel_precision: if p <= 5 { 3 } else if p <= 8 { 2 } else if p <= 11 { 1 } else { 0 },
            hme_levels: if p <= 3 { 3 } else if p <= 8 { 2 } else { 1 },
            me_search_width: if p <= 3 { 64 } else if p <= 6 { 48 } else if p <= 9 { 32 } else { 16 },
            me_search_height: if p <= 3 { 64 } else if p <= 6 { 48 } else if p <= 9 { 32 } else { 16 },
        }
    }
}

/// A faster preset never searches more or enables a tool that a slower one disables:
/// for `p <= q`, every tool on at `q` is on at `p`, and every search limit of `q` is at
/// most that of `p`.
pub proof fn lemma_preset_monotonic(p: u8, q: u8)
    requires p <= q,
    ensures ({
        let a = spec_speed_config(clamp_preset(p));
        let b = spec_speed_config(clamp_preset(q));
        &&& b.max_partition_depth <= a.max_partition_depth
        &&& (b.enable_adst ==> a.enable_adst)
        &&& (b.enable_identity_tx ==> a.enable_identity_tx)
        &&& (b.enable_directional_modes ==> a.enable_directional_modes)
        &&& (b.enable_cfl ==> a.enable_cfl)
        &&& (b.enable_filter_intra ==> a.enable_filter_intra)
        &&& (b.enable_palette ==> a.enable_palette)
        &&& (b.enable_obmc ==> a.enable_obmc)
        &&& (b.enable_warped_motion ==> a.enable_warped_motion)
        &&& (b.enable_compound ==> a.enable_compound)
        &&& (b.enable_temporal_filter ==> a.enable_temporal_filter)
        &&& (b.enable_cdef ==> a.enable_cdef)
        &&& (b.enable_restoration ==> a.enable_restoration)
        &&& (b.rdo_tx_decision ==> a.rdo_tx_decision)
        &&& b.max_intra_candidates <= a.max_intra_candidates
        &&& b.subpel_precision <= a.subpel_precision
        &&& b.hme_levels <= a.hme_levels
        &&& b.me_search_width <= a.me_search_width
        &&& b.me_search_height <= a.me_search_height
    }),
{
}

} // verus!
