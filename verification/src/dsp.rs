//! Pixel-domain signal processing: transforms, prediction, copies and filters.
pub mod bench;
pub mod copy;
pub mod fdct_wide;
pub mod fwd_txfm;
pub mod fwd_txfm_rect;
pub mod hadamard;
pub mod intra_pred;
pub mod intrabc;
pub mod inv_txfm;
pub mod inv_txfm_rect;
pub mod loop_filter;
pub mod obmc;
pub mod sad;
pub mod scale;
pub mod subpel;
pub mod superres;
pub mod txfm_dispatch;
pub mod txfm_bounds;
pub mod warp;
pub mod variance;
