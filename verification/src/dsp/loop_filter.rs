//! In-loop filters: deblocking across block edges, the constrained directional
//! enhancement filter, and the Wiener and self-guided restoration filters.
pub mod cdef;
pub mod deblock;
pub mod restoration;
pub mod sgrproj;

pub use deblock::{
    deblock_horz, deblock_horz_wide, deblock_vert, deblock_vert_14tap, deblock_vert_wide, derive_deblock_strength,
    select_deblock_filter_size,
};
pub use cdef::{cdef_filter_block, cdef_find_dir, constrain, floor_log2};
pub use restoration::{optimize_wiener_coefficients, wiener_filter};
pub use sgrproj::{sgrproj_filter, SgrprojParams};
