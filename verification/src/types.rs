//! Core AV1 data structures, enums and constants.
pub mod bitstream;
pub mod block;
pub mod block_mode;
pub mod constants;
pub mod frame;
pub mod interp;
pub mod motion;
pub mod partition;
pub mod prediction;
pub mod quantization;
pub mod reference;
pub mod restoration;
pub mod transform;
