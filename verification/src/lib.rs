//! An AV1 encoder core: bitstream types, entropy coding, transforms,
//! prediction and the mode-decision loop, with their contracts.
pub mod disjoint_mut;
pub mod dsp;
pub mod encoder;
pub mod entropy;
pub mod tables;
pub mod types;
