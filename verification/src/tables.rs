//! Scan orders, interpolation taps and block/transform size lookup tables.
pub mod block;
pub mod interp;
pub mod scan;
pub mod transform;
