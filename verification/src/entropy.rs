//! Entropy coding: CDF adaptation, the range coder, bit writers, OBU framing
//! and the syntax-element writers.
pub mod bitwriter;
pub mod cdf;
pub mod coeff;
pub mod context;
pub mod mv_coding;
pub mod obu;
pub mod range_coder;
pub mod tile;
pub mod txb;
pub mod writer;
