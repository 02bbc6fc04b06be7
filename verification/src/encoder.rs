//! The encoder proper: block encoding, mode decision, motion search, picture
//! management, rate control and encoder configuration.
pub mod encode_loop;
pub mod film_grain;
pub mod mode_decision;
pub mod motion_est;
pub mod partition;
pub mod perceptual;
pub mod pipeline;
pub mod picture;
pub mod rate_control;
pub mod speed_config;
pub mod temporal_filter;
