//! Verified core of a lane-parallel procedural renderer: framebuffer
//! geometry, lane-group dispatch arithmetic, fixed-point quantization,
//! and image-header construction.
pub mod config;
pub mod quantize;
pub mod vecmath;
pub mod kernel;
pub mod framebuffer;
pub mod ppm;
