//! Quasicrystal rendering: configuration grammar, keyframe animation, angle
//! sets, frame scheduling and rasterisation of rotated-wave interference
//! patterns.

pub mod angles;
pub mod animation;
pub mod color;
pub mod crystal;
pub mod error;
pub mod fraction;
pub mod input;
pub mod number;
pub mod numeral;
pub mod output;
pub mod raster;
pub mod schedule;
pub mod text;
