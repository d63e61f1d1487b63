//! Verified color-analysis library: RGB/HSI/Lab pixel conversions,
//! channel and intensity histograms, contrast stretching, histogram
//! equalization, and a vegetation (greenery) index, all in fixed-point
//! integer arithmetic.

pub mod colorspace;
mod fixed;
pub mod image;
mod trig;
pub mod vegetation;

pub use fixed::FIX_ONE;
