//! A small 2D spatial-filtering library: grayscale reduction, per-channel
//! decomposition, and fixed-kernel convolution over 8-bit rasters.

pub mod convolve;
pub mod filters;
pub mod pipeline;
pub mod raster;

use vstd::prelude::*;

verus! {

/// Clamp a mathematical integer into the 8-bit sample range.
pub open spec fn clamp_255(v: int) -> u8 {
    if v < 0 {
        0u8
    } else if v > 255 {
        255u8
    } else {
        v as u8
    }
}

} // verus!
