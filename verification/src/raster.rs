//! Raster data model: RGBA and single-channel (grayscale) images, row-major.

use vstd::prelude::*;

verus! {

/// One four-channel pixel: red, green, blue, alpha, each an 8-bit sample.
#[derive(Clone, Copy, PartialEq, Eq, Structural, Debug)]
pub struct Rgba {
    pub r: u8,
    pub g: u8,
    pub b: u8,
    pub a: u8,
}

/// A four-channel raster: `width * height` pixels in row-major order.
/// Immutable once constructed; producers build a new raster.
#[derive(Clone, PartialEq, Eq, Debug)]
pub struct RgbaRaster {
    pub width: usize,
    pub height: usize,
    pub pixels: Vec<Rgba>,
}

/// A single-channel intensity raster: `width * height` samples, row-major.
#[derive(Clone, PartialEq, Eq, Debug)]
pub struct GrayRaster {
    pub width: usize,
    pub height: usize,
    pub pixels: Vec<u8>,
}

impl RgbaRaster {
    /// Shape invariant: exactly one pixel per grid cell.
    pub open spec fn wf(self) -> bool {
        self.pixels@.len() == self.width * self.height
    }
}

impl GrayRaster {
    /// Shape invariant: exactly one sample per grid cell.
    pub open spec fn wf(self) -> bool {
        self.pixels@.len() == self.width * self.height
    }

    /// The intensity sample at column `x`, row `y`.
    pub open spec fn sample_at(self, x: int, y: int) -> u8 {
        self.pixels@[y * self.width + x]
    }
}

/// Two RGBA rasters describe the same image: equal dimensions, equal pixels.
pub open spec fn same_rgba(a: RgbaRaster, b: RgbaRaster) -> bool {
    a.width == b.width && a.height == b.height && a.pixels@ == b.pixels@
}

/// Two single-channel rasters describe the same image.
pub open spec fn same_gray(a: GrayRaster, b: GrayRaster) -> bool {
    a.width == b.width && a.height == b.height && a.pixels@ == b.pixels@
}

/// Fixed-point perceptual luminance of one RGBA pixel (alpha ignored):
/// the standard sRGB weights 0.2126 / 0.7152 / 0.0722, scaled by 10000.
pub open spec fn luma_of(p: Rgba) -> u8 {
    ((2126 * p.r + 7152 * p.g + 722 * p.b) / 10000) as u8
}

/// Grayscale reduction of one pixel, executable form.
pub fn luma(p: Rgba) -> (v: u8)
    ensures
        v == luma_of(p),
{
    let sum: u32 = 2126 * (p.r as u32) + 7152 * (p.g as u32) + 722 * (p.b as u32);
    let v: u32 = sum / 10000;
    v as u8
}

/// The red-only decomposition of one pixel: green and blue zeroed, alpha kept.
pub open spec fn red_of(p: Rgba) -> Rgba {
    Rgba { r: p.r, g: 0u8, b: 0u8, a: p.a }
}

/// The green-only decomposition of one pixel: red and blue zeroed, alpha kept.
pub open spec fn green_of(p: Rgba) -> Rgba {
    Rgba { r: 0u8, g: p.g, b: 0u8, a: p.a }
}

/// The blue-only decomposition of one pixel: red and green zeroed, alpha kept.
pub open spec fn blue_of(p: Rgba) -> Rgba {
    Rgba { r: 0u8, g: 0u8, b: p.b, a: p.a }
}

/// The grayscale plane `out` is the luminance reduction of `img`.
pub open spec fn luminance_matches(img: RgbaRaster, out: GrayRaster) -> bool {
    &&& out.wf()
    &&& out.width == img.width
    &&& out.height == img.height
    &&& forall|i: int|
        0 <= i < out.pixels@.len() ==> out.pixels@[i] == luma_of(#[trigger] img.pixels@[i])
}

/// The rasters `red`, `green`, `blue` are the per-channel decompositions of `img`.
pub open spec fn splits_match(
    img: RgbaRaster,
    red: RgbaRaster,
    green: RgbaRaster,
    blue: RgbaRaster,
) -> bool {
    &&& red.wf() && green.wf() && blue.wf()
    &&& red.width == img.width && red.height == img.height
    &&& green.width == img.width && green.height == img.height
    &&& blue.width == img.width && blue.height == img.height
    &&& forall|i: int|
        0 <= i < img.pixels@.len() ==> red.pixels@[i] == red_of(#[trigger] img.pixels@[i])
    &&& forall|i: int|
        0 <= i < img.pixels@.len() ==> green.pixels@[i] == green_of(#[trigger] img.pixels@[i])
    &&& forall|i: int|
        0 <= i < img.pixels@.len() ==> blue.pixels@[i] == blue_of(#[trigger] img.pixels@[i])
}

/// Law: summed channel-wise, the three single-channel decompositions of a
/// pixel reconstruct at most the original value in every channel (exactly
/// the original in the channel each output keeps, zero in the others), and
/// every decomposition preserves alpha exactly.
pub proof fn lemma_split_reconstruction(p: Rgba)
    ensures
        red_of(p).r + green_of(p).r + blue_of(p).r == p.r,
        red_of(p).g + green_of(p).g + blue_of(p).g == p.g,
        red_of(p).b + green_of(p).b + blue_of(p).b == p.b,
        red_of(p).r + green_of(p).r + blue_of(p).r <= p.r,
        red_of(p).g + green_of(p).g + blue_of(p).g <= p.g,
        red_of(p).b + green_of(p).b + blue_of(p).b <= p.b,
        red_of(p).a == p.a,
        green_of(p).a == p.a,
        blue_of(p).a == p.a,
{
}

/// Decomposes an RGBA raster into its red-only, green-only and blue-only
/// rasters of identical dimensions; the unmodified original is the implicit
/// fourth output and stays with the caller. Values are copied verbatim.
pub fn split_channels(img: &RgbaRaster) -> (out: (RgbaRaster, RgbaRaster, RgbaRaster))
    requires
        img.wf(),
    ensures
        splits_match(*img, out.0, out.1, out.2),
{
    let n: usize = img.pixels.len();
    let mut red_pixels: Vec<Rgba> = Vec::new();
    let mut green_pixels: Vec<Rgba> = Vec::new();
    let mut blue_pixels: Vec<Rgba> = Vec::new();
    let mut i: usize = 0;
    while i < n
        invariant
            n == img.pixels@.len(),
            i <= n,
            red_pixels@.len() == i,
            green_pixels@.len() == i,
            blue_pixels@.len() == i,
            forall|j: int| 0 <= j < i ==> red_pixels@[j] == red_of(#[trigger] img.pixels@[j]),
            forall|j: int| 0 <= j < i ==> green_pixels@[j] == green_of(#[trigger] img.pixels@[j]),
            forall|j: int| 0 <= j < i ==> blue_pixels@[j] == blue_of(#[trigger] img.pixels@[j]),
        decreases n - i,
    {
        let p = img.pixels[i];
        red_pixels.push(Rgba { r: p.r, g: 0, b: 0, a: p.a });
        green_pixels.push(Rgba { r: 0, g: p.g, b: 0, a: p.a });
        blue_pixels.push(Rgba { r: 0, g: 0, b: p.b, a: p.a });
        i = i + 1;
    }
    (
        RgbaRaster { width: img.width, height: img.height, pixels: red_pixels },
        RgbaRaster { width: img.width, height: img.height, pixels: green_pixels },
        RgbaRaster { width: img.width, height: img.height, pixels: blue_pixels },
    )
}

/// Reduces an RGBA raster to a single-channel raster of identical
/// dimensions; each output sample is the perceptual luminance of the
/// corresponding input pixel. Total over every well-formed raster.
pub fn luminance(img: &RgbaRaster) -> (out: GrayRaster)
    requires
        img.wf(),
    ensures
        luminance_matches(*img, out),
{
    let n: usize = img.pixels.len();
    let mut pixels: Vec<u8> = Vec::new();
    let mut i: usize = 0;
    while i < n
        invariant
            n == img.pixels@.len(),
            i <= n,
            pixels@.len() == i,
            forall|j: int| 0 <= j < i ==> pixels@[j] == luma_of(#[trigger] img.pixels@[j]),
        decreases n - i,
    {
        let v = luma(img.pixels[i]);
        pixels.push(v);
        i = i + 1;
    }
    GrayRaster { width: img.width, height: img.height, pixels }
}

} // verus!
