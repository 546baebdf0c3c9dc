//! Pipeline orchestrator: decode raw encoded bytes through the external
//! decoder, then derive the nine named output rasters — the original, its
//! three channel decompositions, its grayscale plane, and the four filtered
//! planes.

use vstd::prelude::*;
use crate::convolve::{
    dual_conv_matches,
    lemma_dual_value_same,
    lemma_single_value_same,
    single_conv_matches,
    Normalization,
    SizeError,
};
use crate::filters::{
    gaussian_blur,
    gaussian_weights,
    laplacian_sharpen,
    laplacian_weights,
    low_pass_blur,
    sobel_edges,
    sobel_x_weights,
    sobel_y_weights,
};
use crate::raster::{
    luminance,
    luminance_matches,
    same_gray,
    same_rgba,
    split_channels,
    splits_match,
    GrayRaster,
    Rgba,
    RgbaRaster,
};

verus! {

/// Relies on `image::load_from_memory` (followed by
/// `DynamicImage::to_rgba8`): sniffs the container format and decodes the
/// bytes into a `width * height` row-major RGBA buffer, or returns `None`
/// on input it cannot decode. Which inputs decode, and to what, is left
/// open: the decoder's format detection and decoding are extensible through
/// process-global registries at run time, so the same bytes need not give
/// the same answer twice. The contract states only what holds of every
/// outcome — a decoded buffer holds exactly `width * height` pixels — and
/// everything downstream is verified for whatever raster comes back.
#[verifier::external_body]
fn decode_rgba(bytes: &[u8]) -> (r: Option<RgbaRaster>)
    ensures
        r is Some ==> r.unwrap().wf(),
{
    let img = match image::load_from_memory(bytes) {
        Ok(i) => i,
        Err(_) => return None,
    };
    let buf = img.to_rgba8();
    let (w, h) = buf.dimensions();
    let pixels: Vec<Rgba> = buf.pixels().map(
        |p| Rgba { r: p.0[0], g: p.0[1], b: p.0[2], a: p.0[3] },
    ).collect();
    Some(RgbaRaster { width: w as usize, height: h as usize, pixels })
}

/// The nine named output rasters of one pipeline run.
#[derive(Clone, PartialEq, Eq, Debug)]
pub struct PipelineImages {
    pub original: RgbaRaster,
    pub red: RgbaRaster,
    pub green: RgbaRaster,
    pub blue: RgbaRaster,
    pub grayscale: GrayRaster,
    pub sobel: GrayRaster,
    pub gaussian: GrayRaster,
    pub laplacian: GrayRaster,
    pub low_pass: GrayRaster,
}

/// `out` is what one pipeline run derives from the decoded raster `img`:
/// the original passed through, the three channel decompositions, the
/// luminance plane, and the four filters applied to that plane.
pub open spec fn pipeline_matches(img: RgbaRaster, out: PipelineImages) -> bool {
    &&& same_rgba(out.original, img)
    &&& splits_match(img, out.red, out.green, out.blue)
    &&& luminance_matches(img, out.grayscale)
    &&& single_conv_matches(
        out.grayscale,
        gaussian_weights(),
        5,
        Normalization::DivideBySum,
        out.gaussian,
    )
    &&& single_conv_matches(
        out.grayscale,
        gaussian_weights(),
        5,
        Normalization::DivideBySum,
        out.low_pass,
    )
    &&& single_conv_matches(
        out.grayscale,
        laplacian_weights(),
        3,
        Normalization::Unscaled,
        out.laplacian,
    )
    &&& dual_conv_matches(out.grayscale, sobel_x_weights(), sobel_y_weights(), 3, out.sobel)
}

/// Runs every pipeline stage after decoding: luminance, channel split, and
/// the four filters, on one decoded raster. Rejects rasters too small for
/// the 5x5 kernels (width or height at most 4), whose largest filter output
/// would have zero or negative extent.
pub fn process_raster(img: RgbaRaster) -> (r: Result<PipelineImages, SizeError>)
    requires
        img.wf(),
    ensures
        (r is Ok) <==> (img.width > 4 && img.height > 4),
        r is Ok ==> pipeline_matches(img, r.unwrap()),
{
    let gray = luminance(&img);
    let gaussian = match gaussian_blur(&gray) {
        Ok(g) => g,
        Err(e) => {
            return Err(e);
        },
    };
    let low_pass = match low_pass_blur(&gray) {
        Ok(g) => g,
        Err(e) => {
            return Err(e);
        },
    };
    let laplacian = match laplacian_sharpen(&gray) {
        Ok(g) => g,
        Err(e) => {
            return Err(e);
        },
    };
    let sobel = match sobel_edges(&gray) {
        Ok(g) => g,
        Err(e) => {
            return Err(e);
        },
    };
    let (red, green, blue) = split_channels(&img);
    Ok(
        PipelineImages {
            original: img,
            red,
            green,
            blue,
            grayscale: gray,
            sobel,
            gaussian,
            laplacian,
            low_pass,
        },
    )
}

/// Given raw encoded image bytes: decode once through the external decoder,
/// then derive and package the nine named output rasters. Reports absence
/// of a result — rather than crashing — when decoding fails, and likewise
/// when the decoded image is too small for the 5x5 kernels. The decoder
/// decides which bytes decode and to what (see `decode_rgba`); whatever
/// raster it yields, every returned output is pinned against it: the
/// original is well-formed, large enough for every kernel, and all nine
/// rasters satisfy `pipeline_matches`. The size check and everything after
/// the decode stand in the verified `process_raster`.
pub fn create_images_with_channels(image_bytes: &[u8]) -> (r: Option<PipelineImages>)
    ensures
        r is Some ==> {
            &&& r.unwrap().original.wf()
            &&& r.unwrap().original.width > 4
            &&& r.unwrap().original.height > 4
            &&& pipeline_matches(r.unwrap().original, r.unwrap())
        },
{
    let img = match decode_rgba(image_bytes) {
        Some(i) => i,
        None => {
            return None;
        },
    };
    match process_raster(img) {
        Ok(out) => Some(out),
        Err(_) => None,
    }
}

proof fn lemma_gray_pixels_pinned(a: GrayRaster, b: GrayRaster)
    requires
        a.wf(),
        b.wf(),
        a.width == b.width,
        a.height == b.height,
        forall|ox: int, oy: int|
            0 <= ox < a.width && 0 <= oy < a.height ==> #[trigger] a.sample_at(ox, oy)
                == b.sample_at(ox, oy),
    ensures
        same_gray(a, b),
{
    let w = a.width as int;
    let h = a.height as int;
    assert(a.width * a.height == b.width * b.height) by (nonlinear_arith)
        requires
            a.width == b.width,
            a.height == b.height,
    ;
    assert forall|j: int| 0 <= j < a.pixels@.len() implies a.pixels@[j] == b.pixels@[j] by {
        assert(0 < w) by (nonlinear_arith)
            requires
                0 <= j < w * h,
                0 <= w,
                0 <= h,
        ;
        vstd::arithmetic::div_mod::lemma_fundamental_div_mod(j, w);
        vstd::arithmetic::div_mod::lemma_mod_bound(j, w);
        let ox = j % w;
        let oy = j / w;
        assert(0 <= oy < h) by (nonlinear_arith)
            requires
                0 <= j < w * h,
                0 < w,
                j == w * oy + ox,
                0 <= ox < w,
        ;
        assert(oy * w == w * oy) by (nonlinear_arith);
        assert(a.sample_at(ox, oy) == b.sample_at(ox, oy));
    }
    assert(a.pixels@ =~= b.pixels@);
}

/// Law: the pipeline hides no randomness — everything its contract pins is
/// a function of the decoded raster alone, so two runs on rasters that
/// describe the same image yield outputs identical in dimensions and in
/// every pixel, for all nine named rasters.
pub proof fn lemma_pipeline_deterministic(
    img1: RgbaRaster,
    img2: RgbaRaster,
    o1: PipelineImages,
    o2: PipelineImages,
)
    requires
        img1.wf(),
        img2.wf(),
        same_rgba(img1, img2),
        pipeline_matches(img1, o1),
        pipeline_matches(img2, o2),
    ensures
        same_rgba(o1.original, o2.original),
        same_rgba(o1.red, o2.red),
        same_rgba(o1.green, o2.green),
        same_rgba(o1.blue, o2.blue),
        same_gray(o1.grayscale, o2.grayscale),
        same_gray(o1.gaussian, o2.gaussian),
        same_gray(o1.low_pass, o2.low_pass),
        same_gray(o1.laplacian, o2.laplacian),
        same_gray(o1.sobel, o2.sobel),
{
    assert(img1.width * img1.height == img2.width * img2.height) by (nonlinear_arith)
        requires
            img1.width == img2.width,
            img1.height == img2.height,
    ;
    assert forall|i: int|
        0 <= i < o1.red.pixels@.len() implies #[trigger] o1.red.pixels@[i]
        == o2.red.pixels@[i] by {
        assert(img1.pixels@[i] == img2.pixels@[i]);
    }
    assert forall|i: int|
        0 <= i < o1.green.pixels@.len() implies #[trigger] o1.green.pixels@[i]
        == o2.green.pixels@[i] by {
        assert(img1.pixels@[i] == img2.pixels@[i]);
    }
    assert forall|i: int|
        0 <= i < o1.blue.pixels@.len() implies #[trigger] o1.blue.pixels@[i]
        == o2.blue.pixels@[i] by {
        assert(img1.pixels@[i] == img2.pixels@[i]);
    }
    assert forall|i: int|
        0 <= i < o1.grayscale.pixels@.len() implies #[trigger] o1.grayscale.pixels@[i]
        == o2.grayscale.pixels@[i] by {
        assert(img1.pixels@[i] == img2.pixels@[i]);
    }
    assert(o1.red.pixels@ =~= o2.red.pixels@);
    assert(o1.green.pixels@ =~= o2.green.pixels@);
    assert(o1.blue.pixels@ =~= o2.blue.pixels@);
    assert(o1.grayscale.pixels@ =~= o2.grayscale.pixels@);
    let g1 = o1.grayscale;
    let g2 = o2.grayscale;
    assert(same_gray(g1, g2));
    assert forall|ox: int, oy: int|
        0 <= ox < o1.gaussian.width && 0 <= oy < o1.gaussian.height implies (
    #[trigger] o1.gaussian.sample_at(ox, oy)) == o2.gaussian.sample_at(ox, oy) by {
        lemma_single_value_same(g1, g2, gaussian_weights(), 5, Normalization::DivideBySum, ox, oy);
    }
    lemma_gray_pixels_pinned(o1.gaussian, o2.gaussian);
    assert forall|ox: int, oy: int|
        0 <= ox < o1.low_pass.width && 0 <= oy < o1.low_pass.height implies (
    #[trigger] o1.low_pass.sample_at(ox, oy)) == o2.low_pass.sample_at(ox, oy) by {
        lemma_single_value_same(g1, g2, gaussian_weights(), 5, Normalization::DivideBySum, ox, oy);
    }
    lemma_gray_pixels_pinned(o1.low_pass, o2.low_pass);
    assert forall|ox: int, oy: int|
        0 <= ox < o1.laplacian.width && 0 <= oy < o1.laplacian.height implies (
    #[trigger] o1.laplacian.sample_at(ox, oy)) == o2.laplacian.sample_at(ox, oy) by {
        lemma_single_value_same(g1, g2, laplacian_weights(), 3, Normalization::Unscaled, ox, oy);
    }
    lemma_gray_pixels_pinned(o1.laplacian, o2.laplacian);
    assert forall|ox: int, oy: int|
        0 <= ox < o1.sobel.width && 0 <= oy < o1.sobel.height implies (
    #[trigger] o1.sobel.sample_at(ox, oy)) == o2.sobel.sample_at(ox, oy) by {
        lemma_dual_value_same(g1, g2, sobel_x_weights(), sobel_y_weights(), 3, ox, oy);
    }
    lemma_gray_pixels_pinned(o1.sobel, o2.sobel);
}

} // verus!
