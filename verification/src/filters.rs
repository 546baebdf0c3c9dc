//! Filter catalog: the four named fixed-kernel filters, each delegating to
//! the convolution engine.

use vstd::prelude::*;
use crate::convolve::{
    convolve_dual,
    convolve_single,
    dual_value_at,
    is_flat,
    single_value_at,
    weight_sum,
    weight_sum_prefix,
    abs_weight_sum,
    abs_sum_prefix,
    dual_conv_matches,
    single_conv_matches,
    Kernel,
    Normalization,
    SizeError,
};
use crate::raster::GrayRaster;

verus! {

/// The 5x5 binomial approximation of a Gaussian, row-major; the weights sum
/// to 273.
pub open spec fn gaussian_weights() -> Seq<i32> {
    seq![
        1i32, 4i32, 7i32, 4i32, 1i32,
        4i32, 16i32, 26i32, 16i32, 4i32,
        7i32, 26i32, 41i32, 26i32, 7i32,
        4i32, 16i32, 26i32, 16i32, 4i32,
        1i32, 4i32, 7i32, 4i32, 1i32,
    ]
}

/// The 3x3 Laplacian sharpen kernel: center 9, the eight neighbors -1; the
/// weights sum to 1.
pub open spec fn laplacian_weights() -> Seq<i32> {
    seq![-1i32, -1i32, -1i32, -1i32, 9i32, -1i32, -1i32, -1i32, -1i32]
}

/// The 3x3 Sobel horizontal-gradient kernel; the weights sum to 0.
pub open spec fn sobel_x_weights() -> Seq<i32> {
    seq![-1i32, 0i32, 1i32, -2i32, 0i32, 2i32, -1i32, 0i32, 1i32]
}

/// The 3x3 Sobel vertical-gradient kernel; the weights sum to 0.
pub open spec fn sobel_y_weights() -> Seq<i32> {
    seq![-1i32, -2i32, -1i32, 0i32, 0i32, 0i32, 1i32, 2i32, 1i32]
}

/// The Gaussian weights sum to 273.
pub proof fn lemma_gaussian_weight_sum()
    ensures
        weight_sum(gaussian_weights()) == 273,
{
    reveal_with_fuel(weight_sum_prefix, 26);
}

/// The Laplacian weights sum to 1: the center 9 less the eight neighbors.
pub proof fn lemma_laplacian_weight_sum()
    ensures
        weight_sum(laplacian_weights()) == 1,
{
    reveal_with_fuel(weight_sum_prefix, 10);
}

/// Each Sobel kernel's weights sum to 0, and their absolute values to 8.
pub proof fn lemma_sobel_weight_sums()
    ensures
        weight_sum(sobel_x_weights()) == 0,
        weight_sum(sobel_y_weights()) == 0,
        abs_weight_sum(sobel_x_weights()) == 8,
        abs_weight_sum(sobel_y_weights()) == 8,
{
    reveal_with_fuel(weight_sum_prefix, 10);
    reveal_with_fuel(abs_sum_prefix, 10);
}

fn push_row_5(ws: &mut Vec<i32>, a: i32, b: i32, c: i32, d: i32, e: i32)
    ensures
        final(ws)@ == old(ws)@.push(a).push(b).push(c).push(d).push(e),
{
    ws.push(a);
    ws.push(b);
    ws.push(c);
    ws.push(d);
    ws.push(e);
}

fn push_row_3(ws: &mut Vec<i32>, a: i32, b: i32, c: i32)
    ensures
        final(ws)@ == old(ws)@.push(a).push(b).push(c),
{
    ws.push(a);
    ws.push(b);
    ws.push(c);
}

/// Builds the 5x5 Gaussian blur kernel.
pub fn gaussian_kernel() -> (k: Kernel)
    ensures
        k.wf(),
        k.side == 5,
        k.weights@ == gaussian_weights(),
{
    let mut ws: Vec<i32> = Vec::new();
    push_row_5(&mut ws, 1, 4, 7, 4, 1);
    push_row_5(&mut ws, 4, 16, 26, 16, 4);
    push_row_5(&mut ws, 7, 26, 41, 26, 7);
    push_row_5(&mut ws, 4, 16, 26, 16, 4);
    push_row_5(&mut ws, 1, 4, 7, 4, 1);
    proof {
        assert(ws@ =~= gaussian_weights());
    }
    Kernel { side: 5, weights: ws }
}

/// Builds the 3x3 Laplacian sharpen kernel.
pub fn laplacian_kernel() -> (k: Kernel)
    ensures
        k.wf(),
        k.side == 3,
        k.weights@ == laplacian_weights(),
{
    let mut ws: Vec<i32> = Vec::new();
    push_row_3(&mut ws, -1, -1, -1);
    push_row_3(&mut ws, -1, 9, -1);
    push_row_3(&mut ws, -1, -1, -1);
    proof {
        assert(ws@ =~= laplacian_weights());
    }
    Kernel { side: 3, weights: ws }
}

/// Builds the 3x3 Sobel horizontal-gradient kernel.
pub fn sobel_x_kernel() -> (k: Kernel)
    ensures
        k.wf(),
        k.side == 3,
        k.weights@ == sobel_x_weights(),
{
    let mut ws: Vec<i32> = Vec::new();
    push_row_3(&mut ws, -1, 0, 1);
    push_row_3(&mut ws, -2, 0, 2);
    push_row_3(&mut ws, -1, 0, 1);
    proof {
        assert(ws@ =~= sobel_x_weights());
    }
    Kernel { side: 3, weights: ws }
}

/// Builds the 3x3 Sobel vertical-gradient kernel.
pub fn sobel_y_kernel() -> (k: Kernel)
    ensures
        k.wf(),
        k.side == 3,
        k.weights@ == sobel_y_weights(),
{
    let mut ws: Vec<i32> = Vec::new();
    push_row_3(&mut ws, -1, -2, -1);
    push_row_3(&mut ws, 0, 0, 0);
    push_row_3(&mut ws, 1, 2, 1);
    proof {
        assert(ws@ =~= sobel_y_weights());
    }
    Kernel { side: 3, weights: ws }
}

/// Gaussian Blur: the 5x5 binomial kernel, normalized by its sum. Rejects
/// inputs whose width or height is at most 4.
pub fn gaussian_blur(inp: &GrayRaster) -> (r: Result<GrayRaster, SizeError>)
    requires
        inp.wf(),
    ensures
        (r is Ok) <==> (inp.width > 4 && inp.height > 4),
        r is Ok ==> single_conv_matches(
            *inp,
            gaussian_weights(),
            5,
            Normalization::DivideBySum,
            r.unwrap(),
        ),
{
    let k = gaussian_kernel();
    proof {
        lemma_gaussian_weight_sum();
    }
    convolve_single(inp, &k, Normalization::DivideBySum)
}

/// Low-Pass Blur: kept as a separately named output although its kernel and
/// normalization are identical to the Gaussian Blur's — deliberate parity
/// with the two independently named outputs this catalog serves.
pub fn low_pass_blur(inp: &GrayRaster) -> (r: Result<GrayRaster, SizeError>)
    requires
        inp.wf(),
    ensures
        (r is Ok) <==> (inp.width > 4 && inp.height > 4),
        r is Ok ==> single_conv_matches(
            *inp,
            gaussian_weights(),
            5,
            Normalization::DivideBySum,
            r.unwrap(),
        ),
{
    let k = gaussian_kernel();
    proof {
        lemma_gaussian_weight_sum();
    }
    convolve_single(inp, &k, Normalization::DivideBySum)
}

/// Laplacian Sharpen: the 3x3 center-9 kernel, unscaled, clamped. Rejects
/// inputs whose width or height is at most 2.
pub fn laplacian_sharpen(inp: &GrayRaster) -> (r: Result<GrayRaster, SizeError>)
    requires
        inp.wf(),
    ensures
        (r is Ok) <==> (inp.width > 2 && inp.height > 2),
        r is Ok ==> single_conv_matches(
            *inp,
            laplacian_weights(),
            3,
            Normalization::Unscaled,
            r.unwrap(),
        ),
{
    let k = laplacian_kernel();
    convolve_single(inp, &k, Normalization::Unscaled)
}

/// Sobel Edge Magnitude: the pair of 3x3 gradient kernels, combined by
/// Euclidean norm. Rejects inputs whose width or height is at most 2.
pub fn sobel_edges(inp: &GrayRaster) -> (r: Result<GrayRaster, SizeError>)
    requires
        inp.wf(),
    ensures
        (r is Ok) <==> (inp.width > 2 && inp.height > 2),
        r is Ok ==> dual_conv_matches(
            *inp,
            sobel_x_weights(),
            sobel_y_weights(),
            3,
            r.unwrap(),
        ),
{
    let kx = sobel_x_kernel();
    let ky = sobel_y_kernel();
    proof {
        lemma_sobel_weight_sums();
    }
    convolve_dual(inp, &kx, &ky)
}

/// Law: Sobel on a flat input yields 0 at every valid output coordinate —
/// a flat image has zero gradient.
pub proof fn lemma_sobel_flat(inp: GrayRaster, c: u8, ox: int, oy: int)
    requires
        inp.wf(),
        is_flat(inp, c),
        0 <= ox,
        0 <= oy,
        ox + 3 <= inp.width,
        oy + 3 <= inp.height,
    ensures
        dual_value_at(inp, sobel_x_weights(), sobel_y_weights(), 3, ox, oy) == 0,
{
    lemma_sobel_weight_sums();
    crate::convolve::lemma_flat_dual_zero(
        inp,
        sobel_x_weights(),
        sobel_y_weights(),
        3,
        c,
        ox,
        oy,
    );
}

/// Law: the Laplacian sharpen kernel on a flat input of intensity `c`
/// yields `clamp(9c - 8c) = clamp(c) = c` at every valid output coordinate.
pub proof fn lemma_laplacian_flat(inp: GrayRaster, c: u8, ox: int, oy: int)
    requires
        inp.wf(),
        is_flat(inp, c),
        0 <= ox,
        0 <= oy,
        ox + 3 <= inp.width,
        oy + 3 <= inp.height,
    ensures
        single_value_at(inp, laplacian_weights(), 3, Normalization::Unscaled, ox, oy) == c,
{
    lemma_laplacian_weight_sum();
    crate::convolve::lemma_flat_unscaled(inp, laplacian_weights(), 3, c, ox, oy);
}

/// Law: the normalized Gaussian on a flat input of intensity `c` reproduces
/// `c` at every valid output coordinate.
pub proof fn lemma_gaussian_flat(inp: GrayRaster, c: u8, ox: int, oy: int)
    requires
        inp.wf(),
        is_flat(inp, c),
        0 <= ox,
        0 <= oy,
        ox + 5 <= inp.width,
        oy + 5 <= inp.height,
    ensures
        single_value_at(inp, gaussian_weights(), 5, Normalization::DivideBySum, ox, oy) == c,
{
    lemma_gaussian_weight_sum();
    crate::convolve::lemma_flat_normalized(inp, gaussian_weights(), 5, c, ox, oy);
}

} // verus!
