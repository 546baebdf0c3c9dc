//! Convolution engine: applies a square integer kernel (or a kernel pair,
//! combined by Euclidean gradient magnitude) to a single-channel raster,
//! producing a border-clipped single-channel raster.

use vstd::prelude::*;
use vstd::arithmetic::div_mod::{
    lemma_div_basics,
    lemma_div_multiples_vanish,
    lemma_fundamental_div_mod,
    lemma_fundamental_div_mod_converse,
};
use crate::clamp_255;
use crate::raster::GrayRaster;

verus! {

/// How a single-kernel weighted sum is scaled before clamping.
#[derive(Clone, Copy, PartialEq, Eq, Structural, Debug)]
pub enum Normalization {
    /// The weighted sum is used as it is.
    Unscaled,
    /// The weighted sum is divided by the sum of the kernel's weights, so a
    /// uniform input is preserved.
    DivideBySum,
}

/// The input raster is too small for the kernel: the clipped output would
/// have zero or negative extent.
#[derive(Clone, Copy, PartialEq, Eq, Structural, Debug)]
pub struct SizeError;

/// A square convolution kernel: odd side length, signed integer weights
/// stored row-major, anchored at the center `(side/2, side/2)`.
pub struct Kernel {
    pub side: usize,
    pub weights: Vec<i32>,
}

impl Kernel {
    /// Shape invariant: odd side of at least 3, one weight per cell. The
    /// upper bound on the side keeps every weighted sum inside `i64`.
    pub open spec fn wf(self) -> bool {
        &&& self.side % 2 == 1
        &&& 3 <= self.side <= 255
        &&& self.weights@.len() == self.side * self.side
    }
}

/// Border width excluded from the output of a kernel with the given side:
/// `(side - 1) / 2`.
pub open spec fn margin_of(side: int) -> int {
    (side - 1) / 2
}

/// Sum of the first `n` weights.
pub open spec fn weight_sum_prefix(ws: Seq<i32>, n: int) -> int
    decreases n,
{
    if n <= 0 {
        0
    } else {
        weight_sum_prefix(ws, n - 1) + ws[n - 1]
    }
}

/// Sum of all weights of a kernel.
pub open spec fn weight_sum(ws: Seq<i32>) -> int {
    weight_sum_prefix(ws, ws.len() as int)
}

/// The absolute value of a mathematical integer.
pub open spec fn abs_of(v: int) -> int {
    if v < 0 {
        -v
    } else {
        v
    }
}

/// Sum of the absolute values of the first `n` weights.
pub open spec fn abs_sum_prefix(ws: Seq<i32>, n: int) -> int
    decreases n,
{
    if n <= 0 {
        0
    } else {
        abs_sum_prefix(ws, n - 1) + abs_of(ws[n - 1] as int)
    }
}

/// Sum of the absolute values of all weights of a kernel.
pub open spec fn abs_weight_sum(ws: Seq<i32>) -> int {
    abs_sum_prefix(ws, ws.len() as int)
}

/// The `i`-th kernel tap applied at the window whose top-left input sample
/// is `(x, y)`: the weight in row `i / side`, column `i % side`, times the
/// input sample under it. Taps are numbered row-major, rows then columns.
pub open spec fn tap(inp: GrayRaster, ws: Seq<i32>, side: int, x: int, y: int, i: int) -> int {
    ws[i] * inp.sample_at(x + i % side, y + i / side)
}

/// Weighted sum of the first `n` taps at the window with top-left `(x, y)`.
pub open spec fn wsum_prefix(
    inp: GrayRaster,
    ws: Seq<i32>,
    side: int,
    x: int,
    y: int,
    n: int,
) -> int
    decreases n,
{
    if n <= 0 {
        0
    } else {
        wsum_prefix(inp, ws, side, x, y, n - 1) + tap(inp, ws, side, x, y, n - 1)
    }
}

/// The full weighted sum of the `side x side` window with top-left `(x, y)`,
/// taken in row-major tap order.
pub open spec fn weighted_sum(inp: GrayRaster, ws: Seq<i32>, side: int, x: int, y: int) -> int {
    wsum_prefix(inp, ws, side, x, y, side * side)
}

proof fn lemma_abs_sum_prefix_bounds(ws: Seq<i32>, n: int)
    requires
        0 <= n <= ws.len(),
    ensures
        0 <= abs_sum_prefix(ws, n) <= n * 0x8000_0000,
    decreases n,
{
    if n > 0 {
        lemma_abs_sum_prefix_bounds(ws, n - 1);
        assert((n - 1) * 0x8000_0000 + 0x8000_0000 == n * 0x8000_0000) by (nonlinear_arith);
    }
}

proof fn lemma_wsum_prefix_bounds(inp: GrayRaster, ws: Seq<i32>, side: int, x: int, y: int, n: int)
    requires
        0 <= n <= ws.len(),
    ensures
        -255 * abs_sum_prefix(ws, n) <= wsum_prefix(inp, ws, side, x, y, n) <= 255 * abs_sum_prefix(
            ws,
            n,
        ),
    decreases n,
{
    if n > 0 {
        lemma_wsum_prefix_bounds(inp, ws, side, x, y, n - 1);
        let w = ws[n - 1] as int;
        let a = abs_of(w);
        let s = inp.sample_at(x + (n - 1) % side, y + (n - 1) / side) as int;
        assert(-a * 255 <= w * s <= a * 255) by (nonlinear_arith)
            requires
                -a <= w <= a,
                0 <= a,
                0 <= s <= 255,
        ;
    }
}

/// Integer square root, rounded down.
pub open spec fn isqrt(n: nat) -> nat
    decreases n,
{
    if n == 0 {
        0
    } else {
        let r = isqrt((n - 1) as nat);
        if (r + 1) * (r + 1) <= n {
            r + 1
        } else {
            r
        }
    }
}

/// Integer square root rounded to the nearest integer. A square root of an
/// integer is never exactly half-way between two integers, so the rounding
/// is unambiguous: round up exactly when `n > isqrt(n) * (isqrt(n) + 1)`.
pub open spec fn rounded_sqrt(n: nat) -> nat {
    let s = isqrt(n);
    if n > s * (s + 1) {
        s + 1
    } else {
        s
    }
}

proof fn lemma_isqrt_bounds(n: nat)
    ensures
        isqrt(n) * isqrt(n) <= n,
        n < (isqrt(n) + 1) * (isqrt(n) + 1),
    decreases n,
{
    if n == 0 {
        assert(isqrt(n) == 0);
        assert(isqrt(n) * isqrt(n) <= n) by (nonlinear_arith)
            requires
                isqrt(n) == 0,
                n == 0,
        ;
        assert(n < (isqrt(n) + 1) * (isqrt(n) + 1)) by (nonlinear_arith)
            requires
                isqrt(n) == 0,
                n == 0,
        ;
    } else {
        lemma_isqrt_bounds((n - 1) as nat);
        let r = isqrt((n - 1) as nat);
        if (r + 1) * (r + 1) <= n {
            assert(isqrt(n) == r + 1);
            assert(n <= (r + 1) * (r + 1));
            assert((r + 1) * (r + 1) < (r + 2) * (r + 2)) by (nonlinear_arith);
            assert(isqrt(n) * isqrt(n) <= n) by (nonlinear_arith)
                requires
                    isqrt(n) == r + 1,
                    (r + 1) * (r + 1) <= n,
            ;
            assert(n < (isqrt(n) + 1) * (isqrt(n) + 1)) by (nonlinear_arith)
                requires
                    isqrt(n) == r + 1,
                    n <= (r + 1) * (r + 1),
                    (r + 1) * (r + 1) < (r + 2) * (r + 2),
            ;
        } else {
            assert(isqrt(n) == r);
            assert(isqrt(n) * isqrt(n) <= n) by (nonlinear_arith)
                requires
                    isqrt(n) == r,
                    r * r <= n - 1,
            ;
            assert(n < (isqrt(n) + 1) * (isqrt(n) + 1)) by (nonlinear_arith)
                requires
                    isqrt(n) == r,
                    !((r + 1) * (r + 1) <= n),
            ;
        }
    }
}

proof fn lemma_isqrt_unique(n: nat, r: nat)
    requires
        r * r <= n,
        n < (r + 1) * (r + 1),
    ensures
        r == isqrt(n),
{
    lemma_isqrt_bounds(n);
    let s = isqrt(n);
    if r < s {
        assert((r + 1) * (r + 1) <= s * s) by (nonlinear_arith)
            requires
                r + 1 <= s,
        ;
    }
    if s < r {
        assert((s + 1) * (s + 1) <= r * r) by (nonlinear_arith)
            requires
                s + 1 <= r,
        ;
    }
}

/// Integer square root of `n`, rounded down.
fn isqrt_exec(n: u64) -> (r: u64)
    requires
        n < 0x8000_0000_0000_0000,
    ensures
        r == isqrt(n as nat),
{
    let mut r: u64 = 0;
    loop
        invariant
            n < 0x8000_0000_0000_0000,
            r * r <= n,
            r <= n,
            r <= 3037000499,
        ensures
            r * r <= n < (r + 1) * (r + 1),
        decreases n - r,
    {
        proof {
            assert((r + 1) * (r + 1) <= 0xffff_ffff_ffff_ffff) by (nonlinear_arith)
                requires
                    r <= 3037000499,
            ;
        }
        let next: u64 = (r + 1) * (r + 1);
        if next > n {
            break ;
        }
        proof {
            assert(r + 1 <= 3037000499 && r + 1 <= n) by (nonlinear_arith)
                requires
                    (r + 1) * (r + 1) <= n < 0x8000_0000_0000_0000,
            ;
        }
        r = r + 1;
    }
    proof {
        lemma_isqrt_unique(n as nat, r as nat);
    }
    r
}

/// Integer square root of `n`, rounded to the nearest integer.
fn rounded_sqrt_exec(n: u64) -> (r: u64)
    requires
        n < 0x8000_0000_0000_0000,
    ensures
        r == rounded_sqrt(n as nat),
{
    let s = isqrt_exec(n);
    proof {
        lemma_isqrt_bounds(n as nat);
        assert(s <= 3037000499) by (nonlinear_arith)
            requires
                s * s <= n < 0x8000_0000_0000_0000,
        ;
        assert(s * (s + 1) <= 0xffff_ffff_ffff_ffff) by (nonlinear_arith)
            requires
                s <= 3037000499,
        ;
    }
    if n > s * (s + 1) {
        s + 1
    } else {
        s
    }
}

/// Sum of all weights of a kernel, computed left to right.
fn kernel_weight_sum(ker: &Kernel) -> (s: i64)
    requires
        ker.wf(),
    ensures
        s == weight_sum(ker.weights@),
{
    let n: usize = ker.weights.len();
    proof {
        assert(ker.side * ker.side <= 0x10000) by (nonlinear_arith)
            requires
                ker.side <= 255,
        ;
    }
    let mut acc: i64 = 0;
    let mut i: usize = 0;
    while i < n
        invariant
            n == ker.weights@.len(),
            n <= 0x10000,
            i <= n,
            acc == weight_sum_prefix(ker.weights@, i as int),
            -(i as int) * 0x8000_0000 <= acc <= (i as int) * 0x8000_0000,
        decreases n - i,
    {
        let w: i32 = ker.weights[i];
        acc = acc + (w as i64);
        i = i + 1;
    }
    acc
}

/// The weighted sum of the kernel window whose top-left input sample is
/// `(x, y)`, accumulated tap by tap in row-major order.
fn weighted_sum_at(inp: &GrayRaster, ker: &Kernel, x: usize, y: usize) -> (s: i64)
    requires
        inp.wf(),
        ker.wf(),
        x + ker.side <= inp.width,
        y + ker.side <= inp.height,
    ensures
        s == weighted_sum(*inp, ker.weights@, ker.side as int, x as int, y as int),
        -255 * abs_weight_sum(ker.weights@) <= s <= 255 * abs_weight_sum(ker.weights@),
{
    let side: usize = ker.side;
    proof {
        assert(side * side <= 0x10000) by (nonlinear_arith)
            requires
                side <= 255,
        ;
    }
    let count: usize = side * side;
    let len: usize = inp.pixels.len();
    let mut acc: i64 = 0;
    let mut i: usize = 0;
    while i < count
        invariant
            inp.wf(),
            ker.wf(),
            side == ker.side,
            count == side * side,
            count <= 0x10000,
            len == inp.pixels@.len(),
            x + side <= inp.width,
            y + side <= inp.height,
            i <= count,
            acc == wsum_prefix(*inp, ker.weights@, side as int, x as int, y as int, i as int),
            -255 * abs_sum_prefix(ker.weights@, i as int) <= acc <= 255 * abs_sum_prefix(
                ker.weights@,
                i as int,
            ),
        decreases count - i,
    {
        proof {
            assert(i / side < side && i % side < side) by (nonlinear_arith)
                requires
                    i < side * side,
                    0 < side,
            ;
        }
        let ky: usize = i / side;
        let kx: usize = i % side;
        let px: usize = x + kx;
        let py: usize = y + ky;
        proof {
            assert(py * inp.width + px < inp.width * inp.height) by (nonlinear_arith)
                requires
                    px < inp.width,
                    py < inp.height,
            ;
        }
        let idx: usize = py * inp.width + px;
        let pv: u8 = inp.pixels[idx];
        let w: i32 = ker.weights[i];
        proof {
            let a = abs_of(w as int);
            assert(-a * 255 <= (w as int) * (pv as int) <= a * 255) by (nonlinear_arith)
                requires
                    -a <= w as int <= a,
                    0 <= a,
                    0 <= pv as int <= 255,
            ;
            lemma_abs_sum_prefix_bounds(ker.weights@, i as int + 1);
        }
        let t: i64 = (w as i64) * (pv as i64);
        acc = acc + t;
        i = i + 1;
    }
    proof {
        lemma_abs_sum_prefix_bounds(ker.weights@, count as int);
    }
    acc
}

/// The divisor a normalization rule applies to a weighted sum.
pub open spec fn divisor_of(ws: Seq<i32>, norm: Normalization) -> int {
    match norm {
        Normalization::Unscaled => 1,
        Normalization::DivideBySum => weight_sum(ws),
    }
}

/// The output sample of single-kernel convolution at output coordinate
/// `(ox, oy)`: the weighted sum of the window with top-left `(ox, oy)`,
/// scaled by the normalization divisor (truncated) and clamped to `[0, 255]`.
pub open spec fn single_value_at(
    inp: GrayRaster,
    ws: Seq<i32>,
    side: int,
    norm: Normalization,
    ox: int,
    oy: int,
) -> u8 {
    clamp_255(weighted_sum(inp, ws, side, ox, oy) / divisor_of(ws, norm))
}

/// The output sample of dual-kernel convolution at output coordinate
/// `(ox, oy)`: the two unscaled weighted sums `gx` and `gy`, combined as
/// `sqrt(gx*gx + gy*gy)` rounded to the nearest integer, clamped to 255.
pub open spec fn dual_value_at(
    inp: GrayRaster,
    wsx: Seq<i32>,
    wsy: Seq<i32>,
    side: int,
    ox: int,
    oy: int,
) -> u8 {
    let gx = weighted_sum(inp, wsx, side, ox, oy);
    let gy = weighted_sum(inp, wsy, side, ox, oy);
    clamp_255(rounded_sqrt((gx * gx + gy * gy) as nat) as int)
}

/// `out` is the single-kernel convolution of `inp`: clipped dimensions and
/// every output sample as `single_value_at` gives it.
pub open spec fn single_conv_matches(
    inp: GrayRaster,
    ws: Seq<i32>,
    side: int,
    norm: Normalization,
    out: GrayRaster,
) -> bool {
    &&& out.wf()
    &&& out.width == inp.width - 2 * margin_of(side)
    &&& out.height == inp.height - 2 * margin_of(side)
    &&& forall|ox: int, oy: int|
        0 <= ox < out.width && 0 <= oy < out.height ==> #[trigger] out.sample_at(ox, oy)
            == single_value_at(inp, ws, side, norm, ox, oy)
}

/// `out` is the dual-kernel convolution of `inp`: clipped dimensions and
/// every output sample as `dual_value_at` gives it.
pub open spec fn dual_conv_matches(
    inp: GrayRaster,
    wsx: Seq<i32>,
    wsy: Seq<i32>,
    side: int,
    out: GrayRaster,
) -> bool {
    &&& out.wf()
    &&& out.width == inp.width - 2 * margin_of(side)
    &&& out.height == inp.height - 2 * margin_of(side)
    &&& forall|ox: int, oy: int|
        0 <= ox < out.width && 0 <= oy < out.height ==> #[trigger] out.sample_at(ox, oy)
            == dual_value_at(inp, wsx, wsy, side, ox, oy)
}

proof fn lemma_wsum_prefix_same(
    a: GrayRaster,
    b: GrayRaster,
    ws: Seq<i32>,
    side: int,
    x: int,
    y: int,
    n: int,
)
    requires
        crate::raster::same_gray(a, b),
    ensures
        wsum_prefix(a, ws, side, x, y, n) == wsum_prefix(b, ws, side, x, y, n),
    decreases n,
{
    if n > 0 {
        lemma_wsum_prefix_same(a, b, ws, side, x, y, n - 1);
    }
}

/// Single-kernel output samples depend on the input raster only through its
/// dimensions and pixels.
pub proof fn lemma_single_value_same(
    a: GrayRaster,
    b: GrayRaster,
    ws: Seq<i32>,
    side: int,
    norm: Normalization,
    ox: int,
    oy: int,
)
    requires
        crate::raster::same_gray(a, b),
    ensures
        single_value_at(a, ws, side, norm, ox, oy) == single_value_at(b, ws, side, norm, ox, oy),
{
    lemma_wsum_prefix_same(a, b, ws, side, ox, oy, side * side);
}

/// Dual-kernel output samples depend on the input raster only through its
/// dimensions and pixels.
pub proof fn lemma_dual_value_same(
    a: GrayRaster,
    b: GrayRaster,
    wsx: Seq<i32>,
    wsy: Seq<i32>,
    side: int,
    ox: int,
    oy: int,
)
    requires
        crate::raster::same_gray(a, b),
    ensures
        dual_value_at(a, wsx, wsy, side, ox, oy) == dual_value_at(b, wsx, wsy, side, ox, oy),
{
    lemma_wsum_prefix_same(a, b, wsx, side, ox, oy, side * side);
    lemma_wsum_prefix_same(a, b, wsy, side, ox, oy, side * side);
}

/// A single-channel raster is flat when every sample holds the intensity `c`.
pub open spec fn is_flat(g: GrayRaster, c: u8) -> bool {
    forall|i: int| 0 <= i < g.pixels@.len() ==> g.pixels@[i] == c
}

proof fn lemma_wsum_prefix_flat(
    inp: GrayRaster,
    ws: Seq<i32>,
    side: int,
    c: u8,
    x: int,
    y: int,
    n: int,
)
    requires
        inp.wf(),
        is_flat(inp, c),
        0 < side,
        0 <= x,
        0 <= y,
        x + side <= inp.width,
        y + side <= inp.height,
        0 <= n <= side * side,
    ensures
        wsum_prefix(inp, ws, side, x, y, n) == weight_sum_prefix(ws, n) * c,
    decreases n,
{
    if n <= 0 {
        assert(weight_sum_prefix(ws, n) * c == 0) by (nonlinear_arith)
            requires
                weight_sum_prefix(ws, n) == 0,
        ;
    } else {
        lemma_wsum_prefix_flat(inp, ws, side, c, x, y, n - 1);
        let i = n - 1;
        assert(i / side < side && i % side < side && 0 <= i / side && 0 <= i % side)
            by (nonlinear_arith)
            requires
                0 <= i < side * side,
                0 < side,
        ;
        let sx = x + i % side;
        let sy = y + i / side;
        assert(0 <= sy * inp.width + sx < inp.width * inp.height) by (nonlinear_arith)
            requires
                0 <= sx < inp.width,
                0 <= sy < inp.height,
        ;
        assert(inp.sample_at(sx, sy) == c);
        let w = ws[i] as int;
        assert((weight_sum_prefix(ws, i) + w) * c == weight_sum_prefix(ws, i) * c + w * c)
            by (nonlinear_arith);
    }
}

/// Law: on a flat input of intensity `c`, a kernel normalized by its
/// (positive) weight sum reproduces `c` at every valid output coordinate.
pub proof fn lemma_flat_normalized(
    inp: GrayRaster,
    ws: Seq<i32>,
    side: int,
    c: u8,
    ox: int,
    oy: int,
)
    requires
        inp.wf(),
        is_flat(inp, c),
        0 < side,
        ws.len() == side * side,
        weight_sum(ws) > 0,
        0 <= ox,
        0 <= oy,
        ox + side <= inp.width,
        oy + side <= inp.height,
    ensures
        single_value_at(inp, ws, side, Normalization::DivideBySum, ox, oy) == c,
{
    lemma_wsum_prefix_flat(inp, ws, side, c, ox, oy, side * side);
    lemma_div_multiples_vanish(c as int, weight_sum(ws));
}

/// Law: on a flat input of intensity `c`, an unscaled kernel yields the
/// clamped product of `c` and the kernel's weight sum, at every valid
/// output coordinate.
pub proof fn lemma_flat_unscaled(
    inp: GrayRaster,
    ws: Seq<i32>,
    side: int,
    c: u8,
    ox: int,
    oy: int,
)
    requires
        inp.wf(),
        is_flat(inp, c),
        0 < side,
        ws.len() == side * side,
        0 <= ox,
        0 <= oy,
        ox + side <= inp.width,
        oy + side <= inp.height,
    ensures
        single_value_at(inp, ws, side, Normalization::Unscaled, ox, oy) == clamp_255(
            weight_sum(ws) * c,
        ),
{
    lemma_wsum_prefix_flat(inp, ws, side, c, ox, oy, side * side);
    lemma_div_basics(weight_sum(ws) * c);
}

/// Law: on a flat input, a dual-kernel filter whose two kernels' weights
/// each sum to zero yields zero everywhere — a flat image has no gradient.
pub proof fn lemma_flat_dual_zero(
    inp: GrayRaster,
    wsx: Seq<i32>,
    wsy: Seq<i32>,
    side: int,
    c: u8,
    ox: int,
    oy: int,
)
    requires
        inp.wf(),
        is_flat(inp, c),
        0 < side,
        wsx.len() == side * side,
        wsy.len() == side * side,
        weight_sum(wsx) == 0,
        weight_sum(wsy) == 0,
        0 <= ox,
        0 <= oy,
        ox + side <= inp.width,
        oy + side <= inp.height,
    ensures
        dual_value_at(inp, wsx, wsy, side, ox, oy) == 0,
{
    lemma_wsum_prefix_flat(inp, wsx, side, c, ox, oy, side * side);
    lemma_wsum_prefix_flat(inp, wsy, side, c, ox, oy, side * side);
    let gx = weighted_sum(inp, wsx, side, ox, oy);
    let gy = weighted_sum(inp, wsy, side, ox, oy);
    assert(gx == 0 && gy == 0) by (nonlinear_arith)
        requires
            gx == weight_sum(wsx) * c,
            gy == weight_sum(wsy) * c,
            weight_sum(wsx) == 0,
            weight_sum(wsy) == 0,
    ;
    assert(isqrt(0) == 0);
    assert(rounded_sqrt((gx * gx + gy * gy) as nat) == 0);
}

/// Applies one kernel to a single-channel raster: true border clipping (the
/// output is smaller than the input by twice the margin in each dimension),
/// each output sample the scaled, clamped weighted sum of its window.
/// Rejects inputs whose clipped output would have zero or negative extent.
pub fn convolve_single(inp: &GrayRaster, ker: &Kernel, norm: Normalization) -> (r: Result<
    GrayRaster,
    SizeError,
>)
    requires
        inp.wf(),
        ker.wf(),
        norm == Normalization::DivideBySum ==> weight_sum(ker.weights@) > 0,
    ensures
        (r is Ok) <==> (inp.width > 2 * margin_of(ker.side as int) && inp.height > 2 * margin_of(
            ker.side as int,
        )),
        r is Ok ==> single_conv_matches(
            *inp,
            ker.weights@,
            ker.side as int,
            norm,
            r.unwrap(),
        ),
{
    let side: usize = ker.side;
    let margin: usize = (side - 1) / 2;
    proof {
        lemma_fundamental_div_mod(side - 1, 2);
    }
    if inp.width <= 2 * margin || inp.height <= 2 * margin {
        return Err(SizeError);
    }
    let out_w: usize = inp.width - 2 * margin;
    let out_h: usize = inp.height - 2 * margin;
    let divisor: i64 = match norm {
        Normalization::Unscaled => 1,
        Normalization::DivideBySum => kernel_weight_sum(ker),
    };
    let mut pixels: Vec<u8> = Vec::new();
    let mut oy: usize = 0;
    while oy < out_h
        invariant
            inp.wf(),
            ker.wf(),
            side == ker.side,
            2 * margin == side - 1,
            0 < out_w,
            0 < out_h,
            out_w == inp.width - 2 * margin,
            out_h == inp.height - 2 * margin,
            divisor == divisor_of(ker.weights@, norm),
            divisor > 0,
            oy <= out_h,
            pixels@.len() == oy * out_w,
            forall|j: int|
                0 <= j < pixels@.len() ==> #[trigger] pixels@[j] == single_value_at(
                    *inp,
                    ker.weights@,
                    side as int,
                    norm,
                    j % (out_w as int),
                    j / (out_w as int),
                ),
        decreases out_h - oy,
    {
        let mut ox: usize = 0;
        while ox < out_w
            invariant
                inp.wf(),
                ker.wf(),
                side == ker.side,
                2 * margin == side - 1,
                0 < out_w,
                0 < out_h,
                out_w == inp.width - 2 * margin,
                out_h == inp.height - 2 * margin,
                divisor == divisor_of(ker.weights@, norm),
                divisor > 0,
                oy < out_h,
                ox <= out_w,
                pixels@.len() == oy * out_w + ox,
                forall|j: int|
                    0 <= j < pixels@.len() ==> #[trigger] pixels@[j] == single_value_at(
                        *inp,
                        ker.weights@,
                        side as int,
                        norm,
                        j % (out_w as int),
                        j / (out_w as int),
                    ),
            decreases out_w - ox,
        {
            proof {
                assert(oy * out_w + ox + 1 <= out_h * out_w) by (nonlinear_arith)
                    requires
                        oy < out_h,
                        ox < out_w,
                ;
            }
            let s: i64 = weighted_sum_at(inp, ker, ox, oy);
            let ghost sv = weighted_sum(*inp, ker.weights@, side as int, ox as int, oy as int);
            let v: u8;
            if s <= 0 {
                v = 0;
                proof {
                    lemma_div_basics(divisor as int);
                    if s < 0 {
                        lemma_fundamental_div_mod(sv, divisor as int);
                        assert(sv / (divisor as int) < 0) by (nonlinear_arith)
                            requires
                                sv < 0,
                                divisor > 0,
                                sv == (divisor as int) * (sv / (divisor as int)) + (sv % (
                                divisor as int)),
                                0 <= sv % (divisor as int) < divisor as int,
                        ;
                    }
                    assert(v == single_value_at(
                        *inp,
                        ker.weights@,
                        side as int,
                        norm,
                        ox as int,
                        oy as int,
                    ));
                }
            } else {
                let q: u64 = (s as u64) / (divisor as u64);
                if q > 255 {
                    v = 255;
                } else {
                    v = q as u8;
                }
                proof {
                    assert(q == sv / (divisor as int));
                    assert(sv / (divisor as int) >= 0) by (nonlinear_arith)
                        requires
                            sv > 0,
                            divisor > 0,
                            q == sv / (divisor as int),
                            q >= 0,
                    ;
                    assert(v == single_value_at(
                        *inp,
                        ker.weights@,
                        side as int,
                        norm,
                        ox as int,
                        oy as int,
                    ));
                }
            }
            pixels.push(v);
            proof {
                lemma_fundamental_div_mod_converse(
                    oy * out_w + ox,
                    out_w as int,
                    oy as int,
                    ox as int,
                );
            }
            ox = ox + 1;
        }
        proof {
            assert((oy + 1) * out_w == oy * out_w + out_w) by (nonlinear_arith);
        }
        oy = oy + 1;
    }
    let out = GrayRaster { width: out_w, height: out_h, pixels };
    proof {
        assert(out_h * out_w == out_w * out_h) by (nonlinear_arith);
        assert forall|ox: int, oy: int| 0 <= ox < out.width && 0 <= oy < out.height implies (
        #[trigger] out.sample_at(ox, oy)) == single_value_at(
            *inp,
            ker.weights@,
            side as int,
            norm,
            ox,
            oy,
        ) by {
            let j = oy * (out_w as int) + ox;
            assert(0 <= j && j + 1 <= out_h * out_w) by (nonlinear_arith)
                requires
                    0 <= oy < out_h,
                    0 <= ox < out_w,
                    j == oy * (out_w as int) + ox,
            ;
            lemma_fundamental_div_mod_converse(j, out_w as int, oy, ox);
        }
    }
    Ok(out)
}

/// Applies a pair of same-shaped kernels to a single-channel raster,
/// combining the two weighted sums of every window by Euclidean magnitude:
/// `min(255, round(sqrt(gx*gx + gy*gy)))`. Border clipping and rejection of
/// undersized inputs as in `convolve_single`. The bound on the kernels'
/// absolute weight sums keeps `gx*gx + gy*gy` inside `i64`.
pub fn convolve_dual(inp: &GrayRaster, ker_x: &Kernel, ker_y: &Kernel) -> (r: Result<
    GrayRaster,
    SizeError,
>)
    requires
        inp.wf(),
        ker_x.wf(),
        ker_y.wf(),
        ker_x.side == ker_y.side,
        255 * abs_weight_sum(ker_x.weights@) <= 0x7fff_ffff,
        255 * abs_weight_sum(ker_y.weights@) <= 0x7fff_ffff,
    ensures
        (r is Ok) <==> (inp.width > 2 * margin_of(ker_x.side as int) && inp.height > 2 * margin_of(
            ker_x.side as int,
        )),
        r is Ok ==> dual_conv_matches(
            *inp,
            ker_x.weights@,
            ker_y.weights@,
            ker_x.side as int,
            r.unwrap(),
        ),
{
    let side: usize = ker_x.side;
    let margin: usize = (side - 1) / 2;
    proof {
        lemma_fundamental_div_mod(side - 1, 2);
    }
    if inp.width <= 2 * margin || inp.height <= 2 * margin {
        return Err(SizeError);
    }
    let out_w: usize = inp.width - 2 * margin;
    let out_h: usize = inp.height - 2 * margin;
    let mut pixels: Vec<u8> = Vec::new();
    let mut oy: usize = 0;
    while oy < out_h
        invariant
            inp.wf(),
            ker_x.wf(),
            ker_y.wf(),
            side == ker_x.side,
            side == ker_y.side,
            2 * margin == side - 1,
            0 < out_w,
            0 < out_h,
            out_w == inp.width - 2 * margin,
            out_h == inp.height - 2 * margin,
            255 * abs_weight_sum(ker_x.weights@) <= 0x7fff_ffff,
            255 * abs_weight_sum(ker_y.weights@) <= 0x7fff_ffff,
            oy <= out_h,
            pixels@.len() == oy * out_w,
            forall|j: int|
                0 <= j < pixels@.len() ==> #[trigger] pixels@[j] == dual_value_at(
                    *inp,
                    ker_x.weights@,
                    ker_y.weights@,
                    side as int,
                    j % (out_w as int),
                    j / (out_w as int),
                ),
        decreases out_h - oy,
    {
        let mut ox: usize = 0;
        while ox < out_w
            invariant
                inp.wf(),
                ker_x.wf(),
                ker_y.wf(),
                side == ker_x.side,
                side == ker_y.side,
                2 * margin == side - 1,
                0 < out_w,
                0 < out_h,
                out_w == inp.width - 2 * margin,
                out_h == inp.height - 2 * margin,
                255 * abs_weight_sum(ker_x.weights@) <= 0x7fff_ffff,
                255 * abs_weight_sum(ker_y.weights@) <= 0x7fff_ffff,
                oy < out_h,
                ox <= out_w,
                pixels@.len() == oy * out_w + ox,
                forall|j: int|
                    0 <= j < pixels@.len() ==> #[trigger] pixels@[j] == dual_value_at(
                        *inp,
                        ker_x.weights@,
                        ker_y.weights@,
                        side as int,
                        j % (out_w as int),
                        j / (out_w as int),
                    ),
            decreases out_w - ox,
        {
            proof {
                assert(oy * out_w + ox + 1 <= out_h * out_w) by (nonlinear_arith)
                    requires
                        oy < out_h,
                        ox < out_w,
                ;
            }
            let gx: i64 = weighted_sum_at(inp, ker_x, ox, oy);
            let gy: i64 = weighted_sum_at(inp, ker_y, ox, oy);
            proof {
                assert(gx * gx + gy * gy < 0x8000_0000_0000_0000 && 0 <= gx * gx && 0 <= gy * gy)
                    by (nonlinear_arith)
                    requires
                        -0x7fff_ffff <= gx <= 0x7fff_ffff,
                        -0x7fff_ffff <= gy <= 0x7fff_ffff,
                ;
            }
            let mag_sq: i64 = gx * gx + gy * gy;
            let rs: u64 = rounded_sqrt_exec(mag_sq as u64);
            let v: u8 = if rs > 255 {
                255
            } else {
                rs as u8
            };
            proof {
                assert(v == dual_value_at(
                    *inp,
                    ker_x.weights@,
                    ker_y.weights@,
                    side as int,
                    ox as int,
                    oy as int,
                ));
            }
            pixels.push(v);
            proof {
                lemma_fundamental_div_mod_converse(
                    oy * out_w + ox,
                    out_w as int,
                    oy as int,
                    ox as int,
                );
            }
            ox = ox + 1;
        }
        proof {
            assert((oy + 1) * out_w == oy * out_w + out_w) by (nonlinear_arith);
        }
        oy = oy + 1;
    }
    let out = GrayRaster { width: out_w, height: out_h, pixels };
    proof {
        assert(out_h * out_w == out_w * out_h) by (nonlinear_arith);
        assert forall|ox: int, oy: int| 0 <= ox < out.width && 0 <= oy < out.height implies (
        #[trigger] out.sample_at(ox, oy)) == dual_value_at(
            *inp,
            ker_x.weights@,
            ker_y.weights@,
            side as int,
            ox,
            oy,
        ) by {
            let j = oy * (out_w as int) + ox;
            assert(0 <= j && j + 1 <= out_h * out_w) by (nonlinear_arith)
                requires
                    0 <= oy < out_h,
                    0 <= ox < out_w,
                    j == oy * (out_w as int) + ox,
            ;
            lemma_fundamental_div_mod_converse(j, out_w as int, oy, ox);
        }
    }
    Ok(out)
}

} // verus!
