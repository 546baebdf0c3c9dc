use raster_filters::convolve::{convolve_single, Kernel, Normalization};
use raster_filters::filters::{gaussian_blur, laplacian_sharpen, low_pass_blur, sobel_edges};
use raster_filters::raster::GrayRaster;

fn flat(width: usize, height: usize, c: u8) -> GrayRaster {
    GrayRaster { width, height, pixels: vec![c; width * height] }
}

fn gray(width: usize, height: usize, pixels: Vec<u8>) -> GrayRaster {
    assert_eq!(pixels.len(), width * height);
    GrayRaster { width, height, pixels }
}

#[test]
fn gaussian_output_dimensions_clipped_by_margin() {
    let out = gaussian_blur(&flat(7, 6, 10)).unwrap();
    assert_eq!(out.width, 3);
    assert_eq!(out.height, 2);
    assert_eq!(out.pixels.len(), 6);
}

#[test]
fn laplacian_and_sobel_output_dimensions_clipped_by_margin() {
    let lap = laplacian_sharpen(&flat(7, 6, 10)).unwrap();
    assert_eq!((lap.width, lap.height), (5, 4));
    let sob = sobel_edges(&flat(7, 6, 10)).unwrap();
    assert_eq!((sob.width, sob.height), (5, 4));
}

#[test]
fn gaussian_flat_preserves_intensity() {
    let out = gaussian_blur(&flat(7, 7, 100)).unwrap();
    assert_eq!((out.width, out.height), (3, 3));
    assert!(out.pixels.iter().all(|&v| v == 100));
}

#[test]
fn low_pass_equals_gaussian() {
    let mut pixels: Vec<u8> = Vec::new();
    for i in 0..48u16 {
        pixels.push((i * 5 % 256) as u8);
    }
    let img = gray(8, 6, pixels);
    let a = gaussian_blur(&img).unwrap();
    let b = low_pass_blur(&img).unwrap();
    assert_eq!(a, b);
}

#[test]
fn laplacian_flat_yields_clamped_intensity() {
    // clamp(9c - 8c) == c on a flat input of intensity c
    let out = laplacian_sharpen(&flat(5, 4, 77)).unwrap();
    assert_eq!((out.width, out.height), (3, 2));
    assert!(out.pixels.iter().all(|&v| v == 77));
}

#[test]
fn sobel_flat_yields_zero() {
    let out = sobel_edges(&flat(6, 5, 128)).unwrap();
    assert_eq!((out.width, out.height), (4, 3));
    assert!(out.pixels.iter().all(|&v| v == 0));
}

#[test]
fn undersized_input_rejected_with_sizing_error() {
    // a 4x4 input fed to the 5x5-kernel filters must be rejected
    assert!(gaussian_blur(&flat(4, 4, 9)).is_err());
    assert!(low_pass_blur(&flat(4, 4, 9)).is_err());
    assert!(gaussian_blur(&flat(10, 4, 9)).is_err());
    assert!(laplacian_sharpen(&flat(2, 2, 9)).is_err());
    assert!(sobel_edges(&flat(2, 9, 9)).is_err());
    // the smallest accepted inputs yield a 1x1 output
    let g = gaussian_blur(&flat(5, 5, 9)).unwrap();
    assert_eq!((g.width, g.height, g.pixels.len()), (1, 1, 1));
    let l = laplacian_sharpen(&flat(3, 3, 9)).unwrap();
    assert_eq!((l.width, l.height, l.pixels.len()), (1, 1, 1));
}

#[test]
fn laplacian_exact_value() {
    // center 10, eight neighbors 1: 9*10 - 8*1 == 82
    let img = gray(3, 3, vec![1, 1, 1, 1, 10, 1, 1, 1, 1]);
    let out = laplacian_sharpen(&img).unwrap();
    assert_eq!(out.pixels, vec![82]);
    // clamping at both ends
    let dark = gray(3, 3, vec![200, 200, 200, 200, 0, 200, 200, 200, 200]);
    assert_eq!(laplacian_sharpen(&dark).unwrap().pixels, vec![0]);
    let bright = gray(3, 3, vec![0, 0, 0, 0, 255, 0, 0, 0, 0]);
    assert_eq!(laplacian_sharpen(&bright).unwrap().pixels, vec![255]);
}

#[test]
fn gaussian_truncates_weighted_sum() {
    // only the center contributes: 41 * 100 / 273 == 15 (truncated)
    let mut pixels = vec![0u8; 25];
    pixels[12] = 100;
    let out = gaussian_blur(&gray(5, 5, pixels)).unwrap();
    assert_eq!(out.pixels, vec![15]);
}

#[test]
fn sobel_exact_values() {
    // right column 3: gx == 12, gy == 0, magnitude 12
    let img = gray(3, 3, vec![0, 0, 3, 0, 0, 3, 0, 0, 3]);
    assert_eq!(sobel_edges(&img).unwrap().pixels, vec![12]);
    // single corner 1: gx == 1, gy == -1, round(sqrt(2)) == 1
    let corner = gray(3, 3, vec![0, 0, 1, 0, 0, 0, 0, 0, 0]);
    assert_eq!(sobel_edges(&corner).unwrap().pixels, vec![1]);
    // steep edge saturates: gx == 1020, magnitude clamps to 255
    let steep = gray(3, 3, vec![0, 0, 255, 0, 0, 255, 0, 0, 255]);
    assert_eq!(sobel_edges(&steep).unwrap().pixels, vec![255]);
}

#[test]
fn identity_kernel_crops_center() {
    // a 3x3 kernel with a single center 1 copies the interior of the input
    let k = Kernel { side: 3, weights: vec![0, 0, 0, 0, 1, 0, 0, 0, 0] };
    let img = gray(4, 3, vec![1, 2, 3, 4, 5, 6, 7, 8, 9, 10, 11, 12]);
    let out = convolve_single(&img, &k, Normalization::Unscaled).unwrap();
    assert_eq!((out.width, out.height), (2, 1));
    assert_eq!(out.pixels, vec![6, 7]);
}
