use raster_filters::pipeline::create_images_with_channels;
use raster_filters::raster::Rgba;

fn flat_png(width: u32, height: u32, rgba: [u8; 4]) -> Vec<u8> {
    let img = image::RgbaImage::from_pixel(width, height, image::Rgba(rgba));
    let mut bytes: Vec<u8> = Vec::new();
    img.write_to(&mut std::io::Cursor::new(&mut bytes), image::ImageFormat::Png).unwrap();
    bytes
}

#[test]
fn end_to_end_flat_gray() {
    // 10x10 flat gray (128) RGBA with full alpha
    let bytes = flat_png(10, 10, [128, 128, 128, 255]);
    let out = create_images_with_channels(&bytes).unwrap();

    assert_eq!((out.original.width, out.original.height), (10, 10));
    assert!(out.original.pixels.iter().all(|p| *p == Rgba { r: 128, g: 128, b: 128, a: 255 }));

    assert_eq!((out.red.width, out.red.height), (10, 10));
    assert!(out.red.pixels.iter().all(|p| *p == Rgba { r: 128, g: 0, b: 0, a: 255 }));
    assert!(out.green.pixels.iter().all(|p| *p == Rgba { r: 0, g: 128, b: 0, a: 255 }));
    assert!(out.blue.pixels.iter().all(|p| *p == Rgba { r: 0, g: 0, b: 128, a: 255 }));

    assert_eq!((out.grayscale.width, out.grayscale.height), (10, 10));
    assert!(out.grayscale.pixels.iter().all(|&v| v == 128));

    assert_eq!((out.gaussian.width, out.gaussian.height), (6, 6));
    assert!(out.gaussian.pixels.iter().all(|&v| v == 128));
    assert_eq!((out.low_pass.width, out.low_pass.height), (6, 6));
    assert!(out.low_pass.pixels.iter().all(|&v| v == 128));

    assert_eq!((out.laplacian.width, out.laplacian.height), (8, 8));
    assert!(out.laplacian.pixels.iter().all(|&v| v == 128));

    assert_eq!((out.sobel.width, out.sobel.height), (8, 8));
    assert!(out.sobel.pixels.iter().all(|&v| v == 0));
}

#[test]
fn pipeline_is_idempotent_on_identical_bytes() {
    let mut img = image::RgbaImage::new(9, 7);
    for (x, y, p) in img.enumerate_pixels_mut() {
        let v = ((x * 37 + y * 91) % 256) as u8;
        *p = image::Rgba([v, v.wrapping_add(40), v.wrapping_mul(3), 255]);
    }
    let mut bytes: Vec<u8> = Vec::new();
    img.write_to(&mut std::io::Cursor::new(&mut bytes), image::ImageFormat::Png).unwrap();

    let first = create_images_with_channels(&bytes).unwrap();
    let second = create_images_with_channels(&bytes).unwrap();
    assert_eq!(first, second);
}

#[test]
fn decode_failure_reports_absence() {
    assert!(create_images_with_channels(&[0u8, 1, 2, 3, 4, 5]).is_none());
    assert!(create_images_with_channels(&[]).is_none());
}

#[test]
fn undersized_decoded_image_reports_absence() {
    let bytes = flat_png(4, 4, [10, 20, 30, 255]);
    assert!(create_images_with_channels(&bytes).is_none());
    let wide = flat_png(10, 3, [10, 20, 30, 255]);
    assert!(create_images_with_channels(&wide).is_none());
    let ok = flat_png(5, 5, [10, 20, 30, 255]);
    assert!(create_images_with_channels(&ok).is_some());
}
