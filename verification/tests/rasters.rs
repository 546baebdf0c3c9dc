use raster_filters::raster::{luminance, split_channels, Rgba, RgbaRaster};

fn rgba(r: u8, g: u8, b: u8, a: u8) -> Rgba {
    Rgba { r, g, b, a }
}

fn flat_rgba(width: usize, height: usize, p: Rgba) -> RgbaRaster {
    RgbaRaster { width, height, pixels: vec![p; width * height] }
}

#[test]
fn luminance_dimensions_match_input() {
    let img = flat_rgba(3, 2, rgba(10, 20, 30, 255));
    let g = luminance(&img);
    assert_eq!(g.width, 3);
    assert_eq!(g.height, 2);
    assert_eq!(g.pixels.len(), 6);
}

#[test]
fn luminance_formula_exact() {
    let img = RgbaRaster { width: 1, height: 1, pixels: vec![rgba(10, 20, 30, 7)] };
    // (2126 * 10 + 7152 * 20 + 722 * 30) / 10000 == 18
    assert_eq!(luminance(&img).pixels, vec![18]);
    let white = RgbaRaster { width: 1, height: 1, pixels: vec![rgba(255, 255, 255, 0)] };
    assert_eq!(luminance(&white).pixels, vec![255]);
    let black = RgbaRaster { width: 1, height: 1, pixels: vec![rgba(0, 0, 0, 255)] };
    assert_eq!(luminance(&black).pixels, vec![0]);
    let gray = RgbaRaster { width: 1, height: 1, pixels: vec![rgba(128, 128, 128, 255)] };
    assert_eq!(luminance(&gray).pixels, vec![128]);
}

#[test]
fn split_zeroes_other_channels_and_keeps_alpha() {
    let img = RgbaRaster {
        width: 2,
        height: 1,
        pixels: vec![rgba(11, 22, 33, 44), rgba(200, 100, 50, 255)],
    };
    let (red, green, blue) = split_channels(&img);
    assert_eq!(red.width, 2);
    assert_eq!(red.height, 1);
    assert_eq!(red.pixels, vec![rgba(11, 0, 0, 44), rgba(200, 0, 0, 255)]);
    assert_eq!(green.pixels, vec![rgba(0, 22, 0, 44), rgba(0, 100, 0, 255)]);
    assert_eq!(blue.pixels, vec![rgba(0, 0, 33, 44), rgba(0, 0, 50, 255)]);
}

#[test]
fn split_channelwise_sums_reconstruct_at_most_original() {
    let img = RgbaRaster {
        width: 2,
        height: 2,
        pixels: vec![
            rgba(1, 2, 3, 4),
            rgba(255, 255, 255, 255),
            rgba(0, 0, 0, 0),
            rgba(99, 150, 201, 128),
        ],
    };
    let (red, green, blue) = split_channels(&img);
    for i in 0..img.pixels.len() {
        let p = img.pixels[i];
        let sum_r = red.pixels[i].r as u16 + green.pixels[i].r as u16 + blue.pixels[i].r as u16;
        let sum_g = red.pixels[i].g as u16 + green.pixels[i].g as u16 + blue.pixels[i].g as u16;
        let sum_b = red.pixels[i].b as u16 + green.pixels[i].b as u16 + blue.pixels[i].b as u16;
        assert!(sum_r <= p.r as u16);
        assert!(sum_g <= p.g as u16);
        assert!(sum_b <= p.b as u16);
        assert_eq!(sum_r, p.r as u16);
        assert_eq!(sum_g, p.g as u16);
        assert_eq!(sum_b, p.b as u16);
        assert_eq!(red.pixels[i].a, p.a);
        assert_eq!(green.pixels[i].a, p.a);
        assert_eq!(blue.pixels[i].a, p.a);
    }
}
