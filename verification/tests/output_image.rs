use launch::output_image::flatten_rgba_on_white;
use launch::raster::{blend, ColorKind, Raster};
use launch::resize::composite_on_white;

fn float_blend(fg: u8, bg: u8, a: u8) -> u8 {
    let alpha = a as f32 / 255.0;
    ((fg as f32 * alpha) + (bg as f32 * (1.0 - alpha))).round() as u8
}

#[test]
fn flatten_rgba_on_white_removes_alpha() {
    let img = Raster::from_pixel(1, 1, ColorKind::Rgba8, &vec![0, 0, 0, 128]);

    let out = flatten_rgba_on_white(&img);

    assert_eq!(out.get_pixel(0, 0), vec![127, 127, 127]);
    assert_eq!(out.kind, ColorKind::Rgb8);
}

#[test]
fn integer_blend_equals_single_precision_blend_everywhere() {
    for a in 0..=255u8 {
        for fg in 0..=255u8 {
            for bg in 0..=255u8 {
                assert_eq!(blend(fg, bg, a), float_blend(fg, bg, a), "fg {} bg {} a {}", fg, bg, a);
            }
        }
    }
}

#[test]
fn flatten_keeps_opaque_and_whitens_transparent() {
    let data = vec![10, 20, 30, 255, 10, 20, 30, 0, 200, 100, 0, 64];
    let img = Raster { width: 3, height: 1, kind: ColorKind::Rgba8, data };
    let out = flatten_rgba_on_white(&img);
    assert_eq!(out.width, 3);
    assert_eq!(out.height, 1);
    assert_eq!(
        out.data,
        vec![10, 20, 30, 255, 255, 255, float_blend(200, 255, 64), float_blend(100, 255, 64), float_blend(0, 255, 64)]
    );
}

#[test]
fn composite_then_flatten_equals_flatten() {
    let mut data = Vec::new();
    for i in 0..64u32 {
        data.extend_from_slice(&[(i * 7 % 256) as u8, (i * 13 % 256) as u8, (i * 29 % 256) as u8, (i * 4) as u8]);
    }
    let img = Raster { width: 8, height: 8, kind: ColorKind::Rgba8, data };
    let white = composite_on_white(&img);
    for px in white.data.chunks(4) {
        assert_eq!(px[3], 255);
    }
    assert_eq!(flatten_rgba_on_white(&white).data, flatten_rgba_on_white(&img).data);
}
