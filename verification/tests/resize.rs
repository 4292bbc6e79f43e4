use launch::resize::{source_image_warnings, unique_requests};
use launch::raster::{ColorKind, Raster};
use launch::resize::{resize_all, resize_icon, ResizedIcon};
use std::io::Cursor;

fn decode(bytes: &[u8]) -> (png::ColorType, u32, u32, Vec<u8>) {
    let decoder = png::Decoder::new(Cursor::new(bytes.to_vec()));
    let mut reader = decoder.read_info().unwrap();
    let mut buf = vec![0; reader.output_buffer_size()];
    let info = reader.next_frame(&mut buf).unwrap();
    buf.truncate(info.buffer_size());
    (info.color_type, info.width, info.height, buf)
}

#[test]
fn fill_white_icons_encode_as_rgb_png() {
    let img = Raster::from_pixel(2, 2, ColorKind::Rgba8, &vec![255, 0, 0, 128]);

    let bytes = resize_icon(&img, 2, true).unwrap();
    let decoder = png::Decoder::new(Cursor::new(bytes));
    let reader = decoder.read_info().unwrap();

    assert_eq!(reader.info().color_type, png::ColorType::Rgb);
}

#[test]
fn same_size_icon_keeps_pixels() {
    let data: Vec<u8> = (0..16u8).map(|v| v * 16).collect();
    let img = Raster { width: 2, height: 2, kind: ColorKind::Rgba8, data: data.clone() };
    let (color, w, h, pixels) = decode(&resize_icon(&img, 2, false).unwrap());
    assert_eq!(color, png::ColorType::Rgba);
    assert_eq!((w, h), (2, 2));
    assert_eq!(pixels, data);
}

#[test]
fn fill_white_icon_blends_onto_white() {
    let img = Raster::from_pixel(2, 2, ColorKind::Rgba8, &vec![255, 0, 0, 128]);
    let (_, w, h, pixels) = decode(&resize_icon(&img, 2, true).unwrap());
    assert_eq!((w, h), (2, 2));
    assert_eq!(pixels, [255, 127, 127].repeat(4));
}

#[test]
fn resized_icon_has_requested_size_and_layout() {
    let img = Raster::from_pixel(4, 4, ColorKind::Rgb8, &vec![10, 200, 30]);
    let (color, w, h, pixels) = decode(&resize_icon(&img, 3, false).unwrap());
    assert_eq!(color, png::ColorType::Rgb);
    assert_eq!((w, h), (3, 3));
    assert_eq!(pixels, [10, 200, 30].repeat(9));
    let gray = Raster::from_pixel(5, 5, ColorKind::Luma8, &vec![99]);
    let (color, w, h, _) = decode(&resize_icon(&gray, 2, true).unwrap());
    assert_eq!(color, png::ColorType::Rgb);
    assert_eq!((w, h), (2, 2));
}

#[test]
fn zero_sized_icon_is_an_encode_error() {
    let img = Raster::from_pixel(2, 2, ColorKind::Rgba8, &vec![1, 2, 3, 4]);
    assert!(resize_icon(&img, 0, false).is_err());
}

#[test]
fn resize_all_keeps_first_occurrences_once() {
    let img = Raster::from_pixel(4, 4, ColorKind::Rgba8, &vec![0, 0, 255, 255]);
    let sizes = vec![(2, true), (3, false), (2, true), (2, false), (3, false)];
    let icons: Vec<ResizedIcon> = resize_all(&img, &sizes).unwrap();
    let keys: Vec<(u32, bool)> = icons.iter().map(|i| (i.size, i.fill_white_bg)).collect();
    assert_eq!(keys, vec![(2, true), (3, false), (2, false)]);
    for icon in &icons {
        assert_eq!(icon.png, resize_icon(&img, icon.size, icon.fill_white_bg).unwrap());
    }
    assert!(resize_all(&img, &vec![(2, true), (0, false)]).is_err());
}

#[test]
fn unique_requests_and_source_warnings() {
    assert_eq!(unique_requests(&vec![(16, true), (32, false), (16, true), (16, false)]), vec![(16, true), (32, false), (16, false)]);
    assert!(unique_requests(&vec![]).is_empty());
    assert_eq!(source_image_warnings(1024, 1024), (false, false));
    assert_eq!(source_image_warnings(1024, 512), (true, true));
    assert_eq!(source_image_warnings(2048, 2000), (true, false));
}
