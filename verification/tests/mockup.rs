use launch::mockup::{compose_from_bytes, fit_plan, has_launch_marker, is_marked_png, load_from_bytes, marker_chunk, MockupError};
use launch::edge_blend::edge_blend;
use launch::mockup::{compose_channel, run};
use launch::raster::{ColorKind, Raster};

fn float_edge(t: u8, s: u8, a: u8) -> u8 {
    let tpl_a = a as f32 / 255.0;
    (t as f32 * tpl_a + s as f32 * (1.0 - tpl_a)) as u8
}

#[test]
fn edge_blend_equals_single_precision_everywhere() {
    for a in 3..=252u8 {
        for t in 0..=255u8 {
            for s in 0..=255u8 {
                assert_eq!(edge_blend(t, s, a), float_edge(t, s, a), "t {} s {} a {}", t, s, a);
            }
        }
    }
}

#[test]
fn frame_alpha_thresholds_match_single_precision() {
    for a in 0..=255u8 {
        let tpl_a = a as f32 / 255.0;
        assert_eq!(tpl_a > 0.99, a >= 253);
        assert_eq!(tpl_a < 0.01, a <= 2);
    }
}

#[test]
fn compose_channel_cases() {
    assert_eq!(compose_channel(7, 255, 0, 99, false), 7);
    assert_eq!(compose_channel(7, 100, 0, 99, false), 0);
    assert_eq!(compose_channel(7, 1, 200, 99, false), 99);
    assert_eq!(compose_channel(7, 100, 200, 99, true), 255);
    assert_eq!(compose_channel(7, 100, 200, 99, false), float_edge(7, 99, 100));
}

#[test]
fn mockup_composes_frame_screen_and_letterbox() {
    let template = Raster {
        width: 3,
        height: 2,
        kind: ColorKind::Rgba8,
        data: vec![
            9, 9, 9, 255, 0, 0, 0, 0, 100, 50, 0, 128, //
            0, 0, 0, 0, 0, 0, 0, 1, 5, 5, 5, 254,
        ],
    };
    let mask = Raster {
        width: 3,
        height: 2,
        kind: ColorKind::Rgba8,
        data: vec![
            0, 0, 0, 0, 0, 0, 0, 255, 0, 0, 0, 255, //
            0, 0, 0, 0, 0, 0, 0, 10, 0, 0, 0, 0,
        ],
    };
    let fitted = Raster { width: 2, height: 1, kind: ColorKind::Rgba8, data: vec![1, 2, 3, 4, 200, 150, 100, 255] };
    let out = run(&fitted, &template, &mask, &vec![(2, 1), (1, 0), (3, 0)]);
    assert_eq!((out.width, out.height, out.kind), (3, 2, ColorKind::Rgba8));
    assert_eq!(out.get_pixel(0, 0), vec![9, 9, 9, 255]);
    assert_eq!(out.get_pixel(1, 0), vec![1, 2, 3, 4]);
    assert_eq!(
        out.get_pixel(2, 0),
        vec![float_edge(100, 200, 128), float_edge(50, 150, 128), float_edge(0, 100, 128), 255]
    );
    assert_eq!(out.get_pixel(0, 1), vec![0, 0, 0, 0]);
    assert_eq!(out.get_pixel(1, 1), vec![0, 0, 0, 255]);
    assert_eq!(out.get_pixel(2, 1), vec![5, 5, 5, 254]);
}

#[test]
fn mockup_marker_and_fit_plan() {
    assert!(has_launch_marker(&vec![("a".to_string(), "b".to_string()), ("launch".to_string(), "mockup".to_string())]));
    assert!(!has_launch_marker(&vec![("launch".to_string(), "other".to_string())]));
    assert!(!has_launch_marker(&vec![]));
    let p = fit_plan("landscape", (1179, 2556));
    assert_eq!((p.width, p.height, p.auto_rotate, p.laptop), (2556, 1179, true, false));
    let p = fit_plan("portrait", (1179, 2556));
    assert_eq!((p.width, p.height, p.auto_rotate, p.laptop), (1179, 2556, true, false));
    let p = fit_plan("front", (2560, 1664));
    assert_eq!((p.width, p.height, p.auto_rotate, p.laptop), (2560, 1664, false, true));
}

#[test]
fn marker_chunk_is_recognised_among_others() {
    let (key, value) = marker_chunk();
    assert_eq!(key, "launch");
    assert_eq!(value, "mockup");
    let chunks = vec![
        ("Software".to_string(), "x".to_string()),
        marker_chunk(),
        ("Comment".to_string(), "y".to_string()),
    ];
    assert!(has_launch_marker(&chunks));
}

fn encode_rgba_png(width: u32, height: u32, data: &[u8], text: Option<(String, String)>) -> Vec<u8> {
    let mut buf: Vec<u8> = Vec::new();
    {
        let mut encoder = png::Encoder::new(&mut buf, width, height);
        encoder.set_color(png::ColorType::Rgba);
        encoder.set_depth(png::BitDepth::Eight);
        if let Some((k, v)) = text {
            encoder.add_text_chunk(k, v).unwrap();
        }
        let mut writer = encoder.write_header().unwrap();
        writer.write_image_data(data).unwrap();
        writer.finish().unwrap();
    }
    buf
}

#[test]
fn embedded_images_decode_to_rgba() {
    let bytes = encode_rgba_png(2, 1, &[1, 2, 3, 4, 5, 6, 7, 8], None);
    let img = load_from_bytes(&bytes).unwrap();
    assert_eq!((img.width, img.height), (2, 1));
    assert!(img.kind == ColorKind::Rgba8);
    assert_eq!(img.data, vec![1, 2, 3, 4, 5, 6, 7, 8]);
    assert_eq!(load_from_bytes(&[0, 1, 2, 3]).unwrap_err(), MockupError::Decode);
}

#[test]
fn compose_from_encoded_frame_matches_run() {
    let template = [10, 20, 30, 255, 0, 0, 0, 0];
    let mask = [0, 0, 0, 0, 0, 0, 0, 255];
    let tpl_png = encode_rgba_png(2, 1, &template, None);
    let mask_png = encode_rgba_png(2, 1, &mask, None);
    let fitted = Raster { width: 1, height: 1, kind: ColorKind::Rgba8, data: vec![7, 8, 9, 255] };
    let coords = vec![(1, 0), (5, 5)];
    let out = compose_from_bytes(&fitted, &tpl_png, &mask_png, &coords).unwrap();
    assert_eq!(out.data, vec![10, 20, 30, 255, 7, 8, 9, 255]);
    let direct = run(
        &fitted,
        &Raster { width: 2, height: 1, kind: ColorKind::Rgba8, data: template.to_vec() },
        &Raster { width: 2, height: 1, kind: ColorKind::Rgba8, data: mask.to_vec() },
        &coords,
    );
    assert_eq!(out.data, direct.data);

    let small_mask = encode_rgba_png(1, 1, &[0, 0, 0, 255], None);
    assert_eq!(compose_from_bytes(&fitted, &tpl_png, &small_mask, &coords).unwrap_err(), MockupError::MaskTooSmall);
    assert_eq!(compose_from_bytes(&fitted, &[1, 2, 3], &mask_png, &coords).unwrap_err(), MockupError::Decode);
    assert_eq!(compose_from_bytes(&fitted, &tpl_png, &[1, 2, 3], &coords).unwrap_err(), MockupError::Decode);
}

#[test]
fn png_marker_is_read_back() {
    let pixels = [1, 2, 3, 4];
    let marked = encode_rgba_png(1, 1, &pixels, Some(marker_chunk()));
    assert!(is_marked_png(&marked));
    let other = encode_rgba_png(1, 1, &pixels, Some(("launch".to_string(), "other".to_string())));
    assert!(!is_marked_png(&other));
    let plain = encode_rgba_png(1, 1, &pixels, None);
    assert!(!is_marked_png(&plain));
    assert!(!is_marked_png(b"not a png"));
}
