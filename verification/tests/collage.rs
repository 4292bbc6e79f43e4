use launch::collage::{collage_layout, fit_to_cell, grid_shape};
use launch::raster::{ColorKind, Raster};

fn float_grid(n: u32) -> (u32, u32) {
    let cols = (n as f64).sqrt().ceil() as u32;
    let rows = ((n as f64) / cols as f64).ceil() as u32;
    (cols, rows)
}

#[test]
fn grid_is_square_root_rounded_up() {
    assert_eq!(grid_shape(1), (1, 1));
    assert_eq!(grid_shape(2), (2, 1));
    assert_eq!(grid_shape(4), (2, 2));
    assert_eq!(grid_shape(5), (3, 2));
    assert_eq!(grid_shape(10), (4, 3));
    for n in 1..5000 {
        assert_eq!(grid_shape(n), float_grid(n), "n = {}", n);
    }
}

#[test]
fn layout_of_five_images() {
    let layout = collage_layout(5, 100, 200, 10).unwrap();
    assert_eq!((layout.cols, layout.rows), (3, 2));
    assert_eq!(layout.canvas_width, 3 * 100 + 4 * 10);
    assert_eq!(layout.canvas_height, 2 * 200 + 3 * 10);
    assert_eq!(layout.positions, vec![(10, 10), (120, 10), (230, 10), (10, 220), (120, 220)]);
}

#[test]
fn layout_too_large_for_u32_is_refused() {
    assert!(collage_layout(4, u32::MAX / 2, 10, 1).is_none());
    assert!(collage_layout(1, 10, u32::MAX - 1, 1).is_none());
    assert!(collage_layout(1, 10, u32::MAX - 2, 1).is_some());
}

#[test]
fn images_are_fitted_to_the_cell() {
    let img = Raster { width: 2, height: 2, kind: ColorKind::Rgba8, data: (0u8..16).collect() };
    let same = fit_to_cell(&img, 2, 2);
    assert_eq!((same.width, same.height), (2, 2));
    assert_eq!(same.data, img.data);
    let bigger = fit_to_cell(&img, 4, 3);
    assert_eq!((bigger.width, bigger.height), (4, 3));
    assert_eq!(bigger.data.len(), 4 * 3 * 4);
    let flat = Raster { width: 3, height: 3, kind: ColorKind::Rgba8, data: [9u8, 8, 7, 255].repeat(9) };
    let shrunk = fit_to_cell(&flat, 1, 1);
    assert_eq!(shrunk.data, vec![9, 8, 7, 255]);
}
