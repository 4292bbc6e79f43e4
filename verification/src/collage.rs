//! The grid a collage arranges its images in, and the cell-sized images it
//! places there.

use vstd::prelude::*;
use crate::imaging::{lanczos3_resized, resize_exact_lanczos3};
use crate::raster::{pixel_count, ColorKind, Raster};

verus! {

/// Columns of a collage of `n` images: the least `c` with `c * c >= n`
/// (the square root of `n`, rounded up).
pub open spec fn is_grid_cols(n: nat, c: nat) -> bool {
    &&& c * c >= n
    &&& c == 0 || (c - 1) * (c - 1) < n
}

/// Rows of a collage of `n` images in `cols` columns: `n / cols` rounded up.
pub open spec fn grid_rows(n: nat, cols: nat) -> nat {
    ((n + cols - 1) / cols as int) as nat
}

/// Columns and rows for `n` images: the square root of `n` rounded up, and
/// as many rows as those columns need.
pub fn grid_shape(n: u32) -> (r: (u32, u32))
    requires
        n > 0,
    ensures
        is_grid_cols(n as nat, r.0 as nat),
        r.0 >= 1,
        r.1 == grid_rows(n as nat, r.0 as nat),
        r.1 <= r.0,
        (r.0 as nat) * (r.1 as nat) >= n,
{
    let mut c: u64 = 1;
    loop
        invariant
            1 <= c <= n,
            (c - 1) * (c - 1) < n,
        ensures
            1 <= c <= n,
            (c - 1) * (c - 1) < n,
            c * c >= n,
        decreases n - c,
    {
        proof {
            assert(c * c <= (n as int) * (n as int)) by (nonlinear_arith)
                requires 1 <= c <= n;
            assert((n as int) * (n as int) <= 0xFFFF_FFFF * 0xFFFF_FFFF) by (nonlinear_arith)
                requires n <= 0xFFFF_FFFF;
        }
        if c * c >= n as u64 {
            break;
        }
        proof {
            assert(c < n) by (nonlinear_arith)
                requires c * c < n, c >= 1;
        }
        c = c + 1;
    }
    let cols = c as u32;
    let rr = (n as u64 + c - 1) / c;
    proof {
        assert(rr * c >= n) by (nonlinear_arith)
            requires rr == (n + c - 1) / (c as int), c >= 1;
        assert(rr <= c) by (nonlinear_arith)
            requires rr == (n + c - 1) / (c as int), c >= 1, n <= c * c;
    }
    let rows = rr as u32;
    proof {
        assert((cols as nat) * (rows as nat) >= n) by (nonlinear_arith)
            requires cols == c, rows == rr, rr * c >= n;
    }
    (cols, rows)
}

/// Where a collage puts each image, and how large its canvas is.
#[derive(Debug)]
pub struct CollageLayout {
    pub cols: u32,
    pub rows: u32,
    pub canvas_width: u32,
    pub canvas_height: u32,
    pub positions: Vec<(u32, u32)>,
}

/// Width of a canvas with `cells` cells of `cell` pixels and `padding` around and between them.
pub open spec fn padded_length(cells: nat, cell: nat, padding: nat) -> nat {
    cells * cell + (cells + 1) * padding
}

/// Top-left corner of cell `i` in a grid of `cols` columns.
pub open spec fn cell_position(i: nat, cols: nat, cell_w: nat, cell_h: nat, padding: nat) -> (nat, nat) {
    (
        padding + (i % cols) * (cell_w + padding),
        padding + (i / cols) * (cell_h + padding),
    )
}

/// Lays out `n` images of `cell_w` by `cell_h` pixels on a grid with
/// `padding` pixels around and between them, row by row. `None` when the
/// canvas would be wider or taller than `u32::MAX` pixels.
pub fn collage_layout(n: u32, cell_w: u32, cell_h: u32, padding: u32) -> (r: Option<CollageLayout>)
    requires
        n > 0,
    ensures
        ({
            let (cols, rows) = (grid_cols_of(n), grid_rows(n as nat, grid_cols_of(n) as nat));
            match r {
                None => padded_length(cols as nat, cell_w as nat, padding as nat) > u32::MAX
                    || padded_length(rows, cell_h as nat, padding as nat) > u32::MAX,
                Some(layout) => {
                    &&& padded_length(cols as nat, cell_w as nat, padding as nat) <= u32::MAX
                    &&& padded_length(rows, cell_h as nat, padding as nat) <= u32::MAX
                    &&& layout.cols == cols
                    &&& layout.rows == rows
                    &&& layout.canvas_width == padded_length(cols as nat, cell_w as nat, padding as nat)
                    &&& layout.canvas_height == padded_length(rows, cell_h as nat, padding as nat)
                    &&& layout.positions@.len() == n
                    &&& forall|i: int| 0 <= i < n ==> {
                        let p = #[trigger] layout.positions@[i];
                        (p.0 as nat, p.1 as nat) == cell_position(i as nat, cols as nat, cell_w as nat, cell_h as nat, padding as nat)
                    }
                },
            }
        }),
{
    let (cols, rows) = grid_shape(n);
    proof {
        lemma_grid_cols_unique(n, cols);
    }
    proof {
        assert(cols as u128 * cell_w as u128 <= 0xFFFF_FFFF * 0xFFFF_FFFF) by (nonlinear_arith)
            requires cols <= 0xFFFF_FFFF, cell_w <= 0xFFFF_FFFF;
        assert((cols as u128 + 1) * padding as u128 <= 0x1_0000_0000 * 0xFFFF_FFFF) by (nonlinear_arith)
            requires cols <= 0xFFFF_FFFF, padding <= 0xFFFF_FFFF;
        assert(rows as u128 * cell_h as u128 <= 0xFFFF_FFFF * 0xFFFF_FFFF) by (nonlinear_arith)
            requires rows <= 0xFFFF_FFFF, cell_h <= 0xFFFF_FFFF;
        assert((rows as u128 + 1) * padding as u128 <= 0x1_0000_0000 * 0xFFFF_FFFF) by (nonlinear_arith)
            requires rows <= 0xFFFF_FFFF, padding <= 0xFFFF_FFFF;
    }
    let w = cols as u128 * cell_w as u128 + (cols as u128 + 1) * padding as u128;
    let h = rows as u128 * cell_h as u128 + (rows as u128 + 1) * padding as u128;
    if w > u32::MAX as u128 || h > u32::MAX as u128 {
        return None;
    }
    let mut positions: Vec<(u32, u32)> = Vec::new();
    let mut i: u32 = 0;
    while i < n
        invariant
            cols >= 1,
            rows == grid_rows(n as nat, cols as nat),
            (cols as nat) * (rows as nat) >= n,
            w == padded_length(cols as nat, cell_w as nat, padding as nat),
            h == padded_length(rows as nat, cell_h as nat, padding as nat),
            w <= u32::MAX,
            h <= u32::MAX,
            i <= n,
            positions@.len() == i,
            forall|j: int| 0 <= j < i ==> {
                let p = #[trigger] positions@[j];
                (p.0 as nat, p.1 as nat) == cell_position(j as nat, cols as nat, cell_w as nat, cell_h as nat, padding as nat)
            },
        decreases n - i,
    {
        let col = i % cols;
        let row = i / cols;
        proof {
            assert(row < rows) by (nonlinear_arith)
                requires row == i / cols, i < n, n <= cols * rows, cols >= 1;
            assert(padding + col * (cell_w + padding) <= w) by (nonlinear_arith)
                requires 0 <= col < cols, w == cols * cell_w + (cols + 1) * padding, cell_w >= 0, padding >= 0;
            assert(padding + row * (cell_h + padding) <= h) by (nonlinear_arith)
                requires 0 <= row < rows, h == rows * cell_h + (rows + 1) * padding, cell_h >= 0, padding >= 0;
            assert(col * (cell_w as int + padding as int) <= w) by (nonlinear_arith)
                requires 0 <= col < cols, w == cols * cell_w + (cols + 1) * padding, cell_w >= 0, padding >= 0;
            assert(row * (cell_h as int + padding as int) <= h) by (nonlinear_arith)
                requires 0 <= row < rows, h == rows * cell_h + (rows + 1) * padding, cell_h >= 0, padding >= 0;
        }
        let x = padding as u64 + col as u64 * (cell_w as u64 + padding as u64);
        let y = padding as u64 + row as u64 * (cell_h as u64 + padding as u64);
        positions.push((x as u32, y as u32));
        i = i + 1;
    }
    Some(CollageLayout { cols, rows, canvas_width: w as u32, canvas_height: h as u32, positions })
}

/// The number of columns `grid_shape` picks for `n` images.
pub open spec fn grid_cols_of(n: u32) -> u32 {
    choose|c: u32| is_grid_cols(n as nat, c as nat)
}

/// Only one column count satisfies `is_grid_cols`.
proof fn lemma_grid_cols_unique(n: u32, c: u32)
    requires
        is_grid_cols(n as nat, c as nat),
    ensures
        grid_cols_of(n) == c,
{
    assert(is_grid_cols(n as nat, c as nat));
    let d = grid_cols_of(n);
    assert(is_grid_cols(n as nat, d as nat));
    if d < c {
        assert(d * d <= (c - 1) * (c - 1)) by (nonlinear_arith)
            requires d < c, d >= 0;
    } else if c < d {
        assert(c * c <= (d - 1) * (d - 1)) by (nonlinear_arith)
            requires c < d, c >= 0;
    }
}

} // verus!

verus! {

/// The grid has room for every image: `cols * rows >= n`.
pub proof fn lemma_grid_holds_all(n: nat, cols: nat)
    requires
        cols >= 1,
    ensures
        cols * grid_rows(n, cols) >= n,
{
    let r = grid_rows(n, cols);
    assert(r * cols >= n) by (nonlinear_arith)
        requires r == (n + cols - 1) / (cols as int), cols >= 1;
    assert(cols * r == r * cols) by (nonlinear_arith);
}

/// Each image's cell, with the padding after it, lies inside the canvas.
pub proof fn law_cells_inside_canvas(n: nat, cols: nat, cell_w: nat, cell_h: nat, padding: nat, i: nat)
    requires
        is_grid_cols(n, cols),
        i < n,
    ensures
        cell_position(i, cols, cell_w, cell_h, padding).0 + cell_w + padding <= padded_length(cols, cell_w, padding),
        cell_position(i, cols, cell_w, cell_h, padding).1 + cell_h + padding
            <= padded_length(grid_rows(n, cols), cell_h, padding),
{
    assert(cols >= 1) by (nonlinear_arith)
        requires cols * cols >= n, n > i;
    lemma_grid_holds_all(n, cols);
    let rows = grid_rows(n, cols);
    let col = i % cols;
    let row = i / cols;
    assert(row < rows) by (nonlinear_arith)
        requires row == i / cols, i < n, n <= cols * rows, cols >= 1;
    assert(padding + col * (cell_w + padding) + cell_w + padding <= cols * cell_w + (cols + 1) * padding) by (nonlinear_arith)
        requires col < cols;
    assert(padding + row * (cell_h + padding) + cell_h + padding <= rows * cell_h + (rows + 1) * padding) by (nonlinear_arith)
        requires row < rows;
}

/// Two different images never overlap: their cells are at least a cell and
/// a padding apart, across or down.
pub proof fn law_cells_disjoint(i: nat, j: nat, cols: nat, cell_w: nat, cell_h: nat, padding: nat)
    requires
        cols >= 1,
        i < j,
    ensures
        ({
            let a = cell_position(i, cols, cell_w, cell_h, padding);
            let b = cell_position(j, cols, cell_w, cell_h, padding);
            a.0 + cell_w + padding <= b.0 || b.0 + cell_w + padding <= a.0
                || a.1 + cell_h + padding <= b.1
        }),
{
    let (ci, ri) = (i % cols, i / cols);
    let (cj, rj) = (j % cols, j / cols);
    assert(ri <= rj) by (nonlinear_arith)
        requires ri == i / cols, rj == j / cols, i < j, cols >= 1;
    if ri == rj {
        assert(ci != cj) by (nonlinear_arith)
            requires ri == i / cols, rj == j / cols, ci == i % cols, cj == j % cols,
                ri == rj, i != j, cols >= 1;
        if ci < cj {
            assert(padding + ci * (cell_w + padding) + cell_w + padding <= padding + cj * (cell_w + padding)) by (nonlinear_arith)
                requires ci < cj;
        } else {
            assert(padding + cj * (cell_w + padding) + cell_w + padding <= padding + ci * (cell_w + padding)) by (nonlinear_arith)
                requires cj < ci;
        }
    } else {
        assert(padding + ri * (cell_h + padding) + cell_h + padding <= padding + rj * (cell_h + padding)) by (nonlinear_arith)
            requires ri < rj;
    }
}

} // verus!

verus! {

/// Brings an RGBA image to the collage's cell size: an image of that size is
/// kept as it is, any other is resampled with the Lanczos3 filter.
pub fn fit_to_cell(img: &Raster, cell_w: u32, cell_h: u32) -> (r: Raster)
    requires
        img.wf(),
        img.kind == ColorKind::Rgba8,
        pixel_count(cell_w, cell_h) * 4 <= usize::MAX,
    ensures
        r.wf(),
        r.kind == ColorKind::Rgba8,
        r.width == cell_w,
        r.height == cell_h,
        r.data@ == if img.width == cell_w && img.height == cell_h {
            img.data@
        } else {
            lanczos3_resized(ColorKind::Rgba8.spec_code(), img.width, img.height, img.data@, cell_w, cell_h)
        },
{
    if img.width == cell_w && img.height == cell_h {
        let mut data: Vec<u8> = Vec::new();
        let mut i: usize = 0;
        while i < img.data.len()
            invariant
                i <= img.data@.len(),
                data@ == img.data@.take(i as int),
            decreases img.data.len() - i,
        {
            data.push(img.data[i]);
            proof {
                assert(img.data@.take(i + 1) =~= img.data@.take(i as int).push(img.data@[i as int]));
            }
            i = i + 1;
        }
        proof {
            assert(img.data@.take(img.data@.len() as int) =~= img.data@);
        }
        Raster { width: cell_w, height: cell_h, kind: ColorKind::Rgba8, data }
    } else {
        Raster { width: cell_w, height: cell_h, kind: ColorKind::Rgba8, data: resize_exact_lanczos3(img, cell_w, cell_h) }
    }
}

} // verus!

verus! {

/// Cells are filled row by row: the first at (`padding`, `padding`), the
/// next in a row one cell and one padding to the right, and the cell `cols`
/// places later one cell and one padding further down.
pub proof fn law_cells_row_major(i: nat, cols: nat, cell_w: nat, cell_h: nat, padding: nat)
    requires
        cols >= 1,
    ensures
        cell_position(0, cols, cell_w, cell_h, padding) == (padding, padding),
        (i + 1) % cols != 0 ==> cell_position(i + 1, cols, cell_w, cell_h, padding) == (
            (cell_position(i, cols, cell_w, cell_h, padding).0 + cell_w + padding) as nat,
            cell_position(i, cols, cell_w, cell_h, padding).1,
        ),
        cell_position(i + cols, cols, cell_w, cell_h, padding) == (
            cell_position(i, cols, cell_w, cell_h, padding).0,
            (cell_position(i, cols, cell_w, cell_h, padding).1 + cell_h + padding) as nat,
        ),
{
    assert(0nat % cols == 0 && 0nat / cols == 0) by (nonlinear_arith)
        requires cols >= 1;
    if (i + 1) % cols != 0 {
        assert((i + 1) % cols == i % cols + 1 && (i + 1) / cols == i / cols) by (nonlinear_arith)
            requires (i + 1) % cols != 0, cols >= 1;
        let a = i % cols;
        let k = cell_w + padding;
        assert((a + 1) * k == a * k + k) by (nonlinear_arith);
    }
    assert((i + cols) % cols == i % cols && (i + cols) / cols == i / cols + 1) by (nonlinear_arith)
        requires cols >= 1;
    let b = i / cols;
    let h = cell_h + padding;
    assert((b + 1) * h == b * h + h) by (nonlinear_arith);
}

/// The grid has no spare row: one row fewer could not hold every image.
pub proof fn law_rows_are_fewest(n: nat, cols: nat)
    requires
        cols >= 1,
        n >= 1,
    ensures
        cols * grid_rows(n, cols) >= n,
        cols * (grid_rows(n, cols) - 1) < n,
{
    lemma_grid_holds_all(n, cols);
    let r = grid_rows(n, cols);
    assert(r * cols <= n + cols - 1) by (nonlinear_arith)
        requires r == (n + cols - 1) / (cols as int), cols >= 1, n >= 1;
    assert(cols * (r - 1) == r * cols - cols) by (nonlinear_arith);
}

} // verus!
