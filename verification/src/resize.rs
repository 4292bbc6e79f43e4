//! Icon resizing: compositing onto white where a platform needs opaque
//! icons, Lanczos3 resampling, and PNG encoding.

use vstd::prelude::*;
use crate::imaging::{encode_png, lanczos3_resized, png_encoding, resize_exact_lanczos3, rgba8_conversion, to_rgba8};
use crate::output_image::{flatten_on_white, flatten_rgba_on_white};
use crate::raster::{blend, pixel_count, spec_blend, ColorKind, Raster};

verus! {

/// An RGBA buffer composited onto an opaque white background: colour
/// channels blended over 255 with the pixel's alpha, alpha set to 255.
pub open spec fn white_composite(rgba: Seq<u8>) -> Seq<u8> {
    Seq::new(
        rgba.len(),
        |k: int|
            if k % 4 == 3 {
                255u8
            } else {
                spec_blend(rgba[k], 255, rgba[k - k % 4 + 3]) as u8
            },
    )
}

/// The PNG that `resize_icon(img, size, fill_white_bg)` returns, or `None`
/// where the encoder fails.
pub open spec fn icon_png(img: Raster, size: u32, fill_white_bg: bool) -> Option<Seq<u8>> {
    if fill_white_bg {
        let rgba = rgba8_conversion(img.kind.spec_code(), img.width, img.height, img.data@);
        let resized = lanczos3_resized(
            ColorKind::Rgba8.spec_code(),
            img.width,
            img.height,
            white_composite(rgba),
            size,
            size,
        );
        png_encoding(ColorKind::Rgb8.spec_code(), size, size, flatten_on_white(resized))
    } else {
        png_encoding(
            img.kind.spec_code(),
            size,
            size,
            lanczos3_resized(img.kind.spec_code(), img.width, img.height, img.data@, size, size),
        )
    }
}

/// Whether every buffer `resize_icon(img, size, fill_white_bg)` makes has
/// a length that fits in `usize`.
pub open spec fn icon_fits(img: Raster, size: u32, fill_white_bg: bool) -> bool {
    if fill_white_bg {
        &&& pixel_count(img.width, img.height) * 4 <= usize::MAX
        &&& pixel_count(size, size) * 4 <= usize::MAX
    } else {
        pixel_count(size, size) * img.kind.spec_channels() <= usize::MAX
    }
}

/// Why an icon could not be produced.
#[derive(Clone, Copy, PartialEq, Eq, Structural, Debug)]
pub enum IconError {
    /// The PNG encoder refused the `size` by `size` icon.
    Encode { size: u32 },
}

/// Composites an RGBA image onto an opaque white background.
pub fn composite_on_white(img: &Raster) -> (out: Raster)
    requires
        img.wf(),
        img.kind == ColorKind::Rgba8,
    ensures
        out.wf(),
        out.kind == ColorKind::Rgba8,
        out.width == img.width,
        out.height == img.height,
        out.data@ == white_composite(img.data@),
{
    let n = img.data.len() / 4;
    let ghost pc = pixel_count(img.width, img.height);
    proof {
        assert(img.kind.spec_channels() == 4);
        assert(img.data@.len() == pc * 4);
        assert(n == pc);
    }
    let mut data: Vec<u8> = Vec::new();
    let mut i: usize = 0;
    while i < n
        invariant
            img.data@.len() == n * 4,
            i <= n,
            data@.len() == 4 * i,
            forall|k: int| 0 <= k < 4 * i ==> #[trigger] data@[k] == white_composite(img.data@)[k],
        decreases n - i,
    {
        proof {
            assert(4 * i + 3 < img.data.len());
        }
        let base = 4 * i;
        let alpha = img.data[base + 3];
        let r = blend(img.data[base], 255, alpha);
        let g = blend(img.data[base + 1], 255, alpha);
        let b = blend(img.data[base + 2], 255, alpha);
        data.push(r);
        data.push(g);
        data.push(b);
        data.push(255);
        proof {
            let w = white_composite(img.data@);
            assert(w[4 * i] == r) by {
                assert((4 * i) % 4 == 0);
            }
            assert(w[4 * i + 1] == g) by {
                assert((4 * i + 1) % 4 == 1);
            }
            assert(w[4 * i + 2] == b) by {
                assert((4 * i + 2) % 4 == 2);
            }
            assert(w[4 * i + 3] == 255) by {
                assert((4 * i + 3) % 4 == 3);
            }
        }
        i = i + 1;
    }
    let out = Raster { width: img.width, height: img.height, kind: ColorKind::Rgba8, data };
    proof {
        assert(out.data@ =~= white_composite(img.data@));
    }
    out
}

/// Resizes an image to `size` by `size` pixels and encodes it as PNG. With
/// `fill_white_bg` the image is first composited onto white and the result
/// is written without alpha (Apple platforms); otherwise its own layout is kept.
pub fn resize_icon(img: &Raster, size: u32, fill_white_bg: bool) -> (r: Result<Vec<u8>, IconError>)
    requires
        img.wf(),
        icon_fits(*img, size, fill_white_bg),
    ensures
        match icon_png(*img, size, fill_white_bg) {
            Some(png) => r matches Ok(bytes) && bytes@ == png,
            None => r == Err::<Vec<u8>, IconError>(IconError::Encode { size }),
        },
{
    let encoded = if fill_white_bg {
        let rgba = Raster { width: img.width, height: img.height, kind: ColorKind::Rgba8, data: to_rgba8(img) };
        let white = composite_on_white(&rgba);
        let resized = Raster {
            width: size,
            height: size,
            kind: ColorKind::Rgba8,
            data: resize_exact_lanczos3(&white, size, size),
        };
        let flat = flatten_rgba_on_white(&resized);
        encode_png(&flat)
    } else {
        let resized = Raster {
            width: size,
            height: size,
            kind: img.kind,
            data: resize_exact_lanczos3(img, size, size),
        };
        encode_png(&resized)
    };
    match encoded {
        Ok(bytes) => Ok(bytes),
        Err(_) => Err(IconError::Encode { size }),
    }
}

} // verus!

verus! {

/// The distinct entries of `s`, each where it first occurs.
pub open spec fn first_occurrences(s: Seq<(u32, bool)>) -> Seq<(u32, bool)>
    decreases s.len(),
{
    if s.len() == 0 {
        Seq::empty()
    } else {
        let d = first_occurrences(s.drop_last());
        if d.contains(s.last()) {
            d
        } else {
            d.push(s.last())
        }
    }
}

/// One resized icon: its size, whether it was flattened onto white, and its PNG bytes.
#[derive(Clone, Debug)]
pub struct ResizedIcon {
    pub size: u32,
    pub fill_white_bg: bool,
    pub png: Vec<u8>,
}

impl ResizedIcon {
    /// The request this icon answers.
    pub open spec fn key(self) -> (u32, bool) {
        (self.size, self.fill_white_bg)
    }
}

/// Whether some icon in `icons` has the given size and fill.
fn has_icon(icons: &Vec<ResizedIcon>, size: u32, fill_white_bg: bool) -> (b: bool)
    ensures
        b == exists|i: int| 0 <= i < icons@.len() && #[trigger] icons@[i].key() == (size, fill_white_bg),
{
    let mut i: usize = 0;
    while i < icons.len()
        invariant
            i <= icons@.len(),
            forall|j: int| 0 <= j < i ==> #[trigger] icons@[j].key() != (size, fill_white_bg),
        decreases icons.len() - i,
    {
        if icons[i].size == size && icons[i].fill_white_bg == fill_white_bg {
            assert(icons@[i as int].key() == (size, fill_white_bg));
            return true;
        }
        i = i + 1;
    }
    false
}

/// Resizes the image once for each distinct `(size, fill_white_bg)` request,
/// in the order the requests first occur, stopping at the first icon that
/// cannot be encoded.
pub fn resize_all(img: &Raster, sizes: &Vec<(u32, bool)>) -> (r: Result<Vec<ResizedIcon>, IconError>)
    requires
        img.wf(),
        forall|i: int| 0 <= i < sizes@.len() ==> icon_fits(*img, #[trigger] sizes@[i].0, sizes@[i].1),
    ensures
        r is Ok <==> forall|i: int|
            0 <= i < first_occurrences(sizes@).len()
                ==> #[trigger] icon_png(*img, first_occurrences(sizes@)[i].0, first_occurrences(sizes@)[i].1) is Some,
        r matches Ok(icons) ==> {
            &&& icons@.len() == first_occurrences(sizes@).len()
            &&& forall|i: int| 0 <= i < icons@.len() ==> {
                &&& #[trigger] icons@[i].key() == first_occurrences(sizes@)[i]
                &&& icon_png(*img, icons@[i].size, icons@[i].fill_white_bg) == Some(icons@[i].png@)
            }
        },
        r matches Err(IconError::Encode { size }) ==> exists|i: int| {
            &&& 0 <= i < first_occurrences(sizes@).len()
            &&& #[trigger] first_occurrences(sizes@)[i].0 == size
            &&& icon_png(*img, size, first_occurrences(sizes@)[i].1) is None
            &&& forall|j: int| 0 <= j < i ==> icon_png(*img, first_occurrences(sizes@)[j].0, first_occurrences(sizes@)[j].1) is Some
        },
{
    let mut icons: Vec<ResizedIcon> = Vec::new();
    let mut t: usize = 0;
    while t < sizes.len()
        invariant
            img.wf(),
            forall|i: int| 0 <= i < sizes@.len() ==> icon_fits(*img, #[trigger] sizes@[i].0, sizes@[i].1),
            t <= sizes@.len(),
            icons@.len() == first_occurrences(sizes@.take(t as int)).len(),
            forall|i: int| 0 <= i < icons@.len() ==> {
                &&& #[trigger] icons@[i].key() == first_occurrences(sizes@.take(t as int))[i]
                &&& icon_png(*img, icons@[i].size, icons@[i].fill_white_bg) == Some(icons@[i].png@)
            },
        decreases sizes.len() - t,
    {
        let (size, fill) = sizes[t];
        let ghost prev = sizes@.take(t as int);
        let ghost next = sizes@.take(t + 1);
        proof {
            assert(next.drop_last() =~= prev);
            assert(next.last() == (size, fill));
        }
        if !has_icon(&icons, size, fill) {
            proof {
                assert(icon_fits(*img, sizes@[t as int].0, sizes@[t as int].1));
                assert(!first_occurrences(prev).contains((size, fill))) by {
                    if first_occurrences(prev).contains((size, fill)) {
                        let k = choose|k: int| 0 <= k < first_occurrences(prev).len() && first_occurrences(prev)[k] == (size, fill);
                        assert(icons@[k].key() == (size, fill));
                    }
                }
            }
            match resize_icon(img, size, fill) {
                Ok(png) => {
                    let ghost old_icons = icons@;
                    proof {
                        assert(icon_png(*img, size, fill) == Some(png@));
                    }
                    icons.push(ResizedIcon { size, fill_white_bg: fill, png });
                    proof {
                        assert(first_occurrences(next) == first_occurrences(prev).push((size, fill)));
                        assert forall|i: int| 0 <= i < icons@.len() implies {
                            &&& #[trigger] icons@[i].key() == first_occurrences(next)[i]
                            &&& icon_png(*img, icons@[i].size, icons@[i].fill_white_bg) == Some(icons@[i].png@)
                        } by {
                            if i < old_icons.len() {
                                assert(icons@[i] == old_icons[i]);
                            }
                        }
                    }
                }
                Err(e) => {
                    proof {
                        let d = first_occurrences(sizes@);
                        lemma_first_occurrences_prefix(sizes@, t + 1);
                        let i = icons@.len() as int;
                        assert(first_occurrences(next) == first_occurrences(prev).push((size, fill)));
                        assert(d.take(i + 1) == first_occurrences(next));
                        assert(d.take(i + 1)[i] == d[i]);
                        assert(d[i] == (size, fill));
                        assert forall|j: int| 0 <= j < i implies icon_png(*img, #[trigger] d[j].0, d[j].1) is Some by {
                            assert(d.take(i + 1)[j] == d[j]);
                            assert(icons@[j].key() == d[j]);
                        }
                        assert(icon_png(*img, d[i].0, d[i].1) is None);
                        assert(!(forall|j: int| 0 <= j < d.len() ==> #[trigger] icon_png(*img, d[j].0, d[j].1) is Some));
                    }
                    return Err(e);
                }
            }
        } else {
            proof {
                let k = choose|k: int| 0 <= k < icons@.len() && #[trigger] icons@[k].key() == (size, fill);
                assert(first_occurrences(prev)[k] == (size, fill));
                assert(first_occurrences(prev).contains((size, fill)));
                assert(first_occurrences(next) == first_occurrences(prev));
                assert forall|i: int| 0 <= i < icons@.len() implies #[trigger] icons@[i].key() == first_occurrences(next)[i] by {
                }
            }
        }
        proof {
            assert(icons@.len() == first_occurrences(next).len());
        }
        t = t + 1;
    }
    proof {
        assert(sizes@.take(sizes@.len() as int) =~= sizes@);
        let d = first_occurrences(sizes@);
        assert forall|i: int| 0 <= i < d.len() implies #[trigger] icon_png(*img, d[i].0, d[i].1) is Some by {
            assert(icons@[i].key() == d[i]);
        }
    }
    Ok(icons)
}

/// The distinct entries of a prefix of `s` are a prefix of the distinct entries of `s`.
pub proof fn lemma_first_occurrences_prefix(s: Seq<(u32, bool)>, t: int)
    requires
        0 <= t <= s.len(),
    ensures
        first_occurrences(s.take(t)).len() <= first_occurrences(s).len(),
        first_occurrences(s).take(first_occurrences(s.take(t)).len() as int) == first_occurrences(s.take(t)),
    decreases s.len() - t,
{
    if t == s.len() {
        assert(s.take(t) =~= s);
        assert(first_occurrences(s).take(first_occurrences(s).len() as int) =~= first_occurrences(s));
    } else {
        lemma_first_occurrences_prefix(s, t + 1);
        let a = s.take(t);
        let b = s.take(t + 1);
        assert(b.drop_last() =~= a);
        let fa = first_occurrences(a);
        let fb = first_occurrences(b);
        let fs = first_occurrences(s);
        if fa.contains(b.last()) {
            assert(fb == fa);
        } else {
            assert(fb == fa.push(b.last()));
            assert(fs.take(fa.len() as int) =~= fb.take(fa.len() as int));
            assert(fb.take(fa.len() as int) =~= fa);
        }
    }
}

} // verus!

verus! {

/// Opacity 255 keeps the foreground, opacity 0 gives the background.
pub proof fn law_blend_extremes(fg: u8, bg: u8)
    ensures
        spec_blend(fg, bg, 255) == fg,
        spec_blend(fg, bg, 0) == bg,
{
}

/// Compositing onto white and then flattening onto white gives the same
/// colours as flattening directly: a white background only ever shows
/// through once.
pub proof fn law_flatten_after_white_composite(d: Seq<u8>)
    requires
        d.len() % 4 == 0,
    ensures
        flatten_on_white(white_composite(d)) == flatten_on_white(d),
{
    let w = white_composite(d);
    assert forall|k: int| 0 <= k < flatten_on_white(d).len() implies flatten_on_white(w)[k] == flatten_on_white(d)[k] by {
        let j = k / 3;
        let c = k % 3;
        let i = j * 4 + c;
        assert(i % 4 == c);
        assert(i - i % 4 + 3 == j * 4 + 3);
        assert((j * 4 + 3) % 4 == 3);
        assert(w[j * 4 + 3] == 255);
        assert(w[i] == spec_blend(d[i], 255, d[j * 4 + 3]) as u8);
    }
    assert(flatten_on_white(w) =~= flatten_on_white(d));
}

/// The requests kept by `resize_all` are exactly the distinct requests:
/// none twice, each of them once.
pub proof fn law_first_occurrences(s: Seq<(u32, bool)>)
    ensures
        forall|i: int, j: int|
            0 <= i < j < first_occurrences(s).len() ==> first_occurrences(s)[i] != first_occurrences(s)[j],
        forall|x: (u32, bool)| s.contains(x) <==> first_occurrences(s).contains(x),
    decreases s.len(),
{
    if s.len() > 0 {
        let rest = s.drop_last();
        law_first_occurrences(rest);
        let d = first_occurrences(rest);
        let f = first_occurrences(s);
        assert forall|x: (u32, bool)| s.contains(x) implies f.contains(x) by {
            let k = choose|k: int| 0 <= k < s.len() && s[k] == x;
            if k < rest.len() {
                assert(rest[k] == x);
                assert(rest.contains(x));
                assert(d.contains(x));
                let m = choose|m: int| 0 <= m < d.len() && d[m] == x;
                assert(f[m] == x);
            } else {
                assert(x == s.last());
                if !d.contains(x) {
                    assert(f[d.len() as int] == x);
                }
            }
        }
        assert forall|x: (u32, bool)| f.contains(x) implies s.contains(x) by {
            let k = choose|k: int| 0 <= k < f.len() && f[k] == x;
            if k < d.len() {
                assert(d[k] == x);
                assert(d.contains(x));
                assert(rest.contains(x));
                let m = choose|m: int| 0 <= m < rest.len() && rest[m] == x;
                assert(s[m] == x);
            } else {
                assert(x == s.last());
                assert(s[s.len() - 1] == x);
            }
        }
        assert forall|i: int, j: int| 0 <= i < j < f.len() implies f[i] != f[j] by {
            if j == d.len() && !d.contains(s.last()) {
                assert(f[j] == s.last());
                assert(f[i] == d[i]);
            }
        }
    }
}

} // verus!

verus! {

/// Side below which a source image makes blurry icons.
pub const MIN_SOURCE_SIDE: u32 = 1024;

/// What is worth warning about in a source image of `width` by `height`:
/// whether it is not square, and whether it is smaller than 1024 on a side.
pub fn source_image_warnings(width: u32, height: u32) -> (r: (bool, bool))
    ensures
        r.0 == (width != height),
        r.1 == (width < MIN_SOURCE_SIDE || height < MIN_SOURCE_SIDE),
{
    (width != height, width < MIN_SOURCE_SIDE || height < MIN_SOURCE_SIDE)
}

} // verus!

verus! {

/// The distinct `(size, fill_white_bg)` requests, each where it first occurs.
pub fn unique_requests(requests: &Vec<(u32, bool)>) -> (r: Vec<(u32, bool)>)
    ensures
        r@ == first_occurrences(requests@),
{
    let mut r: Vec<(u32, bool)> = Vec::new();
    let mut t: usize = 0;
    proof {
        assert(requests@.take(0) =~= Seq::<(u32, bool)>::empty());
    }
    while t < requests.len()
        invariant
            t <= requests@.len(),
            r@ == first_occurrences(requests@.take(t as int)),
        decreases requests.len() - t,
    {
        let key = requests[t];
        proof {
            assert(requests@.take(t + 1).drop_last() =~= requests@.take(t as int));
            assert(requests@.take(t + 1).last() == key);
        }
        let mut seen = false;
        let mut k: usize = 0;
        while k < r.len()
            invariant
                k <= r@.len(),
                seen == exists|j: int| 0 <= j < k && r@[j] == key,
            decreases r.len() - k,
        {
            if r[k].0 == key.0 && r[k].1 == key.1 {
                seen = true;
            }
            k = k + 1;
        }
        if !seen {
            r.push(key);
        }
        t = t + 1;
    }
    proof {
        assert(requests@.take(requests@.len() as int) =~= requests@);
    }
    r
}

} // verus!

verus! {

/// Blending rounds to the nearest integer: `255 * spec_blend(fg, bg, a)` is
/// within 127 of `fg * a + bg * (255 - a)`, which fixes it, since 255 is odd.
pub proof fn law_blend_rounds_to_nearest(fg: u8, bg: u8, a: u8)
    requires
        a <= 255,
    ensures
        -127 <= 255 * spec_blend(fg, bg, a) - (fg * a + bg * (255 - a)) <= 127,
{
    let n: int = fg * a + bg * (255 - a);
    assert(n >= 0) by (nonlinear_arith)
        requires n == fg * a + bg * (255 - a), a <= 255, fg >= 0, bg >= 0;
    let q = (n + 127) / 255;
    let r = (n + 127) % 255;
    assert(255 * q + r == n + 127 && 0 <= r < 255) by (nonlinear_arith)
        requires q == (n + 127) / 255, r == (n + 127) % 255, n >= 0;
}

/// Compositing onto white, pixel by pixel: every alpha becomes 255 and each
/// colour channel is blended over 255 with the pixel's alpha, so a fully
/// transparent pixel becomes white and an opaque one keeps its colour.
pub proof fn law_white_composite_pixel(d: Seq<u8>, p: int, c: int)
    requires
        d.len() % 4 == 0,
        0 <= p < d.len() / 4,
        0 <= c < 3,
    ensures
        white_composite(d).len() == d.len(),
        white_composite(d)[4 * p + 3] == 255,
        white_composite(d)[4 * p + c] == spec_blend(d[4 * p + c], 255, d[4 * p + 3]),
        d[4 * p + 3] == 0 ==> white_composite(d)[4 * p + c] == 255,
        d[4 * p + 3] == 255 ==> white_composite(d)[4 * p + c] == d[4 * p + c],
{
    assert((4 * p + 3) % 4 == 3);
    assert((4 * p + c) % 4 == c);
    assert(4 * p + c - (4 * p + c) % 4 + 3 == 4 * p + 3);
    let fg = d[4 * p + c];
    let a = d[4 * p + 3];
    assert(0 <= fg * a + 255 * (255 - a) <= 255 * 255) by (nonlinear_arith)
        requires fg <= 255, a <= 255;
    assert(0 <= spec_blend(fg, 255, a) <= 255);
    law_blend_extremes(d[4 * p + c], 255);
}

/// Flattening onto white keeps three channels per pixel, each blended over
/// 255 with the pixel's alpha, so a fully transparent pixel becomes white.
pub proof fn law_flatten_pixel(d: Seq<u8>, p: int, c: int)
    requires
        d.len() % 4 == 0,
        0 <= p < d.len() / 4,
        0 <= c < 3,
    ensures
        flatten_on_white(d).len() == d.len() / 4 * 3,
        flatten_on_white(d)[3 * p + c] == spec_blend(d[4 * p + c], 255, d[4 * p + 3]),
        d[4 * p + 3] == 0 ==> flatten_on_white(d)[3 * p + c] == 255,
{
    assert((3 * p + c) / 3 == p);
    assert((3 * p + c) % 3 == c);
    let fg = d[4 * p + c];
    let a = d[4 * p + 3];
    assert(0 <= fg * a + 255 * (255 - a) <= 255 * 255) by (nonlinear_arith)
        requires fg <= 255, a <= 255;
    assert(0 <= spec_blend(fg, 255, a) <= 255);
    law_blend_extremes(d[4 * p + c], 255);
}

/// The icon pipeline. With `fill_white_bg`, the image is converted to RGBA8,
/// composited onto white, resampled as RGBA8 (layout 3), flattened onto
/// white and encoded as RGB8 (layout 2); otherwise it is resampled and
/// encoded in its own layout.
pub proof fn law_icon_pipeline(img: Raster, size: u32)
    ensures
        icon_png(img, size, true) == png_encoding(
            2,
            size,
            size,
            flatten_on_white(
                lanczos3_resized(
                    3,
                    img.width,
                    img.height,
                    white_composite(rgba8_conversion(img.kind.spec_code(), img.width, img.height, img.data@)),
                    size,
                    size,
                ),
            ),
        ),
        icon_png(img, size, false) == png_encoding(
            img.kind.spec_code(),
            size,
            size,
            lanczos3_resized(img.kind.spec_code(), img.width, img.height, img.data@, size, size),
        ),
        ColorKind::Luma8.spec_code() == 0,
        ColorKind::LumaA8.spec_code() == 1,
        ColorKind::Rgb8.spec_code() == 2,
        ColorKind::Rgba8.spec_code() == 3,
{
}

} // verus!
