//! Device mockups: a screenshot, already fitted to the device's display,
//! shown through a device frame template and its screen mask.

use vstd::prelude::*;
use crate::edge_blend::{edge_blend, edge_channel};
use crate::imaging::{decode_rgba8, decoded_rgba8, png_text_chunks, png_text_chunks_of};
use crate::naming::spells;
use crate::raster::{pixel_count, rgba_at, rgba_index, ColorKind, Raster};
use crate::text::{chars_of, string_of};

verus! {

/// A frame alpha from which the frame hides everything under it
/// (`alpha / 255 > 0.99` in single precision).
pub const OPAQUE_FRAME_ALPHA: u8 = 253;

/// The highest frame alpha at which the frame is not drawn at all
/// (`alpha / 255 < 0.01` in single precision).
pub const CLEAR_FRAME_ALPHA: u8 = 2;

/// One channel of a mockup pixel: frame channel `tpl_c` with frame alpha
/// `tpl_a`, screen mask alpha `mask_a`, screenshot channel `scr_c`.
/// An opaque frame shows itself; inside the screen a clear frame shows the
/// screenshot and a semi-transparent one is blended over it onto an opaque
/// pixel; outside the device everything is transparent.
pub open spec fn composed_value(tpl_c: u8, tpl_a: u8, mask_a: u8, scr_c: u8, is_alpha: bool) -> u8 {
    if tpl_a >= OPAQUE_FRAME_ALPHA {
        tpl_c
    } else if mask_a > 0 {
        if tpl_a <= CLEAR_FRAME_ALPHA {
            scr_c
        } else if is_alpha {
            255
        } else {
            edge_channel(tpl_c, scr_c, tpl_a) as u8
        }
    } else {
        0
    }
}

/// One channel of a mockup pixel, as `composed_value` describes it.
pub fn compose_channel(tpl_c: u8, tpl_a: u8, mask_a: u8, scr_c: u8, is_alpha: bool) -> (r: u8)
    ensures
        r == composed_value(tpl_c, tpl_a, mask_a, scr_c, is_alpha),
{
    if tpl_a >= OPAQUE_FRAME_ALPHA {
        tpl_c
    } else if mask_a > 0 {
        if tpl_a <= CLEAR_FRAME_ALPHA {
            scr_c
        } else if is_alpha {
            255
        } else {
            edge_blend(tpl_c, scr_c, tpl_a)
        }
    } else {
        0
    }
}

/// Channel `c` of the screenshot at column `sx`, row `sy`; opaque black
/// outside it (the letterbox).
pub open spec fn screen_channel(fitted: Raster, sx: int, sy: int, c: int) -> u8 {
    if 0 <= sx < fitted.width && 0 <= sy < fitted.height {
        rgba_at(fitted.data@, fitted.width as int, sx, sy, c)
    } else if c == 3 {
        255
    } else {
        0
    }
}

/// The least first coordinate among `coords`.
pub open spec fn min_x(coords: Seq<(u32, u32)>) -> u32
    decreases coords.len(),
{
    if coords.len() <= 1 {
        coords[0].0
    } else {
        let m = min_x(coords.drop_last());
        if coords.last().0 < m { coords.last().0 } else { m }
    }
}

/// The least second coordinate among `coords`.
pub open spec fn min_y(coords: Seq<(u32, u32)>) -> u32
    decreases coords.len(),
{
    if coords.len() <= 1 {
        coords[0].1
    } else {
        let m = min_y(coords.drop_last());
        if coords.last().1 < m { coords.last().1 } else { m }
    }
}

/// Channel `c` of the mockup pixel at column `x`, row `y`, for a frame with
/// RGBA pixels `tpl` (`tw` wide) and a mask with RGBA pixels `mask` (`mw`
/// wide), with the screenshot's top-left corner at (`ox`, `oy`) in the frame.
pub open spec fn frame_channel(
    fitted: Raster,
    tpl: Seq<u8>,
    tw: int,
    mask: Seq<u8>,
    mw: int,
    ox: int,
    oy: int,
    x: int,
    y: int,
    c: int,
) -> u8 {
    composed_value(
        rgba_at(tpl, tw, x, y, c),
        rgba_at(tpl, tw, x, y, 3),
        rgba_at(mask, mw, x, y, 3),
        screen_channel(fitted, x - ox, y - oy, c),
        c == 3,
    )
}

/// Channel `c` of the mockup pixel at column `x`, row `y`, with the
/// screenshot's top-left corner at (`ox`, `oy`) in the frame.
pub open spec fn mockup_channel(
    fitted: Raster,
    template: Raster,
    mask: Raster,
    ox: int,
    oy: int,
    x: int,
    y: int,
    c: int,
) -> u8 {
    frame_channel(fitted, template.data@, template.width as int, mask.data@, mask.width as int, ox, oy, x, y, c)
}

/// The least corner coordinates of the screen area.
fn screen_origin(coords: &Vec<(u32, u32)>) -> (r: (u32, u32))
    requires
        coords@.len() > 0,
    ensures
        r.0 == min_x(coords@),
        r.1 == min_y(coords@),
{
    let mut mx = coords[0].0;
    let mut my = coords[0].1;
    let mut i: usize = 1;
    proof {
        assert(coords@.take(1).len() == 1);
    }
    while i < coords.len()
        invariant
            1 <= i <= coords@.len(),
            mx == min_x(coords@.take(i as int)),
            my == min_y(coords@.take(i as int)),
        decreases coords.len() - i,
    {
        proof {
            assert(coords@.take(i + 1).drop_last() =~= coords@.take(i as int));
        }
        if coords[i].0 < mx {
            mx = coords[i].0;
        }
        if coords[i].1 < my {
            my = coords[i].1;
        }
        i = i + 1;
    }
    proof {
        assert(coords@.take(coords@.len() as int) =~= coords@);
    }
    (mx, my)
}

/// Pixels before column `x` of row `y`, row by row, start before it.
proof fn lemma_row_major_before(xx: int, yy: int, x: int, y: int, w: int)
    requires
        0 <= xx < w,
        0 <= yy,
        yy < y || (yy == y && xx < x),
        0 <= x,
    ensures
        yy * w + xx < y * w + x,
{
    if yy < y {
        assert(yy * w + xx < y * w + x) by (nonlinear_arith)
            requires yy < y, xx < w, 0 <= x, 0 <= xx;
    }
}

/// Composes a mockup: the frame `template`, its screen `mask` (at least as
/// large), and the screenshot `fitted` to the display, whose top-left corner
/// goes to the least corner of `screen_coord`. The result has the frame's size.
pub fn run(fitted: &Raster, template: &Raster, mask: &Raster, screen_coord: &Vec<(u32, u32)>) -> (out: Raster)
    requires
        fitted.wf(),
        template.wf(),
        mask.wf(),
        fitted.kind == ColorKind::Rgba8,
        template.kind == ColorKind::Rgba8,
        mask.kind == ColorKind::Rgba8,
        mask.width >= template.width,
        mask.height >= template.height,
        screen_coord@.len() > 0,
    ensures
        out.wf(),
        out.kind == ColorKind::Rgba8,
        out.width == template.width,
        out.height == template.height,
        forall|x: int, y: int, c: int|
            0 <= x < template.width && 0 <= y < template.height && 0 <= c < 4
                ==> #[trigger] rgba_at(out.data@, out.width as int, x, y, c) == mockup_channel(
                    *fitted,
                    *template,
                    *mask,
                    min_x(screen_coord@) as int,
                    min_y(screen_coord@) as int,
                    x,
                    y,
                    c,
                ),
{
    let (ox, oy) = screen_origin(screen_coord);
    let tw = template.width;
    let th = template.height;
    let tlen = template.data.len();
    let mlen = mask.data.len();
    let flen = fitted.data.len();
    proof {
        assert(fitted.kind.spec_channels() == 4);
        assert(template.kind.spec_channels() == 4);
        assert(mask.kind.spec_channels() == 4);
        assert(pixel_count(tw, th) <= pixel_count(mask.width, mask.height)) by (nonlinear_arith)
            requires tw <= mask.width, th <= mask.height;
        assert(pixel_count(tw, th) * 4 == tlen);
        assert(pixel_count(mask.width, mask.height) * 4 == mlen);
        assert(pixel_count(fitted.width, fitted.height) * 4 == flen);
    }
    let mut data: Vec<u8> = Vec::new();
    let mut y: u32 = 0;
    while y < th
        invariant
            fitted.wf(),
            template.wf(),
            mask.wf(),
            fitted.kind == ColorKind::Rgba8,
            template.kind == ColorKind::Rgba8,
            mask.kind == ColorKind::Rgba8,
            mask.width >= tw,
            mask.height >= th,
            pixel_count(tw, th) * 4 <= usize::MAX,
            pixel_count(mask.width, mask.height) * 4 <= usize::MAX,
            pixel_count(fitted.width, fitted.height) * 4 <= usize::MAX,
            tw == template.width,
            th == template.height,
            ox == min_x(screen_coord@),
            oy == min_y(screen_coord@),
            y <= th,
            data@.len() == (y * tw) * 4,
            forall|xx: int, yy: int, c: int|
                0 <= xx < tw && 0 <= yy < y && 0 <= c < 4
                    ==> #[trigger] rgba_at(data@, tw as int, xx, yy, c)
                        == mockup_channel(*fitted, *template, *mask, ox as int, oy as int, xx, yy, c),
        decreases th - y,
    {
        let mut x: u32 = 0;
        while x < tw
            invariant
                fitted.wf(),
                template.wf(),
                mask.wf(),
                fitted.kind == ColorKind::Rgba8,
                template.kind == ColorKind::Rgba8,
                mask.kind == ColorKind::Rgba8,
                mask.width >= tw,
                mask.height >= th,
                pixel_count(tw, th) * 4 <= usize::MAX,
                pixel_count(mask.width, mask.height) * 4 <= usize::MAX,
                pixel_count(fitted.width, fitted.height) * 4 <= usize::MAX,
                ox == min_x(screen_coord@),
                oy == min_y(screen_coord@),
                tw == template.width,
                th == template.height,
                y < th,
                x <= tw,
                data@.len() == (y * tw + x) * 4,
                forall|xx: int, yy: int, c: int|
                    0 <= xx < tw && 0 <= yy && (yy < y || (yy == y && xx < x)) && 0 <= c < 4
                        ==> #[trigger] rgba_at(data@, tw as int, xx, yy, c)
                            == mockup_channel(*fitted, *template, *mask, ox as int, oy as int, xx, yy, c),
            decreases tw - x,
        {
            let ti = rgba_index(x, y, tw, th);
            let mi = rgba_index(x, y, mask.width, mask.height);
            let tpl_a = template.data[ti + 3];
            let mask_a = mask.data[mi + 3];
            let sx = x as i64 - ox as i64;
            let sy = y as i64 - oy as i64;
            let inside = sx >= 0 && sy >= 0 && sx < fitted.width as i64 && sy < fitted.height as i64;
            let ghost old_data = data@;
            let mut c: usize = 0;
            while c < 4
                invariant
                    fitted.wf(),
                    template.wf(),
                    mask.wf(),
                    fitted.kind == ColorKind::Rgba8,
                    template.kind == ColorKind::Rgba8,
                    mask.kind == ColorKind::Rgba8,
                    pixel_count(fitted.width, fitted.height) * 4 <= usize::MAX,
                    tw == template.width,
                    th == template.height,
                    x < tw,
                    y < th,
                    ti == (y * tw + x) * 4,
                    ti + 4 <= template.data@.len(),
                    mi == (y * mask.width + x) * 4,
                    mi + 4 <= mask.data@.len(),
                    tpl_a == rgba_at(template.data@, tw as int, x as int, y as int, 3),
                    mask_a == rgba_at(mask.data@, mask.width as int, x as int, y as int, 3),
                    sx == x - ox,
                    sy == y - oy,
                    inside == (0 <= sx < fitted.width && 0 <= sy < fitted.height),
                    c <= 4,
                    data@.len() == old_data.len() + c,
                    old_data.len() == (y * tw + x) * 4,
                    forall|k: int| 0 <= k < old_data.len() ==> data@[k] == old_data[k],
                    forall|k: int| 0 <= k < c ==> #[trigger] data@[old_data.len() + k]
                        == mockup_channel(*fitted, *template, *mask, ox as int, oy as int, x as int, y as int, k),
                decreases 4 - c,
            {
                let scr_c = if inside {
                    let fi = rgba_index(sx as u32, sy as u32, fitted.width, fitted.height);
                    fitted.data[fi + c]
                } else if c == 3 {
                    255
                } else {
                    0
                };
                let v = compose_channel(template.data[ti + c], tpl_a, mask_a, scr_c, c == 3);
                data.push(v);
                c = c + 1;
            }
            proof {
                assert forall|xx: int, yy: int, k: int|
                    0 <= xx < tw && 0 <= yy && (yy < y || (yy == y && xx < x + 1)) && 0 <= k < 4
                        implies #[trigger] rgba_at(data@, tw as int, xx, yy, k)
                            == mockup_channel(*fitted, *template, *mask, ox as int, oy as int, xx, yy, k) by {
                    if yy == y && xx == x {
                        assert((yy * tw + xx) * 4 + k == old_data.len() + k);
                    } else {
                        lemma_row_major_before(xx, yy, x as int, y as int, tw as int);
                        assert((yy * tw + xx) * 4 + k < old_data.len()) by (nonlinear_arith)
                            requires yy * tw + xx < y * tw + x, 0 <= k < 4, old_data.len() == (y * tw + x) * 4;
                        assert(rgba_at(data@, tw as int, xx, yy, k) == rgba_at(old_data, tw as int, xx, yy, k));
                    }
                }
            }
            x = x + 1;
        }
        proof {
            assert((y * tw + tw) * 4 == ((y + 1) * tw) * 4) by (nonlinear_arith);
        }
        y = y + 1;
    }
    let out = Raster { width: tw, height: th, kind: ColorKind::Rgba8, data };
    proof {
        assert((th * tw) * 4 == pixel_count(tw, th) * 4) by (nonlinear_arith);
    }
    out
}

} // verus!

verus! {

/// How a mockup pixel is chosen: an opaque frame pixel is kept; outside the
/// screen mask a non-opaque frame pixel becomes transparent; inside it a
/// clear frame shows the screenshot (opaque black beyond the screenshot's
/// edges), and a semi-transparent frame pixel becomes an opaque blend.
pub proof fn law_mockup_pixel(
    fitted: Raster,
    template: Raster,
    mask: Raster,
    ox: int,
    oy: int,
    x: int,
    y: int,
    c: int,
)
    requires
        0 <= c < 4,
    ensures
        ({
            let ta = rgba_at(template.data@, template.width as int, x, y, 3);
            let ma = rgba_at(mask.data@, mask.width as int, x, y, 3);
            let v = mockup_channel(fitted, template, mask, ox, oy, x, y, c);
            let sx = x - ox;
            let sy = y - oy;
            &&& ta >= OPAQUE_FRAME_ALPHA ==> v == rgba_at(template.data@, template.width as int, x, y, c)
            &&& ta < OPAQUE_FRAME_ALPHA && ma == 0 ==> v == 0
            &&& ta <= CLEAR_FRAME_ALPHA && ma > 0 && 0 <= sx < fitted.width && 0 <= sy < fitted.height
                ==> v == rgba_at(fitted.data@, fitted.width as int, sx, sy, c)
            &&& ta <= CLEAR_FRAME_ALPHA && ma > 0 && !(0 <= sx < fitted.width && 0 <= sy < fitted.height)
                ==> v == (if c == 3 { 255u8 } else { 0u8 })
            &&& CLEAR_FRAME_ALPHA < ta < OPAQUE_FRAME_ALPHA && ma > 0 && c == 3 ==> v == 255
        }),
{
}

} // verus!

verus! {

/// Keyword of the PNG text chunk that marks a finished mockup.
pub open spec fn marker_key() -> Seq<char> {
    seq!['l', 'a', 'u', 'n', 'c', 'h']
}

/// Text of the PNG text chunk that marks a finished mockup.
pub open spec fn marker_value() -> Seq<char> {
    seq!['m', 'o', 'c', 'k', 'u', 'p']
}

/// Whether some `(keyword, text)` chunk among `chunks` is the mockup marker.
pub open spec fn is_marked(chunks: Seq<(String, String)>) -> bool {
    exists|i: int| 0 <= i < chunks.len() && #[trigger] chunks[i].0@ == marker_key() && chunks[i].1@ == marker_value()
}

/// The `(keyword, text)` chunk written into every finished mockup.
pub fn marker_chunk() -> (r: (String, String))
    ensures
        r.0@ == marker_key(),
        r.1@ == marker_value(),
{
    let key = vec!['l', 'a', 'u', 'n', 'c', 'h'];
    let value = vec!['m', 'o', 'c', 'k', 'u', 'p'];
    proof {
        assert(key@ =~= marker_key());
        assert(value@ =~= marker_value());
    }
    (string_of(&key), string_of(&value))
}

/// Whether some `(keyword, text)` chunk of a PNG is the mockup marker.
pub fn has_launch_marker(chunks: &Vec<(String, String)>) -> (b: bool)
    ensures
        b == is_marked(chunks@),
{
    let key = vec!['l', 'a', 'u', 'n', 'c', 'h'];
    let value = vec!['m', 'o', 'c', 'k', 'u', 'p'];
    proof {
        assert(key@ =~= marker_key());
        assert(value@ =~= marker_value());
    }
    let mut i: usize = 0;
    while i < chunks.len()
        invariant
            key@ == marker_key(),
            value@ == marker_value(),
            i <= chunks@.len(),
            forall|k: int| 0 <= k < i ==> !(#[trigger] chunks@[k].0@ == marker_key() && chunks@[k].1@ == marker_value()),
        decreases chunks.len() - i,
    {
        let k = chars_of(chunks[i].0.as_str());
        let v = chars_of(chunks[i].1.as_str());
        if spells(&k, &key) && spells(&v, &value) {
            return true;
        }
        i = i + 1;
    }
    false
}

/// A PNG whose text chunks include the chunk `marker_chunk` writes, among
/// any others and in any place, is recognised as a finished mockup; one
/// without any chunk is not.
pub proof fn law_marked_mockup_is_recognised(
    before: Seq<(String, String)>,
    marker: (String, String),
    after: Seq<(String, String)>,
)
    requires
        marker.0@ == marker_key(),
        marker.1@ == marker_value(),
    ensures
        is_marked(before.push(marker) + after),
        !is_marked(Seq::<(String, String)>::empty()),
{
    let all = before.push(marker) + after;
    assert(all[before.len() as int] == marker);
}

} // verus!

verus! {

/// The orientation name `portrait`.
pub open spec fn portrait_word() -> Seq<char> {
    seq!['p', 'o', 'r', 't', 'r', 'a', 'i', 't']
}

/// The orientation name `landscape`.
pub open spec fn landscape_word() -> Seq<char> {
    seq!['l', 'a', 'n', 'd', 's', 'c', 'a', 'p', 'e']
}

/// The orientation name `front`.
pub open spec fn front_word() -> Seq<char> {
    seq!['f', 'r', 'o', 'n', 't']
}

/// How a screenshot is fitted to a device in a given orientation.
#[derive(Clone, Copy, PartialEq, Eq, Structural, Debug)]
pub struct FitPlan {
    /// Display width in this orientation.
    pub width: u32,
    /// Display height in this orientation.
    pub height: u32,
    /// Whether a screenshot of the other orientation is turned to match (phones).
    pub auto_rotate: bool,
    /// Whether the device is a laptop seen from the front: the screenshot is
    /// shown smaller, over a desktop wallpaper when no background is given.
    pub laptop: bool,
}

/// The fit for orientation `name` of a device whose display is `display`
/// (width, height) upright: landscape swaps the sides, portrait and
/// landscape turn screenshots, front is a laptop.
pub fn fit_plan(name: &str, display: (u32, u32)) -> (p: FitPlan)
    ensures
        p.width == if name@ == landscape_word() { display.1 } else { display.0 },
        p.height == if name@ == landscape_word() { display.0 } else { display.1 },
        p.auto_rotate == (name@ == portrait_word() || name@ == landscape_word()),
        p.laptop == (name@ == front_word()),
{
    let n = chars_of(name);
    let portrait = vec!['p', 'o', 'r', 't', 'r', 'a', 'i', 't'];
    let landscape = vec!['l', 'a', 'n', 'd', 's', 'c', 'a', 'p', 'e'];
    let front = vec!['f', 'r', 'o', 'n', 't'];
    proof {
        assert(portrait@ =~= portrait_word());
        assert(landscape@ =~= landscape_word());
        assert(front@ =~= front_word());
    }
    let is_landscape = spells(&n, &landscape);
    let is_portrait = spells(&n, &portrait);
    let is_front = spells(&n, &front);
    let (width, height) = if is_landscape { (display.1, display.0) } else { (display.0, display.1) };
    FitPlan { width, height, auto_rotate: is_portrait || is_landscape, laptop: is_front }
}

} // verus!

verus! {

/// Why a mockup could not be composed.
#[derive(Clone, Copy, PartialEq, Eq, Structural, Debug)]
pub enum MockupError {
    /// An embedded frame image could not be decoded.
    Decode,
    /// The screen mask is narrower or shorter than the frame template.
    MaskTooSmall,
}

/// Decodes an embedded image (a frame template, a screen mask or a
/// wallpaper) to RGBA8.
pub fn load_from_bytes(bytes: &[u8]) -> (r: Result<Raster, MockupError>)
    ensures
        match decoded_rgba8(bytes@) {
            Some(d) => r matches Ok(img) && {
                &&& img.wf()
                &&& img.kind == ColorKind::Rgba8
                &&& img.width == d.0
                &&& img.height == d.1
                &&& img.data@ == d.2
            },
            None => r == Err::<Raster, MockupError>(MockupError::Decode),
        },
{
    match decode_rgba8(bytes) {
        Ok(img) => Ok(img),
        Err(_) => Err(MockupError::Decode),
    }
}

/// Composes a mockup from the encoded frame template and screen mask of a
/// device orientation and the screenshot `fitted` to its display, as `run`
/// does once both images are decoded. The mask must cover the template.
pub fn compose_from_bytes(
    fitted: &Raster,
    template_bytes: &[u8],
    mask_bytes: &[u8],
    screen_coord: &Vec<(u32, u32)>,
) -> (r: Result<Raster, MockupError>)
    requires
        fitted.wf(),
        fitted.kind == ColorKind::Rgba8,
        screen_coord@.len() > 0,
    ensures
        match (decoded_rgba8(template_bytes@), decoded_rgba8(mask_bytes@)) {
            (Some(t), Some(m)) => if m.0 < t.0 || m.1 < t.1 {
                r == Err::<Raster, MockupError>(MockupError::MaskTooSmall)
            } else {
                r matches Ok(out) && {
                    &&& out.wf()
                    &&& out.kind == ColorKind::Rgba8
                    &&& out.width == t.0
                    &&& out.height == t.1
                    &&& forall|x: int, y: int, c: int|
                        0 <= x < t.0 && 0 <= y < t.1 && 0 <= c < 4
                            ==> #[trigger] rgba_at(out.data@, out.width as int, x, y, c) == frame_channel(
                                *fitted,
                                t.2,
                                t.0 as int,
                                m.2,
                                m.0 as int,
                                min_x(screen_coord@) as int,
                                min_y(screen_coord@) as int,
                                x,
                                y,
                                c,
                            )
                }
            },
            _ => r == Err::<Raster, MockupError>(MockupError::Decode),
        },
{
    let template = load_from_bytes(template_bytes)?;
    let mask = load_from_bytes(mask_bytes)?;
    if mask.width < template.width || mask.height < template.height {
        return Err(MockupError::MaskTooSmall);
    }
    Ok(run(fitted, &template, &mask, screen_coord))
}

/// Whether some `(keyword, text)` pair among `chunks` is the mockup marker.
pub open spec fn marked_chunks(chunks: Seq<(Seq<char>, Seq<char>)>) -> bool {
    exists|i: int| 0 <= i < chunks.len() && #[trigger] chunks[i].0 == marker_key() && chunks[i].1 == marker_value()
}

/// Whether the PNG file `bytes` was written as a finished mockup: it decodes
/// as PNG and one of its text chunks is the marker. A file that is not a
/// readable PNG is not marked.
pub fn is_marked_png(bytes: &[u8]) -> (b: bool)
    ensures
        b == (png_text_chunks_of(bytes@) matches Some(c) && marked_chunks(c)),
{
    match png_text_chunks(bytes) {
        None => false,
        Some(v) => {
            let b = has_launch_marker(&v);
            proof {
                let c = png_text_chunks_of(bytes@).unwrap();
                if b {
                    let i = choose|i: int| 0 <= i < v@.len() && #[trigger] v@[i].0@ == marker_key() && v@[i].1@ == marker_value();
                    assert(c[i].0 == v@[i].0@);
                }
                if marked_chunks(c) {
                    let i = choose|i: int| 0 <= i < c.len() && #[trigger] c[i].0 == marker_key() && c[i].1 == marker_value();
                    assert(v@[i].0@ == c[i].0);
                }
            }
            b
        },
    }
}

} // verus!

verus! {

/// The screen origin is the least corner: `min_x` and `min_y` are at most
/// every corner's coordinate and equal to some corner's.
pub proof fn law_screen_origin_is_least(coords: Seq<(u32, u32)>)
    requires
        coords.len() > 0,
    ensures
        forall|i: int| 0 <= i < coords.len() ==> min_x(coords) <= (#[trigger] coords[i]).0 && min_y(coords) <= coords[i].1,
        exists|i: int| 0 <= i < coords.len() && (#[trigger] coords[i]).0 == min_x(coords),
        exists|i: int| 0 <= i < coords.len() && (#[trigger] coords[i]).1 == min_y(coords),
    decreases coords.len(),
{
    if coords.len() > 1 {
        let rest = coords.drop_last();
        law_screen_origin_is_least(rest);
        assert forall|i: int| 0 <= i < coords.len() implies min_x(coords) <= (#[trigger] coords[i]).0 && min_y(coords) <= coords[i].1 by {
            if i < rest.len() {
                assert(coords[i] == rest[i]);
            }
        }
        let jx = choose|i: int| 0 <= i < rest.len() && (#[trigger] rest[i]).0 == min_x(rest);
        let jy = choose|i: int| 0 <= i < rest.len() && (#[trigger] rest[i]).1 == min_y(rest);
        assert(coords[jx] == rest[jx]);
        assert(coords[jy] == rest[jy]);
        assert(coords[coords.len() - 1] == coords.last());
    } else {
        assert(coords[0].0 == min_x(coords));
        assert(coords[0].1 == min_y(coords));
    }
}

} // verus!
