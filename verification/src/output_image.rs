//! Making RGBA images opaque by flattening them onto white.

use vstd::prelude::*;
use crate::raster::{blend, pixel_count, spec_blend, ColorKind, Raster};

verus! {

/// Flattening onto white: every color channel blended over 255 with the pixel's alpha.
pub open spec fn flattened_channel(img: Raster, i: int, c: int) -> int {
    spec_blend(img.channel(i, c), 255, img.channel(i, 3))
}

/// The RGB bytes of an RGBA buffer flattened onto white, pixel by pixel.
pub open spec fn flatten_on_white(rgba: Seq<u8>) -> Seq<u8> {
    Seq::new(
        (rgba.len() / 4 * 3) as nat,
        |k: int| spec_blend(rgba[(k / 3) * 4 + k % 3], 255, rgba[(k / 3) * 4 + 3]) as u8,
    )
}

/// Drops the alpha channel of an RGBA image by blending each pixel over white.
pub fn flatten_rgba_on_white(img: &Raster) -> (out: Raster)
    requires
        img.wf(),
        img.kind == ColorKind::Rgba8,
    ensures
        out.wf(),
        out.kind == ColorKind::Rgb8,
        out.width == img.width,
        out.height == img.height,
        out.data@ == flatten_on_white(img.data@),
        forall|i: int, c: int|
            0 <= i < pixel_count(img.width, img.height) && 0 <= c < 3
                ==> #[trigger] out.channel(i, c) == flattened_channel(*img, i, c),
{
    let n = img.data.len() / 4;
    let ghost pc = pixel_count(img.width, img.height);
    proof {
        assert(img.kind.spec_channels() == 4);
        assert(img.data@.len() == pc * 4);
        assert(n == pc);
    }
    let mut data: Vec<u8> = Vec::new();
    let mut i: usize = 0;
    while i < n
        invariant
            img.wf(),
            img.kind == ColorKind::Rgba8,
            n == pixel_count(img.width, img.height),
            img.data@.len() == n * 4,
            i <= n,
            data@.len() == 3 * i,
            forall|j: int, c: int|
                0 <= j < i && 0 <= c < 3 ==> #[trigger] data@[3 * j + c] == flattened_channel(*img, j, c),
        decreases n - i,
    {
        proof {
            assert(4 * i + 3 < img.data.len());
        }
        let base = 4 * i;
        let alpha = img.data[base + 3];
        let r = blend(img.data[base], 255, alpha);
        let g = blend(img.data[base + 1], 255, alpha);
        let b = blend(img.data[base + 2], 255, alpha);
        data.push(r);
        data.push(g);
        data.push(b);
        proof {
            assert forall|j: int, c: int|
                0 <= j < i + 1 && 0 <= c < 3 implies #[trigger] data@[3 * j + c] == flattened_channel(*img, j, c) by {
                if j == i {
                    assert(img.channel(j, c) == img.data@[4 * i + c]);
                    assert(img.channel(j, 3) == img.data@[4 * i + 3]);
                    assert(data@[3 * j + c] == data@[3 * i + c]);
                }
            }
        }
        i = i + 1;
    }
    let out = Raster { width: img.width, height: img.height, kind: ColorKind::Rgb8, data };
    proof {
        assert(out.kind.spec_channels() == 3);
        assert forall|i: int, c: int|
            0 <= i < pixel_count(img.width, img.height) && 0 <= c < 3
                implies #[trigger] out.channel(i, c) == flattened_channel(*img, i, c) by {
            assert(out.channel(i, c) == out.data@[3 * i + c]);
        }
        assert forall|k: int| 0 <= k < out.data@.len() implies out.data@[k] == flatten_on_white(img.data@)[k] by {
            let j = k / 3;
            let c = k % 3;
            assert(k == 3 * j + c);
            assert(out.data@[3 * j + c] == flattened_channel(*img, j, c));
        }
        assert(out.data@ =~= flatten_on_white(img.data@));
    }
    out
}

} // verus!
