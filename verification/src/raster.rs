//! Plain pixel buffers with 8-bit channels, and the alpha blending used to
//! make icons and logos opaque.

use vstd::prelude::*;

verus! {

/// The channel layout of a `Raster`.
#[derive(Clone, Copy, PartialEq, Eq, Structural, Debug)]
pub enum ColorKind {
    Luma8,
    LumaA8,
    Rgb8,
    Rgba8,
}

impl ColorKind {
    pub open spec fn spec_channels(self) -> nat {
        match self {
            ColorKind::Luma8 => 1,
            ColorKind::LumaA8 => 2,
            ColorKind::Rgb8 => 3,
            ColorKind::Rgba8 => 4,
        }
    }

    /// A small number that identifies the layout.
    pub open spec fn spec_code(self) -> u8 {
        match self {
            ColorKind::Luma8 => 0,
            ColorKind::LumaA8 => 1,
            ColorKind::Rgb8 => 2,
            ColorKind::Rgba8 => 3,
        }
    }

    /// Number of channels per pixel.
    pub fn channels(&self) -> (n: usize)
        ensures
            n == self.spec_channels(),
    {
        match self {
            ColorKind::Luma8 => 1,
            ColorKind::LumaA8 => 2,
            ColorKind::Rgb8 => 3,
            ColorKind::Rgba8 => 4,
        }
    }
}

/// A row-major image: `data` holds `width * height` pixels of `kind`,
/// each pixel its channels in order.
#[derive(Clone, Debug)]
pub struct Raster {
    pub width: u32,
    pub height: u32,
    pub kind: ColorKind,
    pub data: Vec<u8>,
}

/// Number of pixels of a `width` by `height` image.
pub open spec fn pixel_count(width: u32, height: u32) -> nat {
    (width as nat) * (height as nat)
}

impl Raster {
    /// The buffer holds exactly one value per channel of each pixel.
    pub open spec fn wf(&self) -> bool {
        self.data@.len() == pixel_count(self.width, self.height) * self.kind.spec_channels()
    }

    /// Channel `c` of the pixel with row-major index `i`.
    pub open spec fn channel(&self, i: int, c: int) -> u8 {
        self.data@[i * self.kind.spec_channels() + c]
    }

    /// The channels of the pixel in column `x`, row `y`.
    pub fn get_pixel(&self, x: u32, y: u32) -> (p: Vec<u8>)
        requires
            self.wf(),
            x < self.width,
            y < self.height,
        ensures
            p@ == self.data@.subrange(
                (y * self.width + x) * self.kind.spec_channels(),
                (y * self.width + x + 1) * self.kind.spec_channels(),
            ),
    {
        let ch = self.kind.channels();
        let len = self.data.len();
        proof {
            assert((y * self.width + x + 1) * ch <= pixel_count(self.width, self.height) * ch) by (nonlinear_arith)
                requires x < self.width, y < self.height;
            assert(y * self.width + x + 1 <= pixel_count(self.width, self.height)) by (nonlinear_arith)
                requires x < self.width, y < self.height;
            assert(pixel_count(self.width, self.height) <= pixel_count(self.width, self.height) * ch) by (nonlinear_arith)
                requires ch >= 1;
            assert(len == pixel_count(self.width, self.height) * ch);
            assert((y * self.width + x + 1) * ch == (y * self.width + x) * ch + ch) by (nonlinear_arith);
        }
        let start = (y as usize * self.width as usize + x as usize) * ch;
        let mut p: Vec<u8> = Vec::new();
        let mut k: usize = 0;
        while k < ch
            invariant
                k <= ch,
                ch == self.kind.spec_channels(),
                start == (y * self.width + x) * ch,
                start + ch <= self.data@.len(),
                self.data@.len() == len,
                p@ == self.data@.subrange(start as int, start + k),
            decreases ch - k,
        {
            p.push(self.data[start + k]);
            proof {
                assert(self.data@.subrange(start as int, start + k + 1) =~= self.data@.subrange(start as int, start + k).push(self.data@[start + k]));
            }
            k = k + 1;
        }
        p
    }

    /// An image of `width` by `height` pixels that all equal `pixel`.
    pub fn from_pixel(width: u32, height: u32, kind: ColorKind, pixel: &Vec<u8>) -> (r: Raster)
        requires
            pixel@.len() == kind.spec_channels(),
            pixel_count(width, height) * kind.spec_channels() <= usize::MAX,
        ensures
            r.wf(),
            r.width == width,
            r.height == height,
            r.kind == kind,
            forall|i: int, c: int|
                0 <= i < pixel_count(width, height) && 0 <= c < kind.spec_channels()
                    ==> #[trigger] r.channel(i, c) == pixel@[c],
    {
        let ch = kind.channels();
        let n = width as usize * height as usize;
        let mut data: Vec<u8> = Vec::new();
        let mut i: usize = 0;
        while i < n
            invariant
                n == pixel_count(width, height),
                ch == kind.spec_channels(),
                pixel@.len() == ch,
                n * ch <= usize::MAX,
                i <= n,
                data@.len() == i * ch,
                forall|j: int, c: int| 0 <= j < i && 0 <= c < ch ==> #[trigger] data@[j * ch + c] == pixel@[c],
            decreases n - i,
        {
            let mut c: usize = 0;
            while c < ch
                invariant
                    ch == kind.spec_channels(),
                    pixel@.len() == ch,
                    i < n,
                    n * ch <= usize::MAX,
                    c <= ch,
                    data@.len() == i * ch + c,
                    forall|j: int, k: int| 0 <= j < i && 0 <= k < ch ==> #[trigger] data@[j * ch + k] == pixel@[k],
                    forall|k: int| 0 <= k < c ==> #[trigger] data@[i * ch + k] == pixel@[k],
                decreases ch - c,
            {
                proof {
                    assert((i + 1) * ch <= n * ch) by (nonlinear_arith)
                        requires i < n;
                    assert((i + 1) * ch == i * ch + ch) by (nonlinear_arith);
                }
                data.push(pixel[c]);
                c = c + 1;
            }
            proof {
                assert((i + 1) * ch == i * ch + ch) by (nonlinear_arith);
                assert forall|j: int, k: int| 0 <= j < i + 1 && 0 <= k < ch implies #[trigger] data@[j * ch + k] == pixel@[k] by {
                    if j < i {
                    } else {
                        assert(j * ch + k == i * ch + k);
                    }
                }
            }
            i = i + 1;
        }
        let r = Raster { width, height, kind, data };
        proof {
            assert(n * ch == pixel_count(width, height) * kind.spec_channels());
        }
        r
    }
}

/// Channel `c` of the pixel in column `x`, row `y` of a row-major RGBA
/// buffer that is `width` pixels wide.
pub open spec fn rgba_at(data: Seq<u8>, width: int, x: int, y: int, c: int) -> u8 {
    data[(y * width + x) * 4 + c]
}

/// Where the pixel in column `x`, row `y` of a `width` by `height` RGBA
/// buffer starts.
pub fn rgba_index(x: u32, y: u32, width: u32, height: u32) -> (i: usize)
    requires
        x < width,
        y < height,
        pixel_count(width, height) * 4 <= usize::MAX,
    ensures
        i == (y * width + x) * 4,
        i + 4 <= pixel_count(width, height) * 4,
{
    proof {
        assert((y * width + x + 1) * 4 <= (width as nat) * (height as nat) * 4) by (nonlinear_arith)
            requires x < width, y < height;
    }
    (y as usize * width as usize + x as usize) * 4
}

/// Rounds `fg * alpha/255 + bg * (1 - alpha/255)` to the nearest integer.
/// The exact value is never halfway between two integers, since 255 is odd.
pub open spec fn spec_blend(fg: u8, bg: u8, alpha: u8) -> int {
    (fg * alpha + bg * (255 - alpha) + 127) / 255
}

/// The weighted sum `255 * (fg * alpha/255 + bg * (1 - alpha/255))`.
pub open spec fn blend_numerator(fg: u8, bg: u8, alpha: u8) -> int {
    fg * alpha + bg * (255 - alpha)
}

/// Mixes `fg` over `bg` with opacity `alpha / 255`, rounded to the nearest value.
pub fn blend(fg: u8, bg: u8, alpha: u8) -> (r: u8)
    ensures
        r == spec_blend(fg, bg, alpha),
        -127 <= 255 * r - blend_numerator(fg, bg, alpha) <= 127,
        alpha == 255 ==> r == fg,
        alpha == 0 ==> r == bg,
        (fg <= r <= bg) || (bg <= r <= fg),
{
    let f = fg as u32;
    let b = bg as u32;
    let a = alpha as u32;
    proof {
        assert(f * a <= 255 * 255) by (nonlinear_arith)
            requires f <= 255, a <= 255;
        assert(b * (255 - a) <= 255 * 255) by (nonlinear_arith)
            requires b <= 255, a <= 255;
        assert(f * a + b * (255 - a) <= 255 * 255) by (nonlinear_arith)
            requires f <= 255, b <= 255, a <= 255;
        assert(f <= b ==> f * 255 <= f * a + b * (255 - a) <= b * 255) by (nonlinear_arith)
            requires a <= 255;
        assert(b <= f ==> b * 255 <= f * a + b * (255 - a) <= f * 255) by (nonlinear_arith)
            requires a <= 255;
        assert(a == 255 ==> f * a + b * (255 - a) == f * 255) by (nonlinear_arith);
        assert(a == 0 ==> f * a + b * (255 - a) == b * 255) by (nonlinear_arith);
    }
    let n = f * a + b * (255 - a);
    let r = (n + 127) / 255;
    (r as u8)
}

} // verus!
