//! Calls into the `image` crate: decoding, colour conversion, Lanczos3
//! resampling and PNG encoding, on plain pixel buffers.

use vstd::prelude::*;
use std::io::Cursor;
use image::{ImageBuffer, ImageError, ImageFormat};
use image::DynamicImage::{ImageLuma8, ImageLumaA8, ImageRgb8, ImageRgba8};
use crate::raster::{pixel_count, ColorKind, Raster};

verus! {

/// The `image` crate's error type, carried through opaque.
#[verifier::external_type_specification]
#[verifier::external_body]
pub struct ExImageError(ImageError);

/// The RGBA8 pixels that `image` computes for an image of the given layout
/// (`DynamicImage::to_rgba8`).
pub uninterp spec fn rgba8_conversion(kind: u8, width: u32, height: u32, data: Seq<u8>) -> Seq<u8>;

/// The pixels that `image` computes when it resamples an image of the given
/// layout to `new_width` by `new_height` with the Lanczos3 filter
/// (`DynamicImage::resize_exact`).
pub uninterp spec fn lanczos3_resized(
    kind: u8,
    width: u32,
    height: u32,
    data: Seq<u8>,
    new_width: u32,
    new_height: u32,
) -> Seq<u8>;

/// The PNG file that `image` writes for an image of the given layout
/// (`DynamicImage::write_to` with `ImageFormat::Png`), or `None` where it
/// reports an error.
pub uninterp spec fn png_encoding(kind: u8, width: u32, height: u32, data: Seq<u8>) -> Option<Seq<u8>>;

/// Calls `DynamicImage::to_rgba8`. Trusted: the result is the named
/// conversion, one RGBA pixel per input pixel, and an RGBA input comes back
/// unchanged (the source clones it). How other layouts map is left to the name.
#[verifier::external_body]
pub(crate) fn to_rgba8(img: &Raster) -> (r: Vec<u8>)
    requires
        img.wf(),
        pixel_count(img.width, img.height) * 4 <= usize::MAX,
    ensures
        r@ == rgba8_conversion(img.kind.spec_code(), img.width, img.height, img.data@),
        r@.len() == pixel_count(img.width, img.height) * 4,
        img.kind == ColorKind::Rgba8 ==> r@ == img.data@,
{
    let (w, h, d) = (img.width, img.height, img.data.clone());
    let dynamic = match img.kind {
        ColorKind::Luma8 => ImageLuma8(ImageBuffer::from_raw(w, h, d).unwrap()),
        ColorKind::LumaA8 => ImageLumaA8(ImageBuffer::from_raw(w, h, d).unwrap()),
        ColorKind::Rgb8 => ImageRgb8(ImageBuffer::from_raw(w, h, d).unwrap()),
        ColorKind::Rgba8 => ImageRgba8(ImageBuffer::from_raw(w, h, d).unwrap()),
    };
    dynamic.to_rgba8().into_raw()
}

/// Calls `DynamicImage::resize_exact` with `FilterType::Lanczos3`. Trusted:
/// the result is the named resampling, in the input's layout, with one pixel
/// for each of the `new_width * new_height` positions; resampling to the
/// same size copies the input (the source checks for it first).
#[verifier::external_body]
pub(crate) fn resize_exact_lanczos3(img: &Raster, new_width: u32, new_height: u32) -> (r: Vec<u8>)
    requires
        img.wf(),
        pixel_count(new_width, new_height) * img.kind.spec_channels() <= usize::MAX,
    ensures
        r@ == lanczos3_resized(img.kind.spec_code(), img.width, img.height, img.data@, new_width, new_height),
        r@.len() == pixel_count(new_width, new_height) * img.kind.spec_channels(),
        new_width == img.width && new_height == img.height ==> r@ == img.data@,
{
    let (w, h, d) = (img.width, img.height, img.data.clone());
    let dynamic = match img.kind {
        ColorKind::Luma8 => ImageLuma8(ImageBuffer::from_raw(w, h, d).unwrap()),
        ColorKind::LumaA8 => ImageLumaA8(ImageBuffer::from_raw(w, h, d).unwrap()),
        ColorKind::Rgb8 => ImageRgb8(ImageBuffer::from_raw(w, h, d).unwrap()),
        ColorKind::Rgba8 => ImageRgba8(ImageBuffer::from_raw(w, h, d).unwrap()),
    };
    dynamic.resize_exact(new_width, new_height, image::imageops::FilterType::Lanczos3).into_bytes()
}

/// Calls `DynamicImage::write_to` with `ImageFormat::Png` into an in-memory
/// buffer. Trusted: success and the bytes written are the named encoding.
#[verifier::external_body]
pub(crate) fn encode_png(img: &Raster) -> (r: Result<Vec<u8>, ImageError>)
    requires
        img.wf(),
    ensures
        r is Ok <==> png_encoding(img.kind.spec_code(), img.width, img.height, img.data@) is Some,
        r matches Ok(bytes) ==> bytes@ == png_encoding(img.kind.spec_code(), img.width, img.height, img.data@).unwrap(),
{
    let (w, h, d) = (img.width, img.height, img.data.clone());
    let dynamic = match img.kind {
        ColorKind::Luma8 => ImageLuma8(ImageBuffer::from_raw(w, h, d).unwrap()),
        ColorKind::LumaA8 => ImageLumaA8(ImageBuffer::from_raw(w, h, d).unwrap()),
        ColorKind::Rgb8 => ImageRgb8(ImageBuffer::from_raw(w, h, d).unwrap()),
        ColorKind::Rgba8 => ImageRgba8(ImageBuffer::from_raw(w, h, d).unwrap()),
    };
    let mut buf = Cursor::new(Vec::new());
    dynamic.write_to(&mut buf, ImageFormat::Png)?;
    Ok(buf.into_inner())
}

/// The width, height and RGBA8 pixels that `image` decodes from an encoded
/// file (`image::load_from_memory`, its format guessed from the bytes, then
/// `DynamicImage::to_rgba8`), or `None` where it reports an error.
pub uninterp spec fn decoded_rgba8(bytes: Seq<u8>) -> Option<(u32, u32, Seq<u8>)>;

/// Calls `image::load_from_memory` and converts the result with
/// `DynamicImage::to_rgba8`. Trusted: success and the decoded image are the
/// named decoding, and the pixels are one RGBA value per position.
#[verifier::external_body]
pub(crate) fn decode_rgba8(bytes: &[u8]) -> (r: Result<Raster, ImageError>)
    ensures
        r is Ok <==> decoded_rgba8(bytes@) is Some,
        r matches Ok(img) ==> {
            &&& img.wf()
            &&& img.kind == ColorKind::Rgba8
            &&& decoded_rgba8(bytes@) == Some((img.width, img.height, img.data@))
        },
{
    let rgba = image::load_from_memory(bytes)?.to_rgba8();
    Ok(Raster { width: rgba.width(), height: rgba.height(), kind: ColorKind::Rgba8, data: rgba.into_raw() })
}

/// The `(keyword, text)` pairs of the uncompressed Latin-1 text chunks that
/// the `png` decoder reads before the image data (`Decoder::read_info`, then
/// `Info::uncompressed_latin1_text`), or `None` where it reports an error.
pub uninterp spec fn png_text_chunks_of(bytes: Seq<u8>) -> Option<Seq<(Seq<char>, Seq<char>)>>;

/// Calls `png::Decoder::read_info` on `bytes` and lists the keyword and text
/// of each uncompressed text chunk. Trusted: the result is the named list.
#[verifier::external_body]
pub(crate) fn png_text_chunks(bytes: &[u8]) -> (r: Option<Vec<(String, String)>>)
    ensures
        r is Some <==> png_text_chunks_of(bytes@) is Some,
        r matches Some(v) ==> {
            &&& v@.len() == png_text_chunks_of(bytes@).unwrap().len()
            &&& forall|i: int| 0 <= i < v@.len() ==> {
                &&& #[trigger] v@[i].0@ == png_text_chunks_of(bytes@).unwrap()[i].0
                &&& v@[i].1@ == png_text_chunks_of(bytes@).unwrap()[i].1
            }
        },
{
    let reader = png::Decoder::new(Cursor::new(bytes)).read_info().ok()?;
    Some(reader.info().uncompressed_latin1_text.iter().map(|t| (t.keyword.clone(), t.text.clone())).collect())
}

} // verus!
