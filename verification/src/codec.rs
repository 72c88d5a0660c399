//! Decoding, resampling, compositing and encoding through the `image` crate.
//!
//! The pixel data crosses the boundary as plain row-major bytes with their
//! dimensions; what the crate computes is named (decoders, resamplers, the
//! alpha blend, the encoders), and what its source plainly shows of the
//! result (sizes, untouched pixels, copies) is stated beside the name.

use vstd::prelude::*;

use crate::error::WatermarkError;
use crate::metadata::{parsed_jpeg, plain_jpeg};
use crate::pixels::{px_byte, RgbBuffer, RgbaBuffer};

verus! {

/// The `image` error type, carried opaquely.
#[verifier::external_type_specification]
#[verifier::external_body]
pub struct ExImageError(image::ImageError);

/// The image that `ImageReader::decode` (format guessed from the bytes) reads
/// from these bytes, as RGBA8 (`to_rgba8`): width, height and row-major bytes;
/// `None` when decoding fails.
pub uninterp spec fn decoded_rgba(bytes: Seq<u8>) -> Option<(u32, u32, Seq<u8>)>;

/// The same decoding, converted to RGB8 (`to_rgb8`).
pub uninterp spec fn decoded_rgb(bytes: Seq<u8>) -> Option<(u32, u32, Seq<u8>)>;

/// The bytes of `imageops::overlay` of an RGBA image (`tw` x `th`) onto another
/// (`bw` x `bh`) at (`x`, `y`).
pub uninterp spec fn overlaid(bw: u32, bh: u32, bottom: Seq<u8>, tw: u32, th: u32, top: Seq<u8>, x: u32, y: u32) -> Seq<u8>;

/// The bytes of `imageops::resize` (Lanczos3) of an RGBA image to `nw` x `nh`.
pub uninterp spec fn resized_rgba(w: u32, h: u32, data: Seq<u8>, nw: u32, nh: u32) -> Seq<u8>;

/// The bytes of `imageops::resize` of an RGB image to `nw` x `nh`, with the
/// Lanczos3 filter or else the Triangle filter.
pub uninterp spec fn resized_rgb(w: u32, h: u32, data: Seq<u8>, nw: u32, nh: u32, lanczos: bool) -> Seq<u8>;

/// The bytes that `JpegEncoder::new_with_quality` writes for an RGB8 image.
pub uninterp spec fn jpeg_encoded(w: u32, h: u32, data: Seq<u8>, quality: u8) -> Seq<u8>;

/// The bytes that `PngEncoder` writes for an RGB8 image.
pub uninterp spec fn png_encoded(w: u32, h: u32, data: Seq<u8>) -> Seq<u8>;

/// The bytes that the lossless `WebPEncoder` writes for an RGB8 image.
pub uninterp spec fn webp_encoded(w: u32, h: u32, data: Seq<u8>) -> Seq<u8>;

/// What `imageops::overlay` leaves at one byte of the bottom image: outside the
/// placed rectangle the bottom's byte; inside it, the bottom's byte where the
/// top pixel is fully transparent and the top's byte where it is fully opaque
/// (`Rgba::blend` returns early in both cases).
pub open spec fn overlay_byte_ok(
    res: Seq<u8>,
    bw: u32,
    bottom: Seq<u8>,
    tw: u32,
    th: u32,
    top: Seq<u8>,
    x: u32,
    y: u32,
    px: int,
    py: int,
    c: int,
) -> bool {
    let inside = x <= px < x + tw && y <= py < y + th;
    let alpha = px_byte(top, 4, tw as nat, px - x, py - y, 3);
    &&& !inside ==> px_byte(res, 4, bw as nat, px, py, c) == px_byte(bottom, 4, bw as nat, px, py, c)
    &&& inside && alpha == 0 ==> px_byte(res, 4, bw as nat, px, py, c) == px_byte(
        bottom,
        4,
        bw as nat,
        px,
        py,
        c,
    )
    &&& inside && alpha == 255 ==> px_byte(res, 4, bw as nat, px, py, c) == px_byte(
        top,
        4,
        tw as nat,
        px - x,
        py - y,
        c,
    )
}

/// Trusted: `ImageReader::new(Cursor::new(bytes)).with_guessed_format()`,
/// `decode` and `to_rgba8` of `image`. The result is named by `decoded_rgba`;
/// an `ImageBuffer` always holds `4 * width * height` bytes.
#[verifier::external_body]
fn decode_rgba_raw(bytes: &[u8]) -> (res: Result<(u32, u32, Vec<u8>), image::ImageError>)
    ensures
        res matches Ok(t) ==> decoded_rgba(bytes@) == Some((t.0, t.1, t.2@)) && t.2@.len() == 4 * (t.0
            * t.1),
        res is Err ==> decoded_rgba(bytes@) is None,
{
    let reader = image::ImageReader::new(std::io::Cursor::new(bytes))
        .with_guessed_format()
        .map_err(image::ImageError::IoError)?;
    let img = reader.decode()?.to_rgba8();
    Ok((img.width(), img.height(), img.into_raw()))
}

/// Trusted: the same decoding, converted with `to_rgb8`; named by
/// `decoded_rgb`, with `3 * width * height` bytes.
#[verifier::external_body]
fn decode_rgb_raw(bytes: &[u8]) -> (res: Result<(u32, u32, Vec<u8>), image::ImageError>)
    ensures
        res matches Ok(t) ==> decoded_rgb(bytes@) == Some((t.0, t.1, t.2@)) && t.2@.len() == 3 * (t.0
            * t.1),
        res is Err ==> decoded_rgb(bytes@) is None,
{
    let reader = image::ImageReader::new(std::io::Cursor::new(bytes))
        .with_guessed_format()
        .map_err(image::ImageError::IoError)?;
    let img = reader.decode()?.to_rgb8();
    Ok((img.width(), img.height(), img.into_raw()))
}

/// Trusted: the `Display` text of an `image` error.
#[verifier::external_body]
fn image_error_text(e: &image::ImageError) -> String {
    e.to_string()
}

/// Trusted: `imageops::overlay` of `image` on RGBA buffers. The result is
/// named by `overlaid`; it keeps the bottom's size, and `overlay_byte_ok`
/// holds at every byte.
#[verifier::external_body]
fn overlay_raw(bw: u32, bh: u32, bottom: Vec<u8>, tw: u32, th: u32, top: &Vec<u8>, x: u32, y: u32) -> (res:
    Vec<u8>)
    requires
        bottom@.len() == 4 * (bw * bh),
        top@.len() == 4 * (tw * th),
    ensures
        res@ == overlaid(bw, bh, bottom@, tw, th, top@, x, y),
        res@.len() == bottom@.len(),
        forall|px: int, py: int, c: int|
            0 <= px < bw && 0 <= py < bh && 0 <= c < 4 ==> #[trigger] overlay_byte_ok(
                res@,
                bw,
                bottom@,
                tw,
                th,
                top@,
                x,
                y,
                px,
                py,
                c,
            ),
{
    let mut canvas = image::RgbaImage::from_raw(bw, bh, bottom).unwrap();
    let top_img = image::RgbaImage::from_raw(tw, th, top.clone()).unwrap();
    image::imageops::overlay(&mut canvas, &top_img, x as i64, y as i64);
    canvas.into_raw()
}

/// Trusted: `imageops::resize` of `image` with `FilterType::Lanczos3` on an
/// RGBA buffer. Named by `resized_rgba`; the result holds `4 * nw * nh`
/// bytes, and is a copy when the size does not change. (`ImageBuffer::new`
/// panics when the new buffer's length overflows `usize`.)
#[verifier::external_body]
fn resize_rgba_raw(w: u32, h: u32, data: &Vec<u8>, nw: u32, nh: u32) -> (res: Vec<u8>)
    requires
        data@.len() == 4 * (w * h),
        4 * (nw * nh) <= usize::MAX,
    ensures
        res@ == resized_rgba(w, h, data@, nw, nh),
        res@.len() == 4 * (nw * nh),
        nw == w && nh == h ==> res@ == data@,
{
    let img = image::RgbaImage::from_raw(w, h, data.clone()).unwrap();
    image::imageops::resize(&img, nw, nh, image::imageops::FilterType::Lanczos3).into_raw()
}

/// Trusted: `imageops::resize` of `image` on an RGB buffer, with
/// `FilterType::Lanczos3` or `FilterType::Triangle`. Named by `resized_rgb`;
/// the result holds `3 * nw * nh` bytes, and is a copy when the size does not
/// change. (`ImageBuffer::new` panics when the new buffer's length overflows
/// `usize`.)
#[verifier::external_body]
fn resize_rgb_raw(w: u32, h: u32, data: &Vec<u8>, nw: u32, nh: u32, lanczos: bool) -> (res: Vec<u8>)
    requires
        data@.len() == 3 * (w * h),
        3 * (nw * nh) <= usize::MAX,
    ensures
        res@ == resized_rgb(w, h, data@, nw, nh, lanczos),
        res@.len() == 3 * (nw * nh),
        nw == w && nh == h ==> res@ == data@,
{
    let img = image::RgbImage::from_raw(w, h, data.clone()).unwrap();
    let filter = if lanczos {
        image::imageops::FilterType::Lanczos3
    } else {
        image::imageops::FilterType::Triangle
    };
    image::imageops::resize(&img, nw, nh, filter).into_raw()
}

/// Trusted: `JpegEncoder::new_with_quality(..).write_image(.., Rgb8)` of
/// `image` into a `Vec`. The bytes are named by `jpeg_encoded`. It refuses a
/// size of zero or above 65535 on either side, and fails on nothing else
/// (writing into a `Vec` does not fail). What it writes is SOI, then APP0
/// (JFIF), SOF0, two DQT, four DHT and SOS segments, each with its length
/// field, then the scan data, a pad byte and EOI; so `img_parts`'
/// `Jpeg::from_bytes` reads it back as a JPEG that ends with its scan and has
/// no APP1 or APP2 segment (`plain_jpeg`).
#[verifier::external_body]
fn encode_jpeg_raw(w: u32, h: u32, data: &Vec<u8>, quality: u8) -> (res: Result<Vec<u8>, image::ImageError>)
    requires
        data@.len() == 3 * (w * h),
    ensures
        res matches Ok(b) ==> b@ == jpeg_encoded(w, h, data@, quality),
        res matches Ok(b) ==> (parsed_jpeg(b@) matches Some(s) && plain_jpeg(s)),
        res is Ok <==> (1 <= w <= 65535 && 1 <= h <= 65535),
{
    let mut buf = Vec::new();
    let encoder = image::codecs::jpeg::JpegEncoder::new_with_quality(&mut buf, quality);
    image::ImageEncoder::write_image(encoder, data, w, h, image::ExtendedColorType::Rgb8)?;
    Ok(buf)
}

/// Trusted: `PngEncoder::new(..).write_image(.., Rgb8)` of `image` into a
/// `Vec`; the bytes are named by `png_encoded`. The `png` encoder refuses a
/// zero width or height and nothing else here (RGB8, a buffer of the right
/// length, writing into a `Vec`).
#[verifier::external_body]
fn encode_png_raw(w: u32, h: u32, data: &Vec<u8>) -> (res: Result<Vec<u8>, image::ImageError>)
    requires
        data@.len() == 3 * (w * h),
    ensures
        res matches Ok(b) ==> b@ == png_encoded(w, h, data@),
        res is Ok <==> (w >= 1 && h >= 1),
{
    let mut buf = Vec::new();
    let encoder = image::codecs::png::PngEncoder::new(&mut buf);
    image::ImageEncoder::write_image(encoder, data, w, h, image::ExtendedColorType::Rgb8)?;
    Ok(buf)
}

/// Trusted: `WebPEncoder::new_lossless(..).write_image(.., Rgb8)` of `image`
/// into a `Vec`; the bytes are named by `webp_encoded`. The `image-webp`
/// encoder refuses a width or height of zero or above 16384, and nothing else
/// here.
#[verifier::external_body]
fn encode_webp_raw(w: u32, h: u32, data: &Vec<u8>) -> (res: Result<Vec<u8>, image::ImageError>)
    requires
        data@.len() == 3 * (w * h),
    ensures
        res matches Ok(b) ==> b@ == webp_encoded(w, h, data@),
        res is Ok <==> (1 <= w <= 16384 && 1 <= h <= 16384),
{
    let mut buf = Vec::new();
    let encoder = image::codecs::webp::WebPEncoder::new_lossless(&mut buf);
    image::ImageEncoder::write_image(encoder, data, w, h, image::ExtendedColorType::Rgb8)?;
    Ok(buf)
}

fn image_error(e: image::ImageError) -> (res: WatermarkError)
    ensures
        res is Image,
{
    WatermarkError::Image(image_error_text(&e))
}

/// Decodes an image of any format that `image` recognises into RGBA.
pub fn decode_image(bytes: &[u8]) -> (res: Result<RgbaBuffer, WatermarkError>)
    ensures
        res is Ok <==> decoded_rgba(bytes@) is Some,
        res matches Ok(img) ==> img.wf() && decoded_rgba(bytes@) == Some(
            (img.w() as u32, img.h() as u32, img.bytes()),
        ),
        res matches Err(e) ==> e is Image,
{
    match decode_rgba_raw(bytes) {
        Ok((w, h, data)) => Ok(RgbaBuffer::from_raw(w, h, data).unwrap()),
        Err(e) => Err(image_error(e)),
    }
}

/// Decodes an image of any format that `image` recognises into RGB.
pub fn decode_rgb(bytes: &[u8]) -> (res: Result<RgbBuffer, WatermarkError>)
    ensures
        res is Ok <==> decoded_rgb(bytes@) is Some,
        res matches Ok(img) ==> img.wf() && decoded_rgb(bytes@) == Some(
            (img.w() as u32, img.h() as u32, img.bytes()),
        ),
        res matches Err(e) ==> e is Image,
{
    match decode_rgb_raw(bytes) {
        Ok((w, h, data)) => Ok(RgbBuffer::from_raw(w, h, data).unwrap()),
        Err(e) => Err(image_error(e)),
    }
}

/// Resamples an RGBA image to `nw` x `nh` with the Lanczos3 filter.
pub fn resize_rgba(img: &RgbaBuffer, nw: u32, nh: u32) -> (res: RgbaBuffer)
    requires
        img.wf(),
        4 * (nw * nh) <= usize::MAX,
    ensures
        res.wf(),
        res.w() == nw,
        res.h() == nh,
        res.bytes() == resized_rgba(img.w() as u32, img.h() as u32, img.bytes(), nw, nh),
        nw == img.w() && nh == img.h() ==> res.bytes() == img.bytes(),
{
    let (w, h) = img.dimensions();
    proof {
        img.lemma_len();
    }
    let data = resize_rgba_raw(w, h, img.as_raw(), nw, nh);
    RgbaBuffer::from_raw(nw, nh, data).unwrap()
}

/// Resamples an RGB image to `nw` x `nh`, with the Lanczos3 filter or else the
/// Triangle filter.
pub fn resize_rgb(img: &RgbBuffer, nw: u32, nh: u32, lanczos: bool) -> (res: RgbBuffer)
    requires
        img.wf(),
        3 * (nw * nh) <= usize::MAX,
    ensures
        res.wf(),
        res.w() == nw,
        res.h() == nh,
        res.bytes() == resized_rgb(img.w() as u32, img.h() as u32, img.bytes(), nw, nh, lanczos),
        nw == img.w() && nh == img.h() ==> res.bytes() == img.bytes(),
{
    let (w, h) = img.dimensions();
    proof {
        img.lemma_len();
    }
    let data = resize_rgb_raw(w, h, img.as_raw(), nw, nh, lanczos);
    RgbBuffer::from_raw(nw, nh, data).unwrap()
}

/// Encodes an RGB image as JPEG at the given quality.
pub fn encode_jpeg(img: &RgbBuffer, quality: u8) -> (res: Result<Vec<u8>, WatermarkError>)
    requires
        img.wf(),
    ensures
        res matches Ok(b) ==> b@ == jpeg_encoded(img.w() as u32, img.h() as u32, img.bytes(), quality),
        res matches Ok(b) ==> (parsed_jpeg(b@) matches Some(s) && plain_jpeg(s)),
        res matches Err(e) ==> e is Image,
        res is Ok <==> (1 <= img.w() <= 65535 && 1 <= img.h() <= 65535),
{
    let (w, h) = img.dimensions();
    proof {
        img.lemma_len();
    }
    match encode_jpeg_raw(w, h, img.as_raw(), quality) {
        Ok(b) => Ok(b),
        Err(e) => Err(image_error(e)),
    }
}

/// Encodes an RGB image as PNG.
pub fn encode_png(img: &RgbBuffer) -> (res: Result<Vec<u8>, WatermarkError>)
    requires
        img.wf(),
    ensures
        res matches Ok(b) ==> b@ == png_encoded(img.w() as u32, img.h() as u32, img.bytes()),
        res matches Err(e) ==> e is Image,
        res is Ok <==> (img.w() >= 1 && img.h() >= 1),
{
    let (w, h) = img.dimensions();
    proof {
        img.lemma_len();
    }
    match encode_png_raw(w, h, img.as_raw()) {
        Ok(b) => Ok(b),
        Err(e) => Err(image_error(e)),
    }
}

/// Encodes an RGB image as lossless WebP.
pub fn encode_webp(img: &RgbBuffer) -> (res: Result<Vec<u8>, WatermarkError>)
    requires
        img.wf(),
    ensures
        res matches Ok(b) ==> b@ == webp_encoded(img.w() as u32, img.h() as u32, img.bytes()),
        res matches Err(e) ==> e is Image,
        res is Ok <==> (1 <= img.w() <= 16384 && 1 <= img.h() <= 16384),
{
    let (w, h) = img.dimensions();
    proof {
        img.lemma_len();
    }
    match encode_webp_raw(w, h, img.as_raw()) {
        Ok(b) => Ok(b),
        Err(e) => Err(image_error(e)),
    }
}

/// Alpha-composites `top` onto `canvas` with its top-left pixel at (`x`, `y`);
/// the part of `top` that falls outside the canvas is cut off.
pub fn overlay(canvas: RgbaBuffer, top: &RgbaBuffer, x: u32, y: u32) -> (res: RgbaBuffer)
    requires
        canvas.wf(),
        top.wf(),
    ensures
        res.wf(),
        res.w() == canvas.w(),
        res.h() == canvas.h(),
        res.bytes() == overlaid(
            canvas.w() as u32,
            canvas.h() as u32,
            canvas.bytes(),
            top.w() as u32,
            top.h() as u32,
            top.bytes(),
            x,
            y,
        ),
        forall|px: int, py: int, c: int|
            0 <= px < canvas.w() && 0 <= py < canvas.h() && 0 <= c < 4 ==> #[trigger] overlay_byte_ok(
                res.bytes(),
                canvas.w() as u32,
                canvas.bytes(),
                top.w() as u32,
                top.h() as u32,
                top.bytes(),
                x,
                y,
                px,
                py,
                c,
            ),
{
    let (bw, bh) = canvas.dimensions();
    let (tw, th) = top.dimensions();
    proof {
        canvas.lemma_len();
        top.lemma_len();
    }
    let data = overlay_raw(bw, bh, canvas.into_raw(), tw, th, top.as_raw(), x, y);
    RgbaBuffer::from_raw(bw, bh, data).unwrap()
}

} // verus!
