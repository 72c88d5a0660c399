//! The integer steps of the signature-watermark pipeline: reading the
//! signature, placing it on the photo, flattening the result, and encoding it
//! with the photo's metadata written back.
//!
//! The steps that scale by a floating-point ratio (the signature's target size
//! and its opacity) happen between these, outside the library.

use vstd::prelude::*;

use crate::codec::{decode_image, decoded_rgba, encode_jpeg, jpeg_encoded, overlaid, overlay};
use crate::error::WatermarkError;
use crate::metadata::{
    exif_fits, icc_fits, inject_checked, injected_segments, jpeg_bytes, lemma_plain_jpeg_ready, parsed_jpeg,
    reads_back, Metadata,
};
use crate::codec::overlay_byte_ok;
use crate::pixels::{drop_alpha, lemma_pixel_in_bounds, RgbBuffer, RgbaBuffer};
use crate::position::{compute_position, lemma_placement_inside, placement, WatermarkConfig};

verus! {

/// Quality of the JPEG that the pipeline writes.
pub const JPEG_QUALITY: u8 = 95;

/// The message of the error for a signature image without pixels.
pub open spec fn empty_watermark_message() -> Seq<char> {
    "水印图片尺寸为 0"@
}

/// Reads the signature image into RGBA. An image that does not decode fails
/// with `Image`; one with no pixels fails with `InvalidParam`.
pub fn decode_watermark(bytes: &[u8]) -> (res: Result<RgbaBuffer, WatermarkError>)
    ensures
        decoded_rgba(bytes@) is None ==> (res matches Err(e) && e is Image),
        decoded_rgba(bytes@) matches Some(t) && (t.0 == 0 || t.1 == 0) ==> (res matches Err(e) && e
            matches WatermarkError::InvalidParam(m) && m@ == empty_watermark_message()),
        res matches Ok(img) ==> img.wf() && img.w() > 0 && img.h() > 0 && decoded_rgba(bytes@) == Some(
            (img.w() as u32, img.h() as u32, img.bytes()),
        ),
        decoded_rgba(bytes@) matches Some(t) && t.0 > 0 && t.1 > 0 ==> res is Ok,
{
    let raw = decode_image(bytes)?;
    let (w, h) = raw.dimensions();
    if w == 0 || h == 0 {
        proof {
            reveal_strlit("水印图片尺寸为 0");
        }
        return Err(WatermarkError::InvalidParam("水印图片尺寸为 0".to_owned()));
    }
    Ok(raw)
}

/// A pixel channel of the composed photo: the photo's outside the placed
/// watermark and where the watermark is fully transparent, the watermark's
/// where it is fully opaque.
pub open spec fn composed_px_ok(out: RgbBuffer, base: RgbaBuffer, wm: RgbaBuffer, x: int, y: int, px: int, py: int, c: int) -> bool {
    let inside = x <= px < x + wm.w() && y <= py < y + wm.h();
    let alpha = wm.at(px - x, py - y, 3);
    &&& !inside ==> out.at(px, py, c) == base.at(px, py, c)
    &&& inside && alpha == 0 ==> out.at(px, py, c) == base.at(px, py, c)
    &&& inside && alpha == 255 ==> out.at(px, py, c) == wm.at(px - x, py - y, c)
}

/// Places the (scaled, tinted, faded) signature on the photo at the position
/// that the configuration asks for, and drops the alpha channel.
///
/// Fails with `WatermarkTooLarge` exactly when the signature does not fit on
/// the photo.
pub fn composite(base: RgbaBuffer, wm: &RgbaBuffer, config: &WatermarkConfig) -> (res: Result<
    RgbBuffer,
    WatermarkError,
>)
    requires
        base.wf(),
        wm.wf(),
    ensures
        (wm.w() > base.w() || wm.h() > base.h()) ==> res == Err::<RgbBuffer, WatermarkError>(
            WatermarkError::WatermarkTooLarge {
                img_w: base.w() as u32,
                img_h: base.h() as u32,
                wm_w: wm.w() as u32,
                wm_h: wm.h() as u32,
            },
        ),
        (wm.w() <= base.w() && wm.h() <= base.h()) ==> (res matches Ok(out) && out.wf() && out.w()
            == base.w() && out.h() == base.h() && {
            let (x, y) = placement(
                base.w() as u32,
                base.h() as u32,
                wm.w() as u32,
                wm.h() as u32,
                *config,
            );
            let blended = overlaid(
                base.w() as u32,
                base.h() as u32,
                base.bytes(),
                wm.w() as u32,
                wm.h() as u32,
                wm.bytes(),
                x as u32,
                y as u32,
            );
            &&& forall|p: int, c: int|
                0 <= p < base.w() * base.h() && 0 <= c < 3 ==> #[trigger] out.bytes()[3 * p + c]
                    == blended[4 * p + c]
            &&& forall|px: int, py: int, c: int|
                0 <= px < base.w() && 0 <= py < base.h() && 0 <= c < 3 ==> #[trigger] composed_px_ok(
                    out,
                    base,
                    *wm,
                    x,
                    y,
                    px,
                    py,
                    c,
                )
        }),
{
    let (iw, ih) = base.dimensions();
    let (ww, wh) = wm.dimensions();
    let (x, y) = compute_position(iw, ih, ww, wh, config)?;
    proof {
        lemma_placement_inside(iw, ih, ww, wh, *config);
    }
    let ghost b = base;
    let canvas = overlay(base, wm, x as u32, y as u32);
    let out = drop_alpha(&canvas);
    proof {
        assert forall|px: int, py: int, c: int|
            0 <= px < b.w() && 0 <= py < b.h() && 0 <= c < 3 implies #[trigger] composed_px_ok(
            out,
            b,
            *wm,
            x as int,
            y as int,
            px,
            py,
            c,
        ) by {
            lemma_pixel_in_bounds(px, py, b.w() as int, b.h() as int);
            let p = py * b.w() + px;
            assert(out.bytes()[3 * p + c] == canvas.chan(p, c));
            assert(overlay_byte_ok(
                canvas.bytes(),
                b.w() as u32,
                b.bytes(),
                wm.w() as u32,
                wm.h() as u32,
                wm.bytes(),
                x as u32,
                y as u32,
                px,
                py,
                c,
            ));
        }
    }
    Ok(out)
}

/// The JPEG that the pipeline encodes for an image, before the metadata goes
/// in.
pub open spec fn pipeline_jpeg(img: RgbBuffer) -> Seq<u8> {
    jpeg_encoded(img.w() as u32, img.h() as u32, img.bytes(), JPEG_QUALITY)
}

/// Encodes the composed photo as a JPEG of `JPEG_QUALITY` and writes the
/// photo's EXIF block and ICC profile back into it.
///
/// `None` where writing the metadata back would make `img_parts` panic (see
/// `inject_checked`): for the encoder's JPEG, exactly when the EXIF block is
/// too long for one segment. Reading the result gives back the metadata's
/// EXIF block and ICC profile whenever the profile needs fewer than 256
/// segments.
pub fn encode_with_metadata(img: &RgbBuffer, meta: &Metadata) -> (res: Option<
    Result<Vec<u8>, WatermarkError>,
>)
    requires
        img.wf(),
    ensures
        res is None <==> ((1 <= img.w() <= 65535 && 1 <= img.h() <= 65535) && !exif_fits(*meta)),
        !(1 <= img.w() <= 65535 && 1 <= img.h() <= 65535) ==> (res matches Some(r) && r matches Err(e)
            && e is Image),
        (1 <= img.w() <= 65535 && 1 <= img.h() <= 65535) && exif_fits(*meta) ==> (res matches Some(r)
            && r is Ok),
        res matches Some(r) ==> (r matches Ok(b) ==> (!(meta.exif is Some || meta.icc is Some) ==> b@
            == pipeline_jpeg(*img))),
        res matches Some(r) ==> (r matches Ok(b) ==> ((meta.exif is Some || meta.icc is Some) ==> (
        parsed_jpeg(pipeline_jpeg(*img)) matches Some(s) && b@ == jpeg_bytes(injected_segments(s, *meta))))),
        res matches Some(r) ==> (r matches Ok(b) ==> ((meta.exif is Some || meta.icc is Some) && icc_fits(*meta)
            ==> (parsed_jpeg(pipeline_jpeg(*img)) matches Some(s) && parsed_jpeg(b@) matches Some(t) && reads_back(
            t,
            s,
            *meta,
        )))),
{
    let encoded = match encode_jpeg(img, JPEG_QUALITY) {
        Ok(b) => b,
        Err(e) => return Some(Err(e)),
    };
    proof {
        let s = parsed_jpeg(encoded@)->0;
        lemma_plain_jpeg_ready(s, encoded@, *meta);
    }
    inject_checked(encoded, meta)
}

} // verus!
