//! Nine-grid anchoring with orientation awareness.
//!
//! The watermark width is measured against the photo's short side, so that
//! landscape and portrait shots carry a watermark of the same visual size; the
//! anchor plus the margins give the watermark's top-left pixel, clamped into the
//! photo; landscape shots may use an anchor of their own.

use vstd::prelude::*;

use crate::canvas_expand::CanvasRatioConfig;
use crate::error::WatermarkError;
use crate::exif_text::ExifTextConfig;
use crate::frame::FrameConfig;

verus! {

/// One of the nine anchor cells of the photo.
#[derive(Debug, Clone, Copy, PartialEq, Eq, Default)]
pub enum GridPosition {
    TopLeft,
    TopCenter,
    TopRight,
    MiddleLeft,
    #[default]
    Center,
    MiddleRight,
    BottomLeft,
    BottomCenter,
    BottomRight,
}

/// Horizontal band of an anchor: 0 left, 1 center, 2 right.
pub open spec fn column_of(p: GridPosition) -> int {
    match p {
        GridPosition::TopLeft | GridPosition::MiddleLeft | GridPosition::BottomLeft => 0,
        GridPosition::TopCenter | GridPosition::Center | GridPosition::BottomCenter => 1,
        _ => 2,
    }
}

/// Vertical band of an anchor: 0 top, 1 middle, 2 bottom.
pub open spec fn row_of(p: GridPosition) -> int {
    match p {
        GridPosition::TopLeft | GridPosition::TopCenter | GridPosition::TopRight => 0,
        GridPosition::MiddleLeft | GridPosition::Center | GridPosition::MiddleRight => 1,
        _ => 2,
    }
}

/// Placement settings of the signature watermark.
///
/// `size_ratio_bits` and `opacity_bits` hold the IEEE-754 bit patterns of the
/// two `f32` settings (watermark width over the short side, and opacity); the
/// library carries them and never reads them as numbers.
#[derive(Debug, Clone)]
pub struct WatermarkConfig {
    pub position: GridPosition,
    pub size_ratio_bits: u32,
    pub opacity_bits: u32,
    pub margin_x: u32,
    pub margin_y: u32,
    pub landscape_override: Option<GridPosition>,
    pub tint: Option<[u8; 3]>,
    /// A line of shooting parameters drawn on the photo.
    pub exif_text: Option<ExifTextConfig>,
    /// A border with a parameter bar under the photo.
    pub frame: Option<FrameConfig>,
    /// Padding of the result to a fixed aspect ratio.
    pub canvas_ratio: Option<CanvasRatioConfig>,
}

/// A photo is landscape when it is at least as wide as it is high (squares count).
pub fn is_landscape(width: u32, height: u32) -> (res: bool)
    ensures
        res == (width >= height),
{
    width >= height
}

/// The short side, against which the watermark size is measured.
pub fn scale_base(width: u32, height: u32) -> (res: u32)
    ensures
        res == spec_min(width as int, height as int),
{
    if width <= height {
        width
    } else {
        height
    }
}

pub open spec fn spec_min(a: int, b: int) -> int {
    if a <= b {
        a
    } else {
        b
    }
}

pub open spec fn clamp_to(v: int, hi: int) -> int {
    if v < 0 {
        0
    } else if v > hi {
        hi
    } else {
        v
    }
}

/// The anchor that applies to a photo of the given size.
pub open spec fn effective_anchor(img_w: u32, img_h: u32, config: WatermarkConfig) -> GridPosition {
    if img_w >= img_h {
        match config.landscape_override {
            Some(p) => p,
            None => config.position,
        }
    } else {
        config.position
    }
}

/// Offset along one axis before clamping: `band` 0 keeps the margin from the
/// start, 1 centers, 2 keeps the margin from the end.
pub open spec fn band_offset(band: int, img: int, wm: int, margin: int) -> int {
    if band == 0 {
        margin
    } else if band == 1 {
        (img - wm) / 2
    } else {
        img - wm - margin
    }
}

/// The top-left pixel of the watermark, for a watermark that fits the photo.
pub open spec fn placement(img_w: u32, img_h: u32, wm_w: u32, wm_h: u32, config: WatermarkConfig) -> (int, int) {
    let anchor = effective_anchor(img_w, img_h, config);
    (
        clamp_to(band_offset(column_of(anchor), img_w as int, wm_w as int, config.margin_x as int), img_w - wm_w),
        clamp_to(band_offset(row_of(anchor), img_h as int, wm_h as int, config.margin_y as int), img_h - wm_h),
    )
}

fn offset_along(band: u8, img: u32, wm: u32, margin: u32) -> (res: i64)
    requires
        wm <= img,
        band <= 2,
    ensures
        res == clamp_to(band_offset(band as int, img as int, wm as int, margin as int), img - wm),
{
    let i = img as i64;
    let w = wm as i64;
    let m = margin as i64;
    let raw: i64 = if band == 0 {
        m
    } else if band == 1 {
        (i - w) / 2
    } else {
        i - w - m
    };
    if raw < 0 {
        0
    } else if raw > i - w {
        i - w
    } else {
        raw
    }
}

fn column_code(p: GridPosition) -> (res: u8)
    ensures
        res as int == column_of(p),
{
    match p {
        GridPosition::TopLeft | GridPosition::MiddleLeft | GridPosition::BottomLeft => 0,
        GridPosition::TopCenter | GridPosition::Center | GridPosition::BottomCenter => 1,
        _ => 2,
    }
}

fn row_code(p: GridPosition) -> (res: u8)
    ensures
        res as int == row_of(p),
{
    match p {
        GridPosition::TopLeft | GridPosition::TopCenter | GridPosition::TopRight => 0,
        GridPosition::MiddleLeft | GridPosition::Center | GridPosition::MiddleRight => 1,
        _ => 2,
    }
}

/// Top-left pixel of a `wm_w`x`wm_h` watermark on an `img_w`x`img_h` photo.
///
/// Fails with `WatermarkTooLarge` exactly when the watermark does not fit.
pub fn compute_position(img_w: u32, img_h: u32, wm_w: u32, wm_h: u32, config: &WatermarkConfig) -> (res:
    Result<(i64, i64), WatermarkError>)
    ensures
        (wm_w > img_w || wm_h > img_h) ==> res == Err::<(i64, i64), WatermarkError>(
            WatermarkError::WatermarkTooLarge { img_w, img_h, wm_w, wm_h },
        ),
        (wm_w <= img_w && wm_h <= img_h) ==> (res matches Ok(p) && p.0 as int == placement(
            img_w,
            img_h,
            wm_w,
            wm_h,
            *config,
        ).0 && p.1 as int == placement(img_w, img_h, wm_w, wm_h, *config).1),
{
    if wm_w > img_w || wm_h > img_h {
        return Err(WatermarkError::WatermarkTooLarge { img_w, img_h, wm_w, wm_h });
    }
    let anchor = if is_landscape(img_w, img_h) {
        match config.landscape_override {
            Some(p) => p,
            None => config.position,
        }
    } else {
        config.position
    };
    let x = offset_along(column_code(anchor), img_w, wm_w, config.margin_x);
    let y = offset_along(row_code(anchor), img_h, wm_h, config.margin_y);
    Ok((x, y))
}

/// The computed position always keeps the whole watermark inside the photo.
pub proof fn lemma_placement_inside(img_w: u32, img_h: u32, wm_w: u32, wm_h: u32, config: WatermarkConfig)
    requires
        wm_w <= img_w,
        wm_h <= img_h,
    ensures
        0 <= placement(img_w, img_h, wm_w, wm_h, config).0,
        placement(img_w, img_h, wm_w, wm_h, config).0 + wm_w <= img_w,
        0 <= placement(img_w, img_h, wm_w, wm_h, config).1,
        placement(img_w, img_h, wm_w, wm_h, config).1 + wm_h <= img_h,
{
}

/// Whenever the margins leave room, the watermark keeps exactly the configured
/// margin from each edge that its anchor touches.
pub proof fn lemma_margins_kept(img_w: u32, img_h: u32, wm_w: u32, wm_h: u32, config: WatermarkConfig)
    requires
        wm_w + config.margin_x <= img_w,
        wm_h + config.margin_y <= img_h,
    ensures
        ({
            let a = effective_anchor(img_w, img_h, config);
            let p = placement(img_w, img_h, wm_w, wm_h, config);
            &&& column_of(a) == 0 ==> p.0 == config.margin_x
            &&& column_of(a) == 2 ==> p.0 + wm_w + config.margin_x == img_w
            &&& row_of(a) == 0 ==> p.1 == config.margin_y
            &&& row_of(a) == 2 ==> p.1 + wm_h + config.margin_y == img_h
            &&& column_of(a) == 1 ==> p.0 == (img_w - wm_w) / 2
            &&& row_of(a) == 1 ==> p.1 == (img_h - wm_h) / 2
        }),
{
}

/// The short side of a photo does not depend on its orientation, so a photo
/// and its rotation by a quarter turn get a watermark of the same width.
pub proof fn lemma_scale_base_rotation(width: u32, height: u32)
    ensures
        spec_min(width as int, height as int) == spec_min(height as int, width as int),
{
}

/// Of a photo and its quarter-turn rotation, at least one is landscape, and both
/// are exactly when the photo is square.
pub proof fn lemma_orientation_rotation(width: u32, height: u32)
    ensures
        (width >= height) || (height >= width),
        ((width >= height) && (height >= width)) <==> width == height,
{
}


/// A square or landscape photo (width at least height) takes its anchor from
/// the landscape override when one is set; a portrait photo always takes the
/// configured position. The placement is that of the anchor so chosen, as if
/// it had been configured with no override.
pub proof fn lemma_landscape_override(img_w: u32, img_h: u32, wm_w: u32, wm_h: u32, config: WatermarkConfig)
    ensures
        img_w >= img_h && config.landscape_override is Some ==> effective_anchor(img_w, img_h, config)
            == config.landscape_override->0,
        img_w >= img_h && config.landscape_override is None ==> effective_anchor(img_w, img_h, config)
            == config.position,
        img_w < img_h ==> effective_anchor(img_w, img_h, config) == config.position,
        placement(img_w, img_h, wm_w, wm_h, config) == placement(
            img_w,
            img_h,
            wm_w,
            wm_h,
            (WatermarkConfig {
                position: effective_anchor(img_w, img_h, config),
                landscape_override: None,
                ..config
            }),
        ),
{
}

} // verus!
