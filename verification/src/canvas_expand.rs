//! Canvas expansion: padding a photo evenly on two sides up to a target aspect
//! ratio or to an exact pixel size, without cropping.
//!
//! The target size itself is float-derived and computed by the caller; this
//! module holds the settings and the centered padding.

use vstd::prelude::*;

use crate::codec::{resize_rgb, resized_rgb};
use crate::pixels::{place, placed_byte, px_byte, RgbBuffer};

verus! {

/// Aspect-ratio expansion settings.
#[derive(Debug, Clone)]
pub struct CanvasRatioConfig {
    pub enabled: bool,
    pub ratio_w: u32,
    pub ratio_h: u32,
    pub fill_color: [u8; 3],
}

fn default_ratio_w() -> (res: u32)
    ensures
        res == 1,
{
    1
}

fn default_ratio_h() -> (res: u32)
    ensures
        res == 1,
{
    1
}

fn default_fill_color() -> (res: [u8; 3])
    ensures
        res@ == seq![255u8, 255u8, 255u8],
{
    [255, 255, 255]
}

impl Default for CanvasRatioConfig {
    /// Disabled, square, white.
    fn default() -> (res: Self)
        ensures
            !res.enabled,
            res.ratio_w == 1,
            res.ratio_h == 1,
            res.fill_color@ == seq![255u8, 255u8, 255u8],
    {
        CanvasRatioConfig {
            enabled: false,
            ratio_w: default_ratio_w(),
            ratio_h: default_ratio_h(),
            fill_color: default_fill_color(),
        }
    }
}

/// Centers `img` on a `new_w` x `new_h` canvas of color `fill` (the left/top
/// margin is the smaller half of the padding); an image of that size already is
/// returned as it is.
pub fn pad_centered(img: &RgbBuffer, new_w: u32, new_h: u32, fill: [u8; 3]) -> (res: RgbBuffer)
    requires
        img.wf(),
        img.w() <= new_w,
        img.h() <= new_h,
        3 * (new_w * new_h) <= usize::MAX,
    ensures
        res.wf(),
        res.w() == new_w,
        res.h() == new_h,
        forall|x: int, y: int, c: int|
            0 <= x < new_w && 0 <= y < new_h && 0 <= c < 3 ==> #[trigger] res.at(x, y, c) == placed_byte(
                *img,
                (new_w - img.w()) / 2,
                (new_h - img.h()) / 2,
                fill,
                x,
                y,
                c,
            ),
{
    let (w, h) = img.dimensions();
    if new_w == w && new_h == h {
        let copy = place(img, w, h, 0, 0, fill);
        return copy;
    }
    let off_x = (new_w - w) / 2;
    let off_y = (new_h - h) / 2;
    place(img, new_w, new_h, off_x, off_y, fill)
}

/// The bytes of an image scaled to `nw` x `nh` with the Lanczos3 filter (the
/// image itself when it has that size already).
pub open spec fn scaled_bytes(img: RgbBuffer, nw: u32, nh: u32) -> Seq<u8> {
    if nw == img.w() && nh == img.h() {
        img.bytes()
    } else {
        resized_rgb(img.w() as u32, img.h() as u32, img.bytes(), nw, nh, true)
    }
}

/// Byte `c` of pixel (`x`, `y`) of a canvas of color `fill` with a `sw` x `sh`
/// image (row-major bytes `src`) copied onto it at (`ox`, `oy`).
pub open spec fn padded_byte(src: Seq<u8>, sw: nat, sh: nat, ox: int, oy: int, fill: [u8; 3], x: int, y: int, c: int) -> u8 {
    if ox <= x < ox + sw && oy <= y < oy + sh {
        px_byte(src, 3, sw, x - ox, y - oy, c)
    } else {
        fill[c]
    }
}

/// Scales `img` to `new_w` x `new_h` (a size that fits the target, worked out
/// by the caller from the aspect ratios) with the Lanczos3 filter, then centers
/// it on a `target_w` x `target_h` canvas of color `fill`.
pub fn fit_scaled(img: &RgbBuffer, new_w: u32, new_h: u32, target_w: u32, target_h: u32, fill: [u8; 3]) -> (res:
    RgbBuffer)
    requires
        img.wf(),
        1 <= new_w <= target_w,
        1 <= new_h <= target_h,
        3 * (target_w * target_h) <= usize::MAX,
    ensures
        res.wf(),
        res.w() == target_w,
        res.h() == target_h,
        forall|x: int, y: int, c: int|
            0 <= x < target_w && 0 <= y < target_h && 0 <= c < 3 ==> #[trigger] res.at(x, y, c) == padded_byte(
                scaled_bytes(*img, new_w, new_h),
                new_w as nat,
                new_h as nat,
                (target_w - new_w) / 2,
                (target_h - new_h) / 2,
                fill,
                x,
                y,
                c,
            ),
{
    proof {
        assert(new_w * new_h <= target_w * target_h) by (nonlinear_arith)
            requires
                1 <= new_w <= target_w,
                1 <= new_h <= target_h,
        ;
    }
    let scaled = resize_rgb(img, new_w, new_h, true);
    assert(scaled.bytes() == scaled_bytes(*img, new_w, new_h));
    if new_w == target_w && new_h == target_h {
        return scaled;
    }
    pad_centered(&scaled, target_w, target_h, fill)
}

} // verus!
