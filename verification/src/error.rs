use vstd::prelude::*;

verus! {

/// Errors of the watermark pipeline.
///
/// Failures reported by outside crates are carried as their message text.
#[derive(Debug)]
pub enum WatermarkError {
    /// Reading or writing a file failed.
    Io(String),
    /// Decoding or encoding an image failed.
    Image(String),
    /// Splitting a JPEG into its segments failed.
    JpegParts(String),
    /// (De)serialising JSON failed.
    Json(String),
    /// A parameter lies outside its accepted range.
    InvalidParam(String),
    /// The watermark is larger than the photo it should be placed on.
    WatermarkTooLarge { img_w: u32, img_h: u32, wm_w: u32, wm_h: u32 },
}

} // verus!
