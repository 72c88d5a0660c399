//! Watermark Studio: the verified core of a batch signature-watermark tool for
//! photographers.
//!
//! The library holds the placement arithmetic, the text templates, the EXIF tag
//! selection, the pixel-buffer operations that need no floating point, the
//! boundaries to the `image` and `img_parts` crates (decoding, compositing,
//! encoding, EXIF/ICC preservation), the export steps and the calendar date of
//! output names, the preset list and the folder-watch bookkeeping, each with
//! its contract.

pub mod batch;
pub mod canvas_expand;
pub mod codec;
pub mod commands;
pub mod error;
pub mod exif_text;
pub mod export;
pub mod frame;
pub mod metadata;
pub mod pixels;
pub mod position;
pub mod preset;
pub mod tags;
pub mod template;
pub mod text;
pub mod watch;
pub mod watermark;
