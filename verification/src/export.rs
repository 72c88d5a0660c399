//! Export controls: output format, lossy quality, long-side limit and exact
//! target size. They belong to one export run and are not kept in presets.

use vstd::prelude::*;

verus! {

/// Output file format.
#[derive(Debug, Clone, Copy, PartialEq, Eq, Structural, Default)]
pub enum OutputFormat {
    #[default]
    Jpeg,
    Png,
    Webp,
}

/// The file extension (without dot) of a format.
pub open spec fn extension_of(f: OutputFormat) -> Seq<char> {
    match f {
        OutputFormat::Jpeg => "jpg"@,
        OutputFormat::Png => "png"@,
        OutputFormat::Webp => "webp"@,
    }
}

impl OutputFormat {
    /// The file extension (without dot) of this format.
    pub fn extension(&self) -> (res: &'static str)
        ensures
            res@ == extension_of(*self),
    {
        match self {
            OutputFormat::Jpeg => "jpg",
            OutputFormat::Png => "png",
            OutputFormat::Webp => "webp",
        }
    }
}

/// Per-run export parameters.
#[derive(Debug, Clone)]
pub struct ExportOptions {
    /// Upper bound of the long side in pixels; `None` keeps the size.
    pub max_long_side: Option<u32>,
    /// Lossy quality 1-100 (JPEG, WebP).
    pub quality: u8,
    pub format: OutputFormat,
    /// Exact output size (width, height): fit inside, then pad.
    pub target_size: Option<(u32, u32)>,
    /// Fill color of the padding for `target_size`.
    pub target_fill_color: [u8; 3],
}

fn default_quality() -> (res: u8)
    ensures
        res == 95,
{
    95
}

fn default_target_fill_color() -> (res: [u8; 3])
    ensures
        res@ == seq![255u8, 255u8, 255u8],
{
    [255, 255, 255]
}

impl Default for ExportOptions {
    /// Unscaled, JPEG at quality 95, white padding.
    fn default() -> (res: Self)
        ensures
            res.max_long_side is None,
            res.quality == 95,
            res.format == OutputFormat::Jpeg,
            res.target_size is None,
            res.target_fill_color@ == seq![255u8, 255u8, 255u8],
    {
        ExportOptions {
            max_long_side: None,
            quality: default_quality(),
            format: OutputFormat::Jpeg,
            target_size: None,
            target_fill_color: default_target_fill_color(),
        }
    }
}

} // verus!
