//! The checks and summaries behind the application's commands: the liveness
//! probe, the argument checks of a batch export and of saving a preset, the
//! progress report and the summary of a batch, and the thumbnail encoding.

use vstd::prelude::*;

use crate::batch::ItemResult;
use crate::codec::{encode_jpeg, jpeg_encoded, resize_rgb, resized_rgb};
use crate::error::WatermarkError;
use crate::pixels::RgbBuffer;
use crate::text::{trim, trimmed};

verus! {

/// Quality of the JPEG thumbnails.
pub const THUMBNAIL_QUALITY: u8 = 78;

/// The answer to the front end's liveness probe.
pub fn ping() -> (res: String)
    ensures
        res@ == "pong from Rust"@,
{
    "pong from Rust".to_owned()
}

/// Progress of a batch, reported after each file: how many are done out of how
/// many, the file's name, and whether it succeeded.
#[derive(Debug, Clone)]
pub struct BatchProgress {
    pub done: usize,
    pub total: usize,
    pub filename: String,
    pub ok: bool,
}

/// The result of a batch export: counts and the per-file results.
#[derive(Debug)]
pub struct BatchSummary {
    pub total: usize,
    pub success: usize,
    pub failed: usize,
    pub items: Vec<ItemResult>,
}

/// How many of the results carry no error.
pub open spec fn success_count(items: Seq<ItemResult>) -> nat
    decreases items.len(),
{
    if items.len() == 0 {
        0
    } else {
        success_count(items.drop_last()) + if items.last().error is None {
            1nat
        } else {
            0nat
        }
    }
}

proof fn lemma_success_count_bound(items: Seq<ItemResult>)
    ensures
        success_count(items) <= items.len(),
    decreases items.len(),
{
    if items.len() > 0 {
        lemma_success_count_bound(items.drop_last());
    }
}

/// Sums up the per-file results of a batch: a file succeeded when its result
/// carries no error.
pub fn summarize(items: Vec<ItemResult>) -> (res: BatchSummary)
    ensures
        res.total == items@.len(),
        res.success == success_count(items@),
        res.failed == items@.len() - success_count(items@),
        res.items@ == items@,
{
    let mut success: usize = 0;
    let mut i: usize = 0;
    while i < items.len()
        invariant
            0 <= i <= items@.len(),
            success == success_count(items@.take(i as int)),
            success <= i,
        decreases items@.len() - i,
    {
        assert(items@.take(i + 1).drop_last() =~= items@.take(i as int));
        if items[i].error.is_none() {
            success = success + 1;
        }
        i = i + 1;
    }
    assert(items@.take(items@.len() as int) =~= items@);
    let total = items.len();
    BatchSummary { total, success, failed: total - success, items }
}

/// The message of the error for an empty list of photos.
pub open spec fn empty_input_message() -> Seq<char> {
    "输入照片列表为空"@
}

/// The message of the error for a preset without a name.
pub open spec fn empty_preset_name_message() -> Seq<char> {
    "预设名称不能为空"@
}

/// A batch export needs at least one photo.
pub fn check_batch_inputs(input_paths: &Vec<String>) -> (res: Result<(), WatermarkError>)
    ensures
        res is Ok <==> input_paths@.len() > 0,
        res matches Err(e) ==> (e matches WatermarkError::InvalidParam(m) && m@ == empty_input_message()),
{
    if input_paths.len() == 0 {
        proof {
            reveal_strlit("输入照片列表为空");
        }
        return Err(WatermarkError::InvalidParam("输入照片列表为空".to_owned()));
    }
    Ok(())
}

/// A preset needs a name that is not only white space.
pub fn check_preset_name(name: &str) -> (res: Result<(), WatermarkError>)
    ensures
        res is Ok <==> trimmed(name@).len() > 0,
        res matches Err(e) ==> (e matches WatermarkError::InvalidParam(m) && m@
            == empty_preset_name_message()),
{
    if trim(name).as_str().is_empty() {
        proof {
            reveal_strlit("预设名称不能为空");
        }
        return Err(WatermarkError::InvalidParam("预设名称不能为空".to_owned()));
    }
    Ok(())
}

/// A thumbnail: the image scaled to `tw` x `th` with the fast Triangle filter,
/// encoded as JPEG of `THUMBNAIL_QUALITY`.
pub fn encode_thumbnail(img: &RgbBuffer, tw: u32, th: u32) -> (res: Result<Vec<u8>, WatermarkError>)
    requires
        img.wf(),
        3 * (tw * th) <= usize::MAX,
    ensures
        res matches Ok(b) ==> b@ == jpeg_encoded(
            tw,
            th,
            resized_rgb(img.w() as u32, img.h() as u32, img.bytes(), tw, th, false),
            THUMBNAIL_QUALITY,
        ),
        res matches Err(e) ==> e is Image,
        res is Ok <==> (1 <= tw <= 65535 && 1 <= th <= 65535),
{
    let small = resize_rgb(img, tw, th, false);
    encode_jpeg(&small, THUMBNAIL_QUALITY)
}

} // verus!
