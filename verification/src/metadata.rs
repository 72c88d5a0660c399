//! EXIF (APP1) and ICC (APP2) preservation.
//!
//! Re-encoding a JPEG drops every segment that is not image data, so the EXIF
//! block and the ICC profile of the source are read from it first and written
//! into the encoded result afterwards, byte for byte. The JPEG segment handling
//! is the `img_parts` crate's.

use vstd::prelude::*;

use crate::error::WatermarkError;

verus! {

/// The `img_parts` JPEG, carried opaquely.
#[verifier::external_type_specification]
#[verifier::external_body]
pub struct ExJpeg(img_parts::jpeg::Jpeg);

/// The `img_parts` error type, carried opaquely.
#[verifier::external_type_specification]
#[verifier::external_body]
pub struct ExImgPartsError(img_parts::Error);

/// The std I/O error type, carried opaquely.
#[verifier::external_type_specification]
#[verifier::external_body]
pub struct ExIoError(std::io::Error);

/// The segments of a JPEG, in order, each as (marker, contents, entropy-coded
/// data).
pub uninterp spec fn jpeg_segments(j: img_parts::jpeg::Jpeg) -> Seq<(u8, Seq<u8>, Seq<u8>)>;

/// The segments that `Jpeg::from_bytes` reads from these bytes, or `None`
/// when it rejects them.
pub uninterp spec fn parsed_jpeg(bytes: Seq<u8>) -> Option<Seq<(u8, Seq<u8>, Seq<u8>)>>;

/// The bytes that the `img_parts` encoder writes for a JPEG with these segments.
pub uninterp spec fn jpeg_bytes(segs: Seq<(u8, Seq<u8>, Seq<u8>)>) -> Seq<u8>;

/// The ICC profile that `Jpeg::icc_profile` assembles from these segments.
pub uninterp spec fn icc_of(segs: Seq<(u8, Seq<u8>, Seq<u8>)>) -> Option<Seq<u8>>;

pub open spec fn exif_prefix() -> Seq<u8> {
    seq![0x45u8, 0x78u8, 0x69u8, 0x66u8, 0u8, 0u8]
}

pub open spec fn icc_prefix() -> Seq<u8> {
    seq![0x49u8, 0x43u8, 0x43u8, 0x5fu8, 0x50u8, 0x52u8, 0x4fu8, 0x46u8, 0x49u8, 0x4cu8, 0x45u8, 0u8]
}

/// An APP1 segment whose contents start with `Exif\0\0`.
pub open spec fn is_exif_seg(s: (u8, Seq<u8>, Seq<u8>)) -> bool {
    s.0 == 0xE1 && s.1.len() >= 6 && s.1.take(6) == exif_prefix()
}

/// An APP2 segment whose contents start with `ICC_PROFILE\0`.
pub open spec fn is_icc_seg(s: (u8, Seq<u8>, Seq<u8>)) -> bool {
    s.0 == 0xE2 && s.1.len() >= 12 && s.1.take(12) == icc_prefix()
}

/// The EXIF block of a JPEG (`ImageEXIF::exif`): the contents, after the
/// `Exif\0\0` marker, of its first EXIF segment.
pub open spec fn exif_of(segs: Seq<(u8, Seq<u8>, Seq<u8>)>) -> Option<Seq<u8>>
    decreases segs.len(),
{
    if segs.len() == 0 {
        None
    } else if is_exif_seg(segs[0]) {
        Some(segs[0].1.skip(6))
    } else {
        exif_of(segs.drop_first())
    }
}

/// The segments that are not EXIF segments, in order.
pub open spec fn without_exif(segs: Seq<(u8, Seq<u8>, Seq<u8>)>) -> Seq<(u8, Seq<u8>, Seq<u8>)>
    decreases segs.len(),
{
    if segs.len() == 0 {
        Seq::empty()
    } else if is_exif_seg(segs.last()) {
        without_exif(segs.drop_last())
    } else {
        without_exif(segs.drop_last()).push(segs.last())
    }
}

/// The segments that are not ICC segments, in order.
pub open spec fn without_icc(segs: Seq<(u8, Seq<u8>, Seq<u8>)>) -> Seq<(u8, Seq<u8>, Seq<u8>)>
    decreases segs.len(),
{
    if segs.len() == 0 {
        Seq::empty()
    } else if is_icc_seg(segs.last()) {
        without_icc(segs.drop_last())
    } else {
        without_icc(segs.drop_last()).push(segs.last())
    }
}

/// The segments after `ImageEXIF::set_exif(Some(e))`: every EXIF segment
/// removed, then a new one inserted at index 3.
pub open spec fn exif_set(segs: Seq<(u8, Seq<u8>, Seq<u8>)>, e: Seq<u8>) -> Seq<(u8, Seq<u8>, Seq<u8>)> {
    without_exif(segs).insert(3, (0xE1u8, exif_prefix() + e, Seq::<u8>::empty()))
}

/// How many APP2 segments `set_icc_profile` writes for a profile: one per
/// started 65519 bytes, counted in a `u8`.
pub open spec fn icc_count(p: Seq<u8>) -> nat {
    ((p.len() / 65519 + 1) % 256) as nat
}

/// The `k`-th (from zero) of `n` ICC segments for a profile: `ICC_PROFILE\0`,
/// its sequence number `k + 1`, the count `n`, then its share of the profile.
pub open spec fn icc_chunk(p: Seq<u8>, n: nat, k: nat) -> (u8, Seq<u8>, Seq<u8>) {
    let start = 65519 * k;
    let end = if p.len() < start + 65519 {
        p.len() as int
    } else {
        (start + 65519) as int
    };
    (
        0xE2u8,
        icc_prefix() + seq![(k + 1) as u8, n as u8] + p.subrange(start as int, end),
        Seq::<u8>::empty(),
    )
}

/// The ICC segments of a profile as `set_icc_profile` leaves them: each one
/// inserted at the same index, so the last comes first.
pub open spec fn icc_chunks(p: Seq<u8>) -> Seq<(u8, Seq<u8>, Seq<u8>)> {
    let n = icc_count(p);
    Seq::new(n, |i: int| icc_chunk(p, n, (n - 1 - i) as nat))
}

/// The segments after `ImageICC::set_icc_profile(Some(p))`: every ICC segment
/// removed, then the profile's segments put at index 3.
pub open spec fn icc_set(segs: Seq<(u8, Seq<u8>, Seq<u8>)>, p: Seq<u8>) -> Seq<
    (u8, Seq<u8>, Seq<u8>),
> {
    let w = without_icc(segs);
    w.take(3) + icc_chunks(p) + w.skip(3)
}

/// Every segment that starts like an ICC segment holds its two sequence bytes
/// (reading them from a shorter one panics in `img_parts`).
pub open spec fn icc_sound(segs: Seq<(u8, Seq<u8>, Seq<u8>)>) -> bool {
    forall|i: int| 0 <= i < segs.len() && #[trigger] is_icc_seg(segs[i]) ==> segs[i].1.len() >= 14
}

/// Markers that carry a length field in `img_parts`.
pub open spec fn has_length(m: u8) -> bool {
    (0xD0 <= m <= 0xD7) || (0xE0 <= m <= 0xEF) || (0xC0 <= m <= 0xCF) || m == 0xDA || m == 0xFE
        || m == 0xDB || m == 0xDD
}

/// A segment as `Jpeg::from_bytes` produces it: a real marker; empty when the
/// marker has no length field; contents that fit the 16-bit length; scan data
/// only on a start-of-scan segment.
pub open spec fn seg_ok(x: (u8, Seq<u8>, Seq<u8>)) -> bool {
    &&& x.0 != 0xFF
    &&& x.0 != 0xD9
    &&& !has_length(x.0) ==> x.1.len() == 0 && x.2.len() == 0
    &&& x.1.len() <= 65533
    &&& x.2.len() > 0 ==> x.0 == 0xDA
}

/// What every JPEG that `Jpeg::from_bytes` accepts looks like: its segments
/// are `seg_ok`, and only the last one may be a start of scan (the reader takes
/// everything after a scan header as scan data).
pub open spec fn parse_shape(segs: Seq<(u8, Seq<u8>, Seq<u8>)>) -> bool {
    &&& forall|i: int| 0 <= i < segs.len() ==> seg_ok(#[trigger] segs[i])
    &&& forall|i: int| 0 <= i < segs.len() - 1 ==> (#[trigger] segs[i]).0 != 0xDA
}

/// Every segment's contents fit its 16-bit length field.
pub open spec fn contents_fit(segs: Seq<(u8, Seq<u8>, Seq<u8>)>) -> bool {
    forall|i: int| 0 <= i < segs.len() ==> (#[trigger] segs[i]).1.len() <= 65533
}

/// Every segment with scan data also has contents (the `img_parts` encoder
/// writes a segment's scan data only after nonempty contents).
pub open spec fn framed_entropy(segs: Seq<(u8, Seq<u8>, Seq<u8>)>) -> bool {
    forall|i: int| 0 <= i < segs.len() ==> (#[trigger] segs[i]).2.len() > 0 ==> segs[i].1.len() > 0
}

/// A JPEG whose segments end with its scan, with a nonempty scan header and
/// nonempty scan data (the reader stops at a scan only when data follows it):
/// encoding it and reading the bytes back gives the same segments.
pub open spec fn ends_with_scan(segs: Seq<(u8, Seq<u8>, Seq<u8>)>) -> bool {
    &&& parse_shape(segs)
    &&& framed_entropy(segs)
    &&& segs.len() >= 1
    &&& segs.last().0 == 0xDA
    &&& segs.last().2.len() > 0
}

/// Trusted: `Jpeg::from_bytes(Bytes::from(bytes))` of `img_parts`. Its
/// result is named by `parsed_jpeg`, and what it accepts has the `parse_shape`
/// (it reads segments until EOI or a scan, taking the rest as scan data).
#[verifier::external_body]
fn jpeg_parse(bytes: Vec<u8>) -> (res: Result<img_parts::jpeg::Jpeg, img_parts::Error>)
    ensures
        res matches Ok(j) ==> parsed_jpeg(bytes@) == Some(jpeg_segments(j)) && parse_shape(
            jpeg_segments(j),
        ),
        res is Err ==> parsed_jpeg(bytes@) is None,
{
    img_parts::jpeg::Jpeg::from_bytes(img_parts::Bytes::from(bytes))
}

/// Trusted: `ImageEXIF::exif` of `img_parts` (the first EXIF segment's
/// contents after `Exif\0\0`), copied into a `Vec`.
#[verifier::external_body]
fn jpeg_exif(j: &img_parts::jpeg::Jpeg) -> (res: Option<Vec<u8>>)
    ensures
        res matches Some(v) ==> exif_of(jpeg_segments(*j)) == Some(v@),
        res is None ==> exif_of(jpeg_segments(*j)) is None,
{
    Some(img_parts::ImageEXIF::exif(j)?.to_vec())
}

/// Trusted: `Jpeg::segments` of `img_parts`, each segment taken as its
/// marker (`JpegSegment::marker`) and a copy of its contents
/// (`JpegSegment::contents`), in order.
#[verifier::external_body]
fn jpeg_heads(j: &img_parts::jpeg::Jpeg) -> (res: Vec<(u8, Vec<u8>)>)
    ensures
        res.len() == jpeg_segments(*j).len(),
        forall|i: int|
            0 <= i < res.len() ==> (#[trigger] res[i]).0 == jpeg_segments(*j)[i].0 && res[i].1@
                == jpeg_segments(*j)[i].1,
{
    let mut out = Vec::new();
    for seg in j.segments() {
        out.push((seg.marker(), seg.contents().to_vec()));
    }
    out
}

/// Trusted: `ImageICC::icc_profile` of `img_parts`, copied into a `Vec`; the
/// result is named by `icc_of`.
#[verifier::external_body]
fn jpeg_icc(j: &img_parts::jpeg::Jpeg) -> (res: Option<Vec<u8>>)
    requires
        icc_sound(jpeg_segments(*j)),
    ensures
        res matches Some(v) ==> icc_of(jpeg_segments(*j)) == Some(v@),
        res is None ==> icc_of(jpeg_segments(*j)) is None,
{
    Some(img_parts::ImageICC::icc_profile(j)?.to_vec())
}

/// Trusted: `ImageEXIF::set_exif(Some(..))` of `img_parts`: removes the EXIF
/// segments and inserts a new one at index 3 (which needs three segments to
/// remain). ICC segments are neither read nor moved relative to each other, so
/// the ICC profile stays as it was.
#[verifier::external_body]
fn jpeg_set_exif(j: &mut img_parts::jpeg::Jpeg, exif: Vec<u8>)
    requires
        without_exif(jpeg_segments(*old(j))).len() >= 3,
    ensures
        jpeg_segments(*final(j)) == exif_set(jpeg_segments(*old(j)), exif@),
        icc_of(jpeg_segments(*final(j))) == icc_of(jpeg_segments(*old(j))),
{
    img_parts::ImageEXIF::set_exif(j, Some(img_parts::Bytes::from(exif)))
}

/// Trusted: `ImageICC::set_icc_profile(Some(..))` of `img_parts`: removes the
/// ICC segments and inserts the profile's segments at index 3 (`icc_set`),
/// which needs three segments to remain. Its reader, `icc_profile`, sorts the
/// segments by sequence number and joins their shares, so a profile that
/// needs fewer than 256 segments reads back as itself.
#[verifier::external_body]
fn jpeg_set_icc(j: &mut img_parts::jpeg::Jpeg, profile: Vec<u8>)
    requires
        icc_sound(jpeg_segments(*old(j))),
        without_icc(jpeg_segments(*old(j))).len() >= 3,
    ensures
        jpeg_segments(*final(j)) == icc_set(jpeg_segments(*old(j)), profile@),
        profile@.len() < 255 * 65519 ==> icc_of(jpeg_segments(*final(j))) == Some(profile@),
{
    img_parts::ImageICC::set_icc_profile(j, Some(img_parts::Bytes::from(profile)))
}

/// Trusted: `Jpeg::encoder().write_to(Vec)` of `img_parts` (which needs every
/// segment's contents to fit its 16-bit length field). The bytes are named by
/// `jpeg_bytes`; for segments that end with the scan (`ends_with_scan`: the
/// encoder writes scan data only after a nonempty scan header), reading them
/// back gives the same segments (SOI, then each segment as marker, length,
/// contents and scan data).
#[verifier::external_body]
fn jpeg_encode(j: img_parts::jpeg::Jpeg) -> (res: Result<Vec<u8>, std::io::Error>)
    requires
        contents_fit(jpeg_segments(j)),
    ensures
        res is Ok,
        res matches Ok(b) ==> b@ == jpeg_bytes(jpeg_segments(j)),
        res matches Ok(b) ==> (ends_with_scan(jpeg_segments(j)) ==> parsed_jpeg(b@) == Some(
            jpeg_segments(j),
        )),
{
    let mut out = Vec::new();
    j.encoder().write_to(&mut out)?;
    Ok(out)
}

/// Trusted: the `Display` text of an `img_parts` error.
#[verifier::external_body]
fn jpeg_error_text(e: &img_parts::Error) -> String {
    e.to_string()
}

/// Trusted: the `Display` text of an I/O error.
#[verifier::external_body]
fn io_error_text(e: &std::io::Error) -> String {
    e.to_string()
}

/// The EXIF block and ICC profile of a photo.
#[derive(Debug, Clone, Default)]
pub struct Metadata {
    pub exif: Option<Vec<u8>>,
    pub icc: Option<Vec<u8>>,
}

pub open spec fn opt_view(o: Option<Vec<u8>>) -> Option<Seq<u8>> {
    match o {
        Some(v) => Some(v@),
        None => None,
    }
}

impl Metadata {
    /// No EXIF, no ICC (used when the source has neither or reading failed).
    pub fn empty() -> (res: Self)
        ensures
            res.exif is None,
            res.icc is None,
    {
        Metadata { exif: None, icc: None }
    }

    /// Whether there is anything to write back.
    pub fn has_any(&self) -> (res: bool)
        ensures
            res == (self.exif is Some || self.icc is Some),
    {
        self.exif.is_some() || self.icc.is_some()
    }
}

/// Reading the metadata of these bytes does not run into a truncated ICC
/// segment (which makes `img_parts` panic).
pub open spec fn extract_ok(src: Seq<u8>) -> bool {
    match parsed_jpeg(src) {
        Some(s) => icc_sound(s),
        None => true,
    }
}

fn copy_bytes(src: &[u8]) -> (res: Vec<u8>)
    ensures
        res@ == src@,
{
    let mut out: Vec<u8> = Vec::new();
    let mut i: usize = 0;
    while i < src.len()
        invariant
            0 <= i <= src@.len(),
            out@ =~= src@.take(i as int),
        decreases src@.len() - i,
    {
        out.push(src[i]);
        i = i + 1;
    }
    assert(src@.take(src@.len() as int) =~= src@);
    out
}

fn head_is_exif(m: u8, c: &Vec<u8>) -> (r: bool)
    ensures
        r == (m == 0xE1 && c@.len() >= 6 && c@.take(6) == exif_prefix()),
{
    let r = m == 0xE1 && c.len() >= 6 && c[0] == 0x45 && c[1] == 0x78 && c[2] == 0x69 && c[3] == 0x66
        && c[4] == 0 && c[5] == 0;
    proof {
        if c@.len() >= 6 {
            assert(r == (m == 0xE1 && c@.take(6) =~= exif_prefix()));
        }
    }
    r
}

fn head_is_icc(m: u8, c: &Vec<u8>) -> (r: bool)
    ensures
        r == (m == 0xE2 && c@.len() >= 12 && c@.take(12) == icc_prefix()),
{
    let r = m == 0xE2 && c.len() >= 12 && c[0] == 0x49 && c[1] == 0x43 && c[2] == 0x43 && c[3] == 0x5f
        && c[4] == 0x50 && c[5] == 0x52 && c[6] == 0x4f && c[7] == 0x46 && c[8] == 0x49 && c[9] == 0x4c
        && c[10] == 0x45 && c[11] == 0;
    proof {
        if c@.len() >= 12 {
            assert(r == (m == 0xE2 && c@.take(12) =~= icc_prefix()));
        }
    }
    r
}

/// The counts that decide whether writing metadata into a JPEG is safe, read
/// from its segments' markers and contents: the segments that are not EXIF,
/// those that are not ICC, those that are neither, and whether every ICC
/// segment is whole.
fn segment_counts(heads: &Vec<(u8, Vec<u8>)>, Ghost(segs): Ghost<Seq<(u8, Seq<u8>, Seq<u8>)>>) -> (res: (
    usize,
    usize,
    usize,
    bool,
))
    requires
        heads.len() == segs.len(),
        forall|i: int|
            0 <= i < heads.len() ==> (#[trigger] heads[i]).0 == segs[i].0 && heads[i].1@ == segs[i].1,
    ensures
        res.0 == without_exif(segs).len(),
        res.1 == without_icc(segs).len(),
        res.2 == without_icc(without_exif(segs)).len(),
        res.3 == icc_sound(segs),
{
    let mut ne: usize = 0;
    let mut ni: usize = 0;
    let mut nn: usize = 0;
    let mut sound = true;
    let mut i: usize = 0;
    while i < heads.len()
        invariant
            heads.len() == segs.len(),
            forall|k: int|
                0 <= k < heads.len() ==> (#[trigger] heads[k]).0 == segs[k].0 && heads[k].1@
                    == segs[k].1,
            0 <= i <= heads.len(),
            ne == without_exif(segs.take(i as int)).len(),
            ni == without_icc(segs.take(i as int)).len(),
            nn == without_icc(without_exif(segs.take(i as int))).len(),
            sound == icc_sound(segs.take(i as int)),
            ne <= i,
            ni <= i,
            nn <= i,
        decreases heads.len() - i,
    {
        let ghost pre = segs.take(i as int);
        let ghost cur = segs.take(i + 1);
        let ghost x = segs[i as int];
        assert(cur.drop_last() =~= pre);
        assert(cur.last() == x);
        proof {
            lemma_without_exif(pre);
            lemma_without_icc(pre);
            lemma_without_icc(without_exif(pre));
        }
        let m = heads[i].0;
        let ex = head_is_exif(m, &heads[i].1);
        let ic = head_is_icc(m, &heads[i].1);
        assert(ex == is_exif_seg(x));
        assert(ic == is_icc_seg(x));
        if !ex {
            ne = ne + 1;
            assert(without_exif(cur) == without_exif(pre).push(x));
            assert(without_exif(cur).drop_last() =~= without_exif(pre));
            if !ic {
                nn = nn + 1;
            }
        } else {
            assert(without_exif(cur) == without_exif(pre));
        }
        if !ic {
            ni = ni + 1;
        }
        if ic && heads[i].1.len() < 14 {
            sound = false;
        }
        proof {
            assert forall|k: int| 0 <= k < cur.len() implies cur[k] == segs[k] by {}
            if icc_sound(cur) {
                assert(forall|k: int| 0 <= k < pre.len() ==> pre[k] == cur[k]);
            }
            if icc_sound(pre) && !(ic && x.1.len() < 14) {
                assert forall|k: int| 0 <= k < cur.len() && #[trigger] is_icc_seg(cur[k]) implies cur[k].1.len() >= 14 by {
                    if k < pre.len() {
                        assert(cur[k] == pre[k]);
                    }
                }
            }
            if ic && x.1.len() < 14 {
                assert(cur[i as int] == x);
            }
        }
        i = i + 1;
    }
    assert(segs.take(heads.len() as int) =~= segs);
    (ne, ni, nn, sound)
}

/// Reads the EXIF block and the ICC profile of a JPEG.
pub fn extract(src_bytes: &[u8]) -> (res: Result<Metadata, WatermarkError>)
    requires
        extract_ok(src_bytes@),
    ensures
        res is Err <==> parsed_jpeg(src_bytes@) is None,
        res matches Err(e) ==> e is JpegParts,
        res matches Ok(m) ==> parsed_jpeg(src_bytes@) matches Some(s) && opt_view(m.exif) == exif_of(s)
            && opt_view(m.icc) == icc_of(s),
{
    match jpeg_parse(copy_bytes(src_bytes)) {
        Ok(j) => Ok(Metadata { exif: jpeg_exif(&j), icc: jpeg_icc(&j) }),
        Err(e) => Err(WatermarkError::JpegParts(jpeg_error_text(&e))),
    }
}

/// The segments that `inject` writes: the JPEG's own, with the metadata's EXIF
/// and then its ICC profile put in place of theirs.
pub open spec fn injected_segments(segs: Seq<(u8, Seq<u8>, Seq<u8>)>, meta: Metadata) -> Seq<
    (u8, Seq<u8>, Seq<u8>),
> {
    match meta.icc {
        Some(p) => icc_set(after_exif(segs, meta), p@),
        None => after_exif(segs, meta),
    }
}

/// Writing the metadata into these bytes runs into none of the `img_parts`
/// panics: at least three segments stay around each insertion point, no ICC
/// segment is truncated, and the EXIF block fits one segment.
pub open spec fn inject_ok(encoded: Seq<u8>, meta: Metadata) -> bool {
    match parsed_jpeg(encoded) {
        Some(s) => {
            &&& meta.exif matches Some(e) ==> without_exif(s).len() >= 3 && e@.len() <= 65527
            &&& meta.icc is Some ==> icc_sound(after_exif(s, meta)) && without_icc(
                after_exif(s, meta),
            ).len() >= 3
        },
        None => true,
    }
}

/// The segments after the metadata's EXIF block went in.
pub open spec fn after_exif(segs: Seq<(u8, Seq<u8>, Seq<u8>)>, meta: Metadata) -> Seq<
    (u8, Seq<u8>, Seq<u8>),
> {
    match meta.exif {
        Some(e) => exif_set(segs, e@),
        None => segs,
    }
}

/// A JPEG into which the metadata can be written so that it reads back: it
/// ends with its scan, four segments remain around each insertion point, and
/// the ICC profile needs fewer than 256 segments.
pub open spec fn reads_back_ready(segs: Seq<(u8, Seq<u8>, Seq<u8>)>, meta: Metadata) -> bool {
    &&& ends_with_scan(segs)
    &&& meta.exif is Some ==> without_exif(segs).len() >= 4
    &&& meta.icc is Some ==> without_icc(after_exif(segs, meta)).len() >= 4
    &&& meta.icc matches Some(p) ==> p@.len() < 255 * 65519
}

/// A JPEG as the `image` encoder writes it: it ends with its scan, has at
/// least four segments, and has no APP1 or APP2 segment.
pub open spec fn plain_jpeg(segs: Seq<(u8, Seq<u8>, Seq<u8>)>) -> bool {
    &&& ends_with_scan(segs)
    &&& segs.len() >= 4
    &&& forall|i: int| 0 <= i < segs.len() ==> (#[trigger] segs[i]).0 != 0xE1 && segs[i].0 != 0xE2
}

/// The metadata's EXIF block, if any, fits one APP1 segment.
pub open spec fn exif_fits(meta: Metadata) -> bool {
    meta.exif matches Some(e) ==> e@.len() <= 65527
}

/// The metadata's ICC profile, if any, needs fewer than 256 APP2 segments.
pub open spec fn icc_fits(meta: Metadata) -> bool {
    meta.icc matches Some(p) ==> p@.len() < 255 * 65519
}

proof fn lemma_no_exif_kept(s: Seq<(u8, Seq<u8>, Seq<u8>)>)
    requires
        forall|i: int| 0 <= i < s.len() ==> !is_exif_seg(#[trigger] s[i]),
    ensures
        without_exif(s) == s,
    decreases s.len(),
{
    if s.len() > 0 {
        let d = s.drop_last();
        assert(forall|i: int| 0 <= i < d.len() ==> d[i] == s[i]);
        lemma_no_exif_kept(d);
        assert(!is_exif_seg(s[s.len() - 1]));
        assert(d.push(s.last()) =~= s);
    }
}

proof fn lemma_no_icc_kept(s: Seq<(u8, Seq<u8>, Seq<u8>)>)
    requires
        forall|i: int| 0 <= i < s.len() ==> !is_icc_seg(#[trigger] s[i]),
    ensures
        without_icc(s) == s,
    decreases s.len(),
{
    if s.len() > 0 {
        let d = s.drop_last();
        assert(forall|i: int| 0 <= i < d.len() ==> d[i] == s[i]);
        lemma_no_icc_kept(d);
        assert(!is_icc_seg(s[s.len() - 1]));
        assert(d.push(s.last()) =~= s);
    }
}

/// What the metadata needs to go into a plain JPEG: writing it in is safe
/// exactly when its EXIF block fits one segment, and it reads back whenever
/// its ICC profile needs fewer than 256 segments.
pub proof fn lemma_plain_jpeg_ready(s: Seq<(u8, Seq<u8>, Seq<u8>)>, bytes: Seq<u8>, meta: Metadata)
    requires
        parsed_jpeg(bytes) == Some(s),
        plain_jpeg(s),
    ensures
        inject_ok(bytes, meta) <==> exif_fits(meta),
        icc_fits(meta) ==> reads_back_ready(s, meta),
{
    assert forall|i: int| 0 <= i < s.len() implies !is_exif_seg(#[trigger] s[i]) by {
        assert(s[i].0 != 0xE1);
    }
    lemma_no_exif_kept(s);
    let a = after_exif(s, meta);
    assert forall|i: int| 0 <= i < a.len() implies !is_icc_seg(#[trigger] a[i]) by {
        match meta.exif {
            Some(e) => {
                assert(a == s.insert(3, (0xE1u8, exif_prefix() + e@, Seq::<u8>::empty())));
                if i < 3 {
                    assert(a[i] == s[i]);
                } else if i > 3 {
                    assert(a[i] == s[i - 1]);
                }
            },
            None => {},
        }
    }
    lemma_no_icc_kept(a);
    assert(a.len() >= s.len());
}

/// What reading the written JPEG gives: the metadata's EXIF block and ICC
/// profile, and the JPEG's own where the metadata has none.
pub open spec fn reads_back(t: Seq<(u8, Seq<u8>, Seq<u8>)>, segs: Seq<(u8, Seq<u8>, Seq<u8>)>, meta: Metadata) -> bool {
    &&& exif_of(t) == match meta.exif {
        Some(e) => Some(e@),
        None => exif_of(segs),
    }
    &&& icc_of(t) == match meta.icc {
        Some(p) => Some(p@),
        None => icc_of(segs),
    }
}

/// Writes the metadata's EXIF block and ICC profile into an encoded JPEG;
/// with neither, the bytes come back unchanged.
///
/// When the JPEG ends with its scan and keeps at least four segments around
/// each insertion point, reading the result gives back exactly the metadata's
/// EXIF and ICC (and the JPEG's own where the metadata has none).
pub fn inject(encoded_jpeg: Vec<u8>, meta: &Metadata) -> (res: Result<Vec<u8>, WatermarkError>)
    requires
        inject_ok(encoded_jpeg@, *meta),
    ensures
        !(meta.exif is Some || meta.icc is Some) ==> (res matches Ok(b) && b@ == encoded_jpeg@),
        (meta.exif is Some || meta.icc is Some) && parsed_jpeg(encoded_jpeg@) is None ==> (res matches Err(
            e,
        ) && e is JpegParts),
        (meta.exif is Some || meta.icc is Some) ==> (parsed_jpeg(encoded_jpeg@) matches Some(s) ==> (
        res matches Ok(b) && b@ == jpeg_bytes(injected_segments(s, *meta)))),
        (meta.exif is Some || meta.icc is Some) ==> (parsed_jpeg(encoded_jpeg@) matches Some(s) ==> (
        reads_back_ready(s, *meta) ==> (res matches Ok(b) && parsed_jpeg(b@) matches Some(t) && reads_back(
            t,
            s,
            *meta,
        )))),
{
    if !meta.has_any() {
        return Ok(encoded_jpeg);
    }
    let mut jpeg = match jpeg_parse(encoded_jpeg) {
        Ok(j) => j,
        Err(e) => return Err(WatermarkError::JpegParts(jpeg_error_text(&e))),
    };
    let ghost s = jpeg_segments(jpeg);
    if let Some(exif) = &meta.exif {
        let e = exif.clone();
        jpeg_set_exif(&mut jpeg, e);
        proof {
            lemma_exif_set_facts(s, exif@);
        }
    }
    let ghost s1 = jpeg_segments(jpeg);
    if let Some(icc) = &meta.icc {
        let p = icc.clone();
        jpeg_set_icc(&mut jpeg, p);
        proof {
            lemma_icc_set_shape(s1, icc@);
        }
    }
    match jpeg_encode(jpeg) {
        Ok(out) => Ok(out),
        Err(e) => Err(WatermarkError::Io(io_error_text(&e))),
    }
}

proof fn lemma_without_exif(s: Seq<(u8, Seq<u8>, Seq<u8>)>)
    ensures
        forall|i: int| 0 <= i < without_exif(s).len() ==> !is_exif_seg(#[trigger] without_exif(s)[i]),
        contents_fit(s) ==> contents_fit(without_exif(s)),
        framed_entropy(s) ==> framed_entropy(without_exif(s)),
        parse_shape(s) ==> parse_shape(without_exif(s)),
        without_exif(s).len() <= s.len(),
        s.len() > 0 && !is_exif_seg(s.last()) ==> without_exif(s).len() > 0 && without_exif(s).last()
            == s.last(),
        icc_sound(s) ==> icc_sound(without_exif(s)),
    decreases s.len(),
{
    if s.len() > 0 {
        let d = s.drop_last();
        lemma_without_exif(d);
        assert(contents_fit(s) ==> contents_fit(d));
        assert(framed_entropy(s) ==> framed_entropy(d));
        assert(icc_sound(s) ==> icc_sound(d));
        assert(parse_shape(s) ==> parse_shape(d) && forall|i: int| 0 <= i < d.len() ==> (#[trigger] d[i]).0 != 0xDA);
        if parse_shape(s) {
            assert(forall|i: int| 0 <= i < without_exif(d).len() ==> (#[trigger] without_exif(d)[i]).0 != 0xDA) by {
                lemma_subseq_no_scan(d, without_exif(d));
            }
        }
    }
}

proof fn lemma_without_icc(s: Seq<(u8, Seq<u8>, Seq<u8>)>)
    ensures
        forall|i: int| 0 <= i < without_icc(s).len() ==> !is_icc_seg(#[trigger] without_icc(s)[i]),
        contents_fit(s) ==> contents_fit(without_icc(s)),
        framed_entropy(s) ==> framed_entropy(without_icc(s)),
        parse_shape(s) ==> parse_shape(without_icc(s)),
        without_icc(s).len() <= s.len(),
        s.len() > 0 && !is_icc_seg(s.last()) ==> without_icc(s).len() > 0 && without_icc(s).last()
            == s.last(),
        exif_of(without_icc(s)) == exif_of(s),
    decreases s.len(),
{
    if s.len() > 0 {
        let d = s.drop_last();
        lemma_without_icc(d);
        assert(contents_fit(s) ==> contents_fit(d));
        assert(framed_entropy(s) ==> framed_entropy(d));
        assert(parse_shape(s) ==> parse_shape(d) && forall|i: int| 0 <= i < d.len() ==> (#[trigger] d[i]).0 != 0xDA);
        if parse_shape(s) {
            assert(forall|i: int| 0 <= i < without_icc(d).len() ==> (#[trigger] without_icc(d)[i]).0 != 0xDA) by {
                lemma_subseq_no_scan_icc(d);
            }
        }
        lemma_exif_of_push(d, s.last());
        lemma_exif_of_push(without_icc(d), s.last());
        assert(d.push(s.last()) =~= s);
    }
}

proof fn lemma_subseq_no_scan(d: Seq<(u8, Seq<u8>, Seq<u8>)>, w: Seq<(u8, Seq<u8>, Seq<u8>)>)
    requires
        w == without_exif(d),
        forall|i: int| 0 <= i < d.len() ==> (#[trigger] d[i]).0 != 0xDA,
    ensures
        forall|i: int| 0 <= i < w.len() ==> (#[trigger] w[i]).0 != 0xDA,
    decreases d.len(),
{
    if d.len() > 0 {
        lemma_subseq_no_scan(d.drop_last(), without_exif(d.drop_last()));
    }
}

proof fn lemma_subseq_no_scan_icc(d: Seq<(u8, Seq<u8>, Seq<u8>)>)
    requires
        forall|i: int| 0 <= i < d.len() ==> (#[trigger] d[i]).0 != 0xDA,
    ensures
        forall|i: int| 0 <= i < without_icc(d).len() ==> (#[trigger] without_icc(d)[i]).0 != 0xDA,
    decreases d.len(),
{
    if d.len() > 0 {
        let e = d.drop_last();
        assert(forall|i: int| 0 <= i < e.len() ==> e[i] == d[i]);
        lemma_subseq_no_scan_icc(e);
        assert(d.last().0 != 0xDA);
        let w = without_icc(e);
        if !is_icc_seg(d.last()) {
            assert(without_icc(d) == w.push(d.last()));
            assert(forall|i: int| 0 <= i < w.len() ==> w.push(d.last())[i] == w[i]);
        }
    }
}

proof fn lemma_exif_of_push(s: Seq<(u8, Seq<u8>, Seq<u8>)>, x: (u8, Seq<u8>, Seq<u8>))
    ensures
        exif_of(s.push(x)) == if exif_of(s) is Some {
            exif_of(s)
        } else if is_exif_seg(x) {
            Some(x.1.skip(6))
        } else {
            None
        },
{
    let one = seq![x];
    lemma_exif_of_concat(s, one);
    assert(s + one =~= s.push(x));
    assert(one.drop_first() =~= Seq::<(u8, Seq<u8>, Seq<u8>)>::empty());
    assert(exif_of(Seq::<(u8, Seq<u8>, Seq<u8>)>::empty()) is None);
    assert(one[0] == x);
    assert(exif_of(one) == if is_exif_seg(x) {
        Some(x.1.skip(6))
    } else {
        exif_of(one.drop_first())
    });
}

proof fn lemma_exif_of_at(t: Seq<(u8, Seq<u8>, Seq<u8>)>, k: int)
    requires
        0 <= k < t.len(),
        is_exif_seg(t[k]),
        forall|j: int| 0 <= j < k ==> !is_exif_seg(#[trigger] t[j]),
    ensures
        exif_of(t) == Some(t[k].1.skip(6)),
    decreases k,
{
    if k > 0 {
        lemma_exif_of_at(t.drop_first(), k - 1);
    }
}

/// The segments after setting the EXIF block: their contents still fit, the
/// EXIF block reads back, the ICC segments are still whole, and a JPEG that
/// ended with its scan still does when four segments remained.
proof fn lemma_exif_set_facts(s: Seq<(u8, Seq<u8>, Seq<u8>)>, e: Seq<u8>)
    requires
        contents_fit(s),
        without_exif(s).len() >= 3,
        e.len() <= 65527,
    ensures
        contents_fit(exif_set(s, e)),
        exif_of(exif_set(s, e)) == Some(e),
        ends_with_scan(s) && without_exif(s).len() >= 4 ==> ends_with_scan(exif_set(s, e)),
{
    lemma_without_exif(s);
    let w = without_exif(s);
    let x = (0xE1u8, exif_prefix() + e, Seq::<u8>::empty());
    let t = exif_set(s, e);
    assert(t == w.insert(3, x));
    assert(t.len() == w.len() + 1);
    assert forall|i: int| 0 <= i < t.len() implies (#[trigger] t[i]).1.len() <= 65533 by {
        if i < 3 {
            assert(t[i] == w[i]);
        } else if i == 3 {
            assert(t[i] == x);
        } else {
            assert(t[i] == w[i - 1]);
        }
    }
    assert((exif_prefix() + e).take(6) =~= exif_prefix());
    assert(is_exif_seg(x));
    assert forall|j: int| 0 <= j < 3 implies !is_exif_seg(#[trigger] t[j]) by {
        assert(t[j] == w[j]);
    }
    lemma_exif_of_at(t, 3);
    assert((exif_prefix() + e).skip(6) =~= e);
    if ends_with_scan(s) && w.len() >= 4 {
        assert(!is_exif_seg(s.last()));
        assert forall|i: int| 0 <= i < t.len() implies seg_ok(#[trigger] t[i]) by {
            if i < 3 {
                assert(t[i] == w[i]);
            } else if i == 3 {
                assert(t[i] == x);
            } else {
                assert(t[i] == w[i - 1]);
            }
        }
        assert forall|i: int| 0 <= i < t.len() - 1 implies (#[trigger] t[i]).0 != 0xDA by {
            if i < 3 {
                assert(t[i] == w[i]);
            } else if i == 3 {
                assert(t[i] == x);
            } else {
                assert(t[i] == w[i - 1]);
            }
        }
        assert(t.last() == w.last());
    }
}

proof fn lemma_exif_of_concat(a: Seq<(u8, Seq<u8>, Seq<u8>)>, b: Seq<(u8, Seq<u8>, Seq<u8>)>)
    ensures
        exif_of(a + b) == if exif_of(a) is Some {
            exif_of(a)
        } else {
            exif_of(b)
        },
    decreases a.len(),
{
    if a.len() == 0 {
        assert(a + b =~= b);
    } else {
        assert((a + b).drop_first() =~= a.drop_first() + b);
        assert((a + b)[0] == a[0]);
        lemma_exif_of_concat(a.drop_first(), b);
    }
}

proof fn lemma_exif_of_none(c: Seq<(u8, Seq<u8>, Seq<u8>)>)
    requires
        forall|i: int| 0 <= i < c.len() ==> !is_exif_seg(#[trigger] c[i]),
    ensures
        exif_of(c) is None,
    decreases c.len(),
{
    if c.len() > 0 {
        assert(forall|i: int| 0 <= i < c.drop_first().len() ==> c.drop_first()[i] == c[i + 1]);
        lemma_exif_of_none(c.drop_first());
    }
}

/// Each share of the profile starts within it: `65519 * k <= len` for every
/// segment index `k` below the count.
proof fn lemma_icc_share_start(len: nat, k: nat)
    requires
        k < (len / 65519 + 1) % 256,
    ensures
        65519 * k <= len,
{
    assert((len / 65519 + 1) % 256 <= len / 65519 + 1);
    assert(k <= len / 65519);
    assert(65519 * k <= 65519 * (len / 65519)) by (nonlinear_arith)
        requires
            k <= len / 65519,
    ;
    assert(65519 * (len / 65519) <= len) by (nonlinear_arith);
}

/// The segments after setting the ICC profile: their contents still fit, the
/// EXIF block is the one before, and a JPEG that ended with its scan still
/// does when four segments remained.
proof fn lemma_icc_set_shape(s1: Seq<(u8, Seq<u8>, Seq<u8>)>, p: Seq<u8>)
    requires
        contents_fit(s1),
        without_icc(s1).len() >= 3,
    ensures
        contents_fit(icc_set(s1, p)),
        exif_of(icc_set(s1, p)) == exif_of(s1),
        ends_with_scan(s1) && without_icc(s1).len() >= 4 ==> ends_with_scan(icc_set(s1, p)),
{
    lemma_without_icc(s1);
    let w = without_icc(s1);
    let c = icc_chunks(p);
    let n = icc_count(p);
    let t = icc_set(s1, p);
    assert(t == w.take(3) + c + w.skip(3));
    assert(t.len() == w.len() + n);
    assert forall|k: int| 0 <= k < n implies (#[trigger] c[k]).0 == 0xE2 && c[k].1.len() <= 65533
        && c[k].2.len() == 0 by {
        let kk = (n - 1 - k) as nat;
        lemma_icc_share_start(p.len(), kk);
        let start = 65519 * kk;
        let end = if p.len() < start + 65519 {
            p.len() as int
        } else {
            (start + 65519) as int
        };
        assert(c[k] == icc_chunk(p, n, kk));
        assert(p.subrange(start as int, end).len() <= 65519);
    }
    assert forall|i: int| 0 <= i < t.len() implies (#[trigger] t[i]).1.len() <= 65533 by {
        if i < 3 {
            assert(t[i] == w[i]);
        } else if i < 3 + n {
            assert(t[i] == c[i - 3]);
        } else {
            assert(t[i] == w[i - n]);
        }
    }
    lemma_exif_of_none(c);
    lemma_exif_of_concat(w.take(3), c);
    lemma_exif_of_concat(w.take(3) + c, w.skip(3));
    lemma_exif_of_concat(w.take(3), w.skip(3));
    assert(w.take(3) + w.skip(3) =~= w);
    if ends_with_scan(s1) && w.len() >= 4 {
        assert(!is_icc_seg(s1.last()));
        assert forall|i: int| 0 <= i < t.len() implies seg_ok(#[trigger] t[i]) && (i < t.len() - 1
            ==> t[i].0 != 0xDA) by {
            if i < 3 {
                assert(t[i] == w[i]);
            } else if i < 3 + n {
                assert(t[i] == c[i - 3]);
                assert(has_length(t[i].0));
            } else {
                assert(t[i] == w[i - n]);
            }
        }
        assert(t.last() == w.last());
    }
}

proof fn lemma_icc_sound_without_exif(s: Seq<(u8, Seq<u8>, Seq<u8>)>)
    ensures
        icc_sound(without_exif(s)) == icc_sound(s),
    decreases s.len(),
{
    if s.len() > 0 {
        let d = s.drop_last();
        lemma_icc_sound_without_exif(d);
        let w = without_exif(d);
        assert(forall|k: int| 0 <= k < d.len() ==> d[k] == s[k]);
        if is_exif_seg(s.last()) {
            assert(!is_icc_seg(s.last()));
            if icc_sound(d) {
                assert forall|k: int| 0 <= k < s.len() && #[trigger] is_icc_seg(s[k]) implies s[k].1.len()
                    >= 14 by {
                    if k < d.len() {
                        assert(s[k] == d[k]);
                    }
                }
            }
        } else {
            assert(without_exif(s) == w.push(s.last()));
            let t = w.push(s.last());
            assert(forall|k: int| 0 <= k < w.len() ==> t[k] == w[k]);
            if icc_sound(s) {
                assert(icc_sound(d));
                assert forall|k: int| 0 <= k < t.len() && #[trigger] is_icc_seg(t[k]) implies t[k].1.len()
                    >= 14 by {
                    if k < w.len() {
                        assert(t[k] == w[k]);
                    } else {
                        assert(t[k] == s[s.len() - 1]);
                    }
                }
            }
            if icc_sound(t) {
                assert(icc_sound(w));
                assert forall|k: int| 0 <= k < s.len() && #[trigger] is_icc_seg(s[k]) implies s[k].1.len()
                    >= 14 by {
                    if k < d.len() {
                        assert(s[k] == d[k]);
                    } else {
                        assert(t[w.len() as int] == s[k]);
                    }
                }
            }
        }
    }
}

proof fn lemma_without_icc_insert(a: Seq<(u8, Seq<u8>, Seq<u8>)>, k: int, x: (u8, Seq<u8>, Seq<u8>))
    requires
        0 <= k <= a.len(),
        !is_icc_seg(x),
    ensures
        without_icc(a.insert(k, x)).len() == without_icc(a).len() + 1,
    decreases a.len(),
{
    let b = a.insert(k, x);
    if k == a.len() {
        assert(b.drop_last() =~= a);
        assert(b.last() == x);
    } else {
        assert(b.drop_last() =~= a.drop_last().insert(k, x));
        assert(b.last() == a.last());
        lemma_without_icc_insert(a.drop_last(), k, x);
    }
}

/// Writing the EXIF block in changes neither whether the ICC segments are
/// whole nor which segments are ICC segments; it adds one segment that is not.
proof fn lemma_after_exif_counts(s: Seq<(u8, Seq<u8>, Seq<u8>)>, e: Seq<u8>)
    requires
        without_exif(s).len() >= 3,
    ensures
        icc_sound(exif_set(s, e)) == icc_sound(s),
        without_icc(exif_set(s, e)).len() == without_icc(without_exif(s)).len() + 1,
{
    let w = without_exif(s);
    let x = (0xE1u8, exif_prefix() + e, Seq::<u8>::empty());
    let t = w.insert(3, x);
    assert(exif_set(s, e) == t);
    lemma_icc_sound_without_exif(s);
    lemma_without_icc_insert(w, 3, x);
    assert(!is_icc_seg(x));
    if icc_sound(w) {
        assert forall|k: int| 0 <= k < t.len() && #[trigger] is_icc_seg(t[k]) implies t[k].1.len() >= 14 by {
            if k < 3 {
                assert(t[k] == w[k]);
            } else if k > 3 {
                assert(t[k] == w[k - 1]);
            }
        }
    }
    if icc_sound(t) {
        assert forall|k: int| 0 <= k < w.len() && #[trigger] is_icc_seg(w[k]) implies w[k].1.len() >= 14 by {
            if k < 3 {
                assert(t[k] == w[k]);
            } else {
                assert(t[k + 1] == w[k]);
            }
        }
    }
}

/// Reads the EXIF block and the ICC profile of a JPEG, as `extract` does,
/// where that is safe: `None` for a JPEG with a truncated ICC segment, on which
/// the segment reader of `img_parts` would panic.
pub fn extract_checked(src_bytes: &[u8]) -> (res: Option<Result<Metadata, WatermarkError>>)
    ensures
        res is None <==> !extract_ok(src_bytes@),
        res matches Some(r) ==> (r is Err <==> parsed_jpeg(src_bytes@) is None),
        res matches Some(r) ==> (r matches Err(e) ==> e is JpegParts),
        res matches Some(r) ==> (r matches Ok(m) ==> (parsed_jpeg(src_bytes@) matches Some(s) && opt_view(m.exif)
            == exif_of(s) && opt_view(m.icc) == icc_of(s))),
{
    match jpeg_parse(copy_bytes(src_bytes)) {
        Ok(j) => {
            let heads = jpeg_heads(&j);
            let counts = segment_counts(&heads, Ghost(jpeg_segments(j)));
            if counts.3 {
                Some(extract(src_bytes))
            } else {
                None
            }
        },
        Err(_) => Some(extract(src_bytes)),
    }
}

/// Writes the metadata into an encoded JPEG, as `inject` does, where that is
/// safe: `None` where `img_parts` would panic (fewer than three segments
/// around an insertion point, a truncated ICC segment, or an EXIF block too
/// long for one segment).
pub fn inject_checked(encoded_jpeg: Vec<u8>, meta: &Metadata) -> (res: Option<Result<Vec<u8>, WatermarkError>>)
    ensures
        res is None <==> !inject_ok(encoded_jpeg@, *meta),
        res matches Some(r) ==> (!(meta.exif is Some || meta.icc is Some) ==> (r matches Ok(b) && b@
            == encoded_jpeg@)),
        res matches Some(r) ==> ((meta.exif is Some || meta.icc is Some) && parsed_jpeg(encoded_jpeg@) is None
            ==> (r matches Err(e) && e is JpegParts)),
        res matches Some(r) ==> ((meta.exif is Some || meta.icc is Some) ==> (parsed_jpeg(encoded_jpeg@) matches Some(s)
            ==> (r matches Ok(b) && b@ == jpeg_bytes(injected_segments(s, *meta))))),
        res matches Some(r) ==> ((meta.exif is Some || meta.icc is Some) ==> (parsed_jpeg(encoded_jpeg@) matches Some(s)
            ==> (reads_back_ready(s, *meta) ==> (r matches Ok(b) && parsed_jpeg(b@) matches Some(t)
            && reads_back(t, s, *meta))))),
{
    if !meta.has_any() {
        return Some(inject(encoded_jpeg, meta));
    }
    let j = match jpeg_parse(copy_bytes(encoded_jpeg.as_slice())) {
        Ok(j) => j,
        Err(_) => return Some(inject(encoded_jpeg, meta)),
    };
    let ghost s = jpeg_segments(j);
    let heads = jpeg_heads(&j);
    let counts = segment_counts(&heads, Ghost(s));
    let (non_exif, non_icc, neither, sound) = counts;
    match &meta.exif {
        Some(e) => {
            if non_exif < 3 || e.len() > 65527 {
                return None;
            }
            proof {
                lemma_after_exif_counts(s, e@);
            }
            if meta.icc.is_some() && (!sound || neither < 2) {
                return None;
            }
        },
        None => {
            if meta.icc.is_some() && (!sound || non_icc < 3) {
                return None;
            }
        },
    }
    Some(inject(encoded_jpeg, meta))
}

} // verus!
