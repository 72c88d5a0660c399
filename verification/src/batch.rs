//! The export steps of a batch: the long-side limit, encoding in the output
//! format with the metadata written back, output file names (with the calendar
//! date of a timestamp), and per-file results.
//!
//! Reading and writing the files, and the parallel run over them, belong to
//! the caller.

use vstd::prelude::*;

use crate::codec::{encode_jpeg, encode_png, encode_webp, jpeg_encoded, png_encoded, resize_rgb, resized_rgb, webp_encoded};
use crate::error::WatermarkError;
use crate::exif_text::{decimal, decimal_chars};
use crate::export::ExportOptions;
use crate::metadata::{
    exif_fits, icc_fits, inject_checked, injected_segments, jpeg_bytes, lemma_plain_jpeg_ready, parsed_jpeg,
    plain_jpeg, reads_back, Metadata,
};
use crate::pixels::RgbBuffer;
use crate::export::{extension_of, OutputFormat};
use crate::template::close_index;
use crate::text::{chars_of, push_str_chars, string_from_chars};

verus! {

/// Outcome of one file of a batch: its input path, and either the output path
/// or the error message.
#[derive(Debug, Clone)]
pub struct ItemResult {
    pub input: String,
    pub output: Option<String>,
    pub error: Option<String>,
}

/// `s` left-padded with `0` to at least `width` characters.
pub open spec fn zero_padded(s: Seq<char>, width: nat) -> Seq<char> {
    if s.len() >= width {
        s
    } else {
        Seq::new((width - s.len()) as nat, |i: int| '0') + s
    }
}

/// What a file-name placeholder becomes: `{stem}`, `{n}` (3-digit zero-padded
/// sequence number) and `{date}` are replaced, any other is kept.
pub open spec fn name_placeholder(key: Seq<char>, stem: Seq<char>, n: nat, date: Seq<char>) -> Seq<char> {
    if key == "stem"@ {
        stem
    } else if key == "n"@ {
        zero_padded(decimal(n), 3)
    } else if key == "date"@ {
        date
    } else {
        seq!['{'] + key + seq!['}']
    }
}

/// The file name made from a template. Placeholders run from a `{` to the first
/// `}` after it; an unclosed `{` stands for itself; every other character is
/// kept as it is.
pub open spec fn file_name_of(t: Seq<char>, stem: Seq<char>, n: nat, date: Seq<char>) -> Seq<char>
    decreases t.len(),
{
    if t.len() == 0 {
        Seq::empty()
    } else if t[0] == '{' {
        let rest = t.drop_first();
        let e = close_index(rest);
        if e < rest.len() {
            name_placeholder(rest.take(e as int), stem, n, date) + file_name_of(
                rest.skip(e + 1 as int),
                stem,
                n,
                date,
            )
        } else {
            seq!['{'] + file_name_of(rest, stem, n, date)
        }
    } else {
        seq![t[0]] + file_name_of(t.drop_first(), stem, n, date)
    }
}

fn zero_pad(s: Vec<char>, width: usize) -> (res: Vec<char>)
    ensures
        res@ == zero_padded(s@, width as nat),
{
    if s.len() >= width {
        return s;
    }
    let mut out: Vec<char> = Vec::new();
    let pad = width - s.len();
    let mut i: usize = 0;
    while i < pad
        invariant
            0 <= i <= pad,
            pad == width - s@.len(),
            out@ =~= Seq::new(i as nat, |j: int| '0'),
        decreases pad - i,
    {
        out.push('0');
        i = i + 1;
    }
    let mut k: usize = 0;
    while k < s.len()
        invariant
            0 <= k <= s@.len(),
            pad == width - s@.len(),
            out@ =~= Seq::new(pad as nat, |j: int| '0') + s@.take(k as int),
        decreases s@.len() - k,
    {
        out.push(s[k]);
        k = k + 1;
    }
    assert(s@.take(s@.len() as int) =~= s@);
    out
}

fn same_chars(a: &Vec<char>, b: &str) -> (res: bool)
    ensures
        res == (a@ == b@),
{
    let bv = chars_of(b);
    if a.len() != bv.len() {
        return false;
    }
    let mut i: usize = 0;
    while i < a.len()
        invariant
            0 <= i <= a@.len(),
            a@.len() == bv@.len(),
            bv@ == b@,
            forall|j: int| 0 <= j < i ==> a@[j] == bv@[j],
        decreases a@.len() - i,
    {
        if a[i] != bv[i] {
            return false;
        }
        i = i + 1;
    }
    assert(a@ =~= bv@);
    true
}

/// Makes an output file name (without extension) from `template`: `{stem}` is
/// the input's file stem, `{n}` the 1-based sequence number padded to three
/// digits, `{date}` the given date stamp; other text is kept.
pub fn apply_template(template: &str, stem: &str, n: usize, date: &str) -> (res: String)
    ensures
        res@ == file_name_of(template@, stem@, n as nat, date@),
{
    let t = chars_of(template);
    let mut out: Vec<char> = Vec::new();
    let mut pos: usize = 0;
    assert(t@.skip(0) =~= t@);
    while pos < t.len()
        invariant
            pos <= t@.len(),
            t@ == template@,
            out@ + file_name_of(t@.skip(pos as int), stem@, n as nat, date@) == file_name_of(
                t@,
                stem@,
                n as nat,
                date@,
            ),
        decreases t@.len() - pos,
    {
        let ghost tail = t@.skip(pos as int);
        assert(tail[0] == t@[pos as int]);
        assert(tail.drop_first() =~= t@.skip(pos + 1));
        let ghost before = out@;
        if t[pos] == '{' {
            let mut end: usize = pos + 1;
            while end < t.len() && t[end] != '}'
                invariant
                    pos + 1 <= end <= t@.len(),
                    forall|j: int| pos + 1 <= j < end ==> t@[j] != '}',
                decreases t@.len() - end,
            {
                end = end + 1;
            }
            let ghost rest = t@.skip(pos + 1);
            proof {
                assert forall|j: int| 0 <= j < end - pos - 1 implies rest[j] != '}' by {
                    assert(rest[j] == t@[pos + 1 + j]);
                }
                crate::template::lemma_close_index_at(rest, end - pos - 1);
            }
            if end < t.len() {
                let mut key: Vec<char> = Vec::new();
                let mut k: usize = pos + 1;
                while k < end
                    invariant
                        pos + 1 <= k <= end,
                        end < t@.len(),
                        key@ =~= t@.subrange(pos + 1, k as int),
                    decreases end - k,
                {
                    key.push(t[k]);
                    k = k + 1;
                }
                if same_chars(&key, "stem") {
                    push_str_chars(&mut out, stem);
                } else if same_chars(&key, "n") {
                    let d = zero_pad(decimal_chars(n as u64), 3);
                    let mut q: usize = 0;
                    while q < d.len()
                        invariant
                            0 <= q <= d@.len(),
                            out@ =~= before + d@.take(q as int),
                        decreases d@.len() - q,
                    {
                        out.push(d[q]);
                        q = q + 1;
                    }
                    assert(d@.take(d@.len() as int) =~= d@);
                } else if same_chars(&key, "date") {
                    push_str_chars(&mut out, date);
                } else {
                    out.push('{');
                    let mut q: usize = 0;
                    while q < key.len()
                        invariant
                            0 <= q <= key@.len(),
                            out@ =~= before + seq!['{'] + key@.take(q as int),
                        decreases key@.len() - q,
                    {
                        out.push(key[q]);
                        q = q + 1;
                    }
                    out.push('}');
                }
                proof {
                    assert(rest.take(end - pos - 1) =~= key@);
                    assert(rest.skip(end - pos) =~= t@.skip(end + 1));
                    assert(out@ =~= before + name_placeholder(key@, stem@, n as nat, date@));
                    assert(out@ + file_name_of(t@.skip(end + 1), stem@, n as nat, date@) =~= before
                        + file_name_of(tail, stem@, n as nat, date@));
                }
                pos = end + 1;
            } else {
                out.push('{');
                proof {
                    assert(out@ + file_name_of(t@.skip(pos + 1), stem@, n as nat, date@) =~= before
                        + file_name_of(tail, stem@, n as nat, date@));
                }
                pos = pos + 1;
            }
        } else {
            out.push(t[pos]);
            proof {
                assert(out@ + file_name_of(t@.skip(pos + 1), stem@, n as nat, date@) =~= before
                    + file_name_of(tail, stem@, n as nat, date@));
            }
            pos = pos + 1;
        }
    }
    assert(t@.skip(pos as int) =~= Seq::<char>::empty());
    assert(out@ + Seq::<char>::empty() =~= out@);
    string_from_chars(&out)
}

/// The length of one side after scaling the long side `long` down to `max`:
/// `side * max / long` rounded half up, and at least 1.
pub open spec fn scaled_side(side: nat, max: nat, long: nat) -> nat {
    let r = (2 * (side * max) + long) / (2 * long);
    if r < 1 {
        1
    } else {
        r
    }
}

/// The size an image is scaled to under a long-side limit: `None` when it is
/// within the limit already (or the limit is zero, or the image is empty).
pub open spec fn long_side_target(w: nat, h: nat, max: nat) -> Option<(nat, nat)> {
    let long = if w >= h {
        w
    } else {
        h
    };
    if w == 0 || h == 0 || max == 0 || long <= max {
        None
    } else {
        Some((scaled_side(w, max, long), scaled_side(h, max, long)))
    }
}

fn scale_side(side: u32, max: u32, long: u32) -> (res: u32)
    requires
        1 <= side <= long,
        max < long,
    ensures
        res == scaled_side(side as nat, max as nat, long as nat),
        res <= side,
{
    proof {
        assert(side * max <= 0xffff_ffff_ffff_ffff) by (nonlinear_arith)
            requires
                side <= 0xffff_ffff,
                max <= 0xffff_ffff,
        ;
    }
    let sm: u128 = (side as u128) * (max as u128);
    let num: u128 = 2 * sm + long as u128;
    let den: u128 = 2 * (long as u128);
    let r = num / den;
    proof {
        assert(num < den * (side + 1)) by (nonlinear_arith)
            requires
                num == 2 * (side * max) + long,
                den == 2 * long,
                max < long,
                side >= 1,
        ;
        assert(r <= side) by (nonlinear_arith)
            requires
                r == num / den,
                num < den * (side + 1),
                den > 0,
        ;
    }
    if r < 1 {
        1
    } else {
        r as u32
    }
}

/// Scales an image down so that its long side is `max_long_side`, keeping the
/// aspect ratio (Lanczos3); `None` when there is no limit or the image is
/// within it.
pub fn maybe_resize(img: &RgbBuffer, max_long_side: Option<u32>) -> (res: Option<RgbBuffer>)
    requires
        img.wf(),
    ensures
        max_long_side is None ==> res is None,
        max_long_side matches Some(m) ==> (res is Some <==> long_side_target(img.w(), img.h(), m as nat)
            is Some),
        res matches Some(out) ==> max_long_side matches Some(m) && long_side_target(
            img.w(),
            img.h(),
            m as nat,
        ) == Some((out.w(), out.h())) && out.wf() && out.bytes() == resized_rgb(
            img.w() as u32,
            img.h() as u32,
            img.bytes(),
            out.w() as u32,
            out.h() as u32,
            true,
        ),
        res matches Some(out) ==> out.w() <= img.w() && out.h() <= img.h(),
{
    let max = match max_long_side {
        Some(m) => m,
        None => return None,
    };
    let (w, h) = img.dimensions();
    let long = if w >= h {
        w
    } else {
        h
    };
    if w == 0 || h == 0 || max == 0 || long <= max {
        return None;
    }
    let nw = scale_side(w, max, long);
    let nh = scale_side(h, max, long);
    let n = img.as_raw().len();
    proof {
        img.lemma_len();
        assert(nw * nh <= w * h) by (nonlinear_arith)
            requires
                nw <= w,
                nh <= h,
        ;
    }
    Some(resize_rgb(img, nw, nh, true))
}

/// A long-side limit, where it applies, brings the long side exactly to the
/// limit and the short side to at least one pixel, never above its old length.
pub proof fn lemma_long_side_limit(w: nat, h: nat, max: nat)
    requires
        long_side_target(w, h, max) is Some,
    ensures
        ({
            let (nw, nh) = long_side_target(w, h, max)->0;
            &&& w >= h ==> nw == max
            &&& h > w ==> nh == max
            &&& 1 <= nw <= w
            &&& 1 <= nh <= h
        }),
{
    let long = if w >= h {
        w
    } else {
        h
    };
    assert(2 * (long * max) + long == max * (2 * long) + long) by (nonlinear_arith);
    vstd::arithmetic::div_mod::lemma_fundamental_div_mod_converse(
        (2 * (long * max) + long) as int,
        (2 * long) as int,
        max as int,
        long as int,
    );
    assert forall|side: nat| 1 <= side <= long implies scaled_side(side, max, long) <= side by {
        let q = (2 * (side * max) + long) / (2 * long);
        assert(2 * (side * max) + long < (2 * long) * (side + 1)) by (nonlinear_arith)
            requires
                max < long,
                side >= 1,
        ;
        assert(q <= side) by (nonlinear_arith)
            requires
                q == (2 * (side * max) + long) / (2 * long),
                2 * (side * max) + long < (2 * long) * (side + 1),
                long > 0,
        ;
    }
}

/// The bytes of an image encoded in the output format (JPEG at the given
/// quality, PNG, or lossless WebP).
pub open spec fn final_encoding(img: RgbBuffer, format: OutputFormat, quality: u8) -> Seq<u8> {
    match format {
        OutputFormat::Jpeg => jpeg_encoded(img.w() as u32, img.h() as u32, img.bytes(), quality),
        OutputFormat::Png => png_encoded(img.w() as u32, img.h() as u32, img.bytes()),
        OutputFormat::Webp => webp_encoded(img.w() as u32, img.h() as u32, img.bytes()),
    }
}

/// The image sizes that each output format's encoder accepts.
pub open spec fn encodable(format: OutputFormat, w: nat, h: nat) -> bool {
    match format {
        OutputFormat::Jpeg => 1 <= w <= 65535 && 1 <= h <= 65535,
        OutputFormat::Png => w >= 1 && h >= 1,
        OutputFormat::Webp => 1 <= w <= 16384 && 1 <= h <= 16384,
    }
}

/// Encodes an image in the export format; it fails exactly on the sizes that
/// format does not take.
pub fn encode_final(img: &RgbBuffer, opts: &ExportOptions) -> (res: Result<Vec<u8>, WatermarkError>)
    requires
        img.wf(),
    ensures
        res matches Ok(b) ==> b@ == final_encoding(*img, opts.format, opts.quality),
        res matches Ok(b) ==> (opts.format == OutputFormat::Jpeg ==> (parsed_jpeg(b@) matches Some(s)
            && plain_jpeg(s))),
        res matches Ok(b) ==> (opts.format == OutputFormat::Jpeg ==> b@ == jpeg_encoded(
            img.w() as u32,
            img.h() as u32,
            img.bytes(),
            opts.quality,
        )),
        res matches Ok(b) ==> (opts.format == OutputFormat::Png ==> b@ == png_encoded(
            img.w() as u32,
            img.h() as u32,
            img.bytes(),
        )),
        res matches Ok(b) ==> (opts.format == OutputFormat::Webp ==> b@ == webp_encoded(
            img.w() as u32,
            img.h() as u32,
            img.bytes(),
        )),
        res matches Err(e) ==> e is Image,
        res is Ok <==> encodable(opts.format, img.w(), img.h()),
{
    match opts.format {
        OutputFormat::Jpeg => encode_jpeg(img, opts.quality),
        OutputFormat::Png => encode_png(img),
        OutputFormat::Webp => encode_webp(img),
    }
}

/// The bytes written for one exported image: encoded in the export format,
/// and for JPEG with the source's EXIF block and ICC profile written back.
///
/// `None` where writing the metadata back would make `img_parts` panic (see
/// `inject_checked`): for the encoder's JPEG, exactly when the EXIF block is
/// too long for one segment. Reading the written JPEG gives back the
/// metadata's EXIF block and ICC profile whenever the profile needs fewer
/// than 256 segments.
pub fn export_bytes(img: &RgbBuffer, meta: &Metadata, opts: &ExportOptions) -> (res: Option<
    Result<Vec<u8>, WatermarkError>,
>)
    requires
        img.wf(),
    ensures
        res is None <==> (opts.format == OutputFormat::Jpeg && encodable(opts.format, img.w(), img.h())
            && !exif_fits(*meta)),
        !encodable(opts.format, img.w(), img.h()) ==> (res matches Some(r) && r matches Err(e) && e is Image),
        encodable(opts.format, img.w(), img.h()) && (opts.format != OutputFormat::Jpeg || exif_fits(*meta)) ==> (
        res matches Some(r) && r is Ok),
        res matches Some(r) ==> (r matches Ok(b) ==> (opts.format != OutputFormat::Jpeg || !(meta.exif is Some
            || meta.icc is Some) ==> b@ == final_encoding(*img, opts.format, opts.quality))),
        res matches Some(r) ==> (r matches Ok(b) ==> (opts.format == OutputFormat::Jpeg && !(meta.exif is Some
            || meta.icc is Some) ==> b@ == jpeg_encoded(img.w() as u32, img.h() as u32, img.bytes(), opts.quality))),
        res matches Some(r) ==> (r matches Ok(b) ==> (opts.format == OutputFormat::Jpeg && (meta.exif is Some
            || meta.icc is Some) ==> (parsed_jpeg(jpeg_encoded(img.w() as u32, img.h() as u32, img.bytes(), opts.quality))
            matches Some(s) && b@ == jpeg_bytes(injected_segments(s, *meta))))),
        res matches Some(r) ==> (r matches Ok(b) ==> (opts.format == OutputFormat::Jpeg && (meta.exif is Some
            || meta.icc is Some) ==> (parsed_jpeg(final_encoding(*img, opts.format, opts.quality)) matches Some(s)
            && b@ == jpeg_bytes(injected_segments(s, *meta))))),
        res matches Some(r) ==> (r matches Ok(b) ==> (opts.format == OutputFormat::Jpeg && (meta.exif is Some
            || meta.icc is Some) && icc_fits(*meta) ==> (parsed_jpeg(final_encoding(*img, opts.format, opts.quality))
            matches Some(s) && parsed_jpeg(b@) matches Some(t) && reads_back(t, s, *meta)))),
{
    let encoded = match encode_final(img, opts) {
        Ok(b) => b,
        Err(e) => return Some(Err(e)),
    };
    if opts.format == OutputFormat::Jpeg {
        proof {
            let s = parsed_jpeg(encoded@)->0;
            lemma_plain_jpeg_ready(s, encoded@, *meta);
        }
        inject_checked(encoded, meta)
    } else {
        Some(Ok(encoded))
    }
}

/// The output file name: the name made from the template, a `.`, and the
/// format's extension.
pub fn output_file_name(template: &str, stem: &str, n: usize, date: &str, format: OutputFormat) -> (res:
    String)
    ensures
        res@ == file_name_of(template@, stem@, n as nat, date@) + seq!['.'] + extension_of(format),
{
    let name = apply_template(template, stem, n, date);
    let mut out = chars_of(name.as_str());
    out.push('.');
    push_str_chars(&mut out, format.extension());
    string_from_chars(&out)
}

/// The day number of a proleptic Gregorian date, counted from 0000-03-01
/// (day 0): whole 400-year eras of 146097 days, then the years of the era
/// (365 days each, one more every 4th year but not every 100th), then the
/// months counted from March (their lengths 31, 30, 31, 30, 31, 31, 30, 31, 30,
/// 31, 31, 28/29 sum to `(153 * mp + 2) / 5` before month `mp`), then the day.
pub open spec fn days_from_civil(y: int, m: int, d: int) -> int {
    let y2 = if m <= 2 {
        y - 1
    } else {
        y
    };
    let era = y2 / 400;
    let yoe = y2 - era * 400;
    let mp = if m > 2 {
        m - 3
    } else {
        m + 9
    };
    let doy = (153 * mp + 2) / 5 + d - 1;
    let doe = yoe * 365 + yoe / 4 - yoe / 100 + doy;
    era * 146097 + doe
}

/// Whether `y` is a Gregorian leap year.
pub open spec fn is_leap_year(y: int) -> bool {
    y % 4 == 0 && (y % 100 != 0 || y % 400 == 0)
}

/// The number of days of month `m` (1-12) of year `y`.
pub open spec fn days_in_month(y: int, m: int) -> int {
    if m == 2 {
        if is_leap_year(y) {
            29
        } else {
            28
        }
    } else if m == 4 || m == 6 || m == 9 || m == 11 {
        30
    } else {
        31
    }
}

/// The day (from 0, counted from March 1) on which year `yoe` of a 400-year
/// era starts.
pub open spec fn year_start(yoe: int) -> int {
    365 * yoe + yoe / 4 - yoe / 100
}

/// The year of an era that a day of it falls in: every day `doe` of the era
/// lies between the start of its year and the start of the next (the era's
/// last day, the 400th year's leap day, one past it).
#[verifier::spinoff_prover]
#[verifier::rlimit(50)]
proof fn lemma_year_of_era(doe: int)
    requires
        0 <= doe <= 146096,
    ensures
        ({
            let yoe = (doe - doe / 1460 + doe / 36524 - doe / 146096) / 365;
            &&& 0 <= yoe <= 399
            &&& year_start(yoe) <= doe
            &&& doe < year_start(yoe + 1) || (yoe == 399 && doe == 146096)
        }),
{
}

/// The month (from March, `mp`) and day that a day `doy` of a March-based
/// year falls on: the day lies within the month, and only the year's 366th
/// day is a February 29.
#[verifier::spinoff_prover]
#[verifier::rlimit(50)]
proof fn lemma_month_of_year(doy: int)
    requires
        0 <= doy <= 365,
    ensures
        ({
            let mp = (5 * doy + 2) / 153;
            let d = doy - (153 * mp + 2) / 5 + 1;
            let m = if mp < 10 {
                mp + 3
            } else {
                mp - 9
            };
            &&& 0 <= mp <= 11
            &&& 1 <= d
            &&& mp != 11 ==> d <= days_in_month(1, m)
            &&& mp == 11 ==> d <= 29 && (d == 29 ==> doy == 365)
        }),
{
}

/// The era that `civil_from_days` picks for a day number is the one that
/// contains it.
proof fn lemma_era_contains(z: int, era: int)
    requires
        era == if z >= 0 {
            z / 146097
        } else {
            -((146096 - z) / 146097)
        },
    ensures
        era * 146097 <= z < era * 146097 + 146097,
{
    if z < 0 {
        let n = 146096 - z;
        assert(n == 146097 * (n / 146097) + n % 146097);
    }
}

/// A year of an era that ends with a 366-day March-based year, or the era's
/// last year, is followed by a leap year.
proof fn lemma_leap_after(era: int, yoe: int)
    requires
        0 <= yoe <= 399,
        year_start(yoe + 1) - year_start(yoe) == 366 || yoe == 399,
    ensures
        is_leap_year(era * 400 + yoe + 1),
{
    let k = yoe + 1;
    vstd::arithmetic::div_mod::lemma_fundamental_div_mod_converse(era * 400 + k, 4, era * 100 + k / 4, k % 4);
    vstd::arithmetic::div_mod::lemma_fundamental_div_mod_converse(era * 400 + k, 100, era * 4 + k / 100, k % 100);
    vstd::arithmetic::div_mod::lemma_fundamental_div_mod_converse(era * 400 + k, 400, era + k / 400, k % 400);
}

/// The steps of `civil_from_days` give a valid date whose day number is `z`.
#[verifier::spinoff_prover]
#[verifier::rlimit(50)]
proof fn lemma_civil_steps(z: int, era: int, doe: int, yoe: int, doy: int, mp: int, d: int, m: int, y: int)
    requires
        era * 146097 <= z < era * 146097 + 146097,
        doe == z - era * 146097,
        yoe == (doe - doe / 1460 + doe / 36524 - doe / 146096) / 365,
        doy == doe - (365 * yoe + yoe / 4 - yoe / 100),
        mp == (5 * doy + 2) / 153,
        d == doy - (153 * mp + 2) / 5 + 1,
        m == if mp < 10 {
            mp + 3
        } else {
            mp - 9
        },
        y == if m <= 2 {
            yoe + era * 400 + 1
        } else {
            yoe + era * 400
        },
    ensures
        1 <= m <= 12,
        1 <= d <= days_in_month(y, m),
        days_from_civil(y, m, d) == z,
{
    lemma_year_of_era(doe);
    assert(doy == doe - year_start(yoe));
    lemma_month_of_year(doy);
    if mp == 11 && d == 29 {
        lemma_leap_after(era, yoe);
    }
    let y2 = if m <= 2 {
        y - 1
    } else {
        y
    };
    vstd::arithmetic::div_mod::lemma_fundamental_div_mod_converse(y2, 400, era, yoe);
}

/// The date of day number `days` (counted from 0000-03-01) as (year, month,
/// day): the valid date whose day number it is.
#[verifier::spinoff_prover]
#[verifier::rlimit(40)]
pub fn civil_from_days(days: i64) -> (res: (i64, i64, i64))
    requires
        days >= i64::MIN + 146097,
    ensures
        1 <= res.1 <= 12,
        1 <= res.2 <= days_in_month(res.0 as int, res.1 as int),
        days_from_civil(res.0 as int, res.1 as int, res.2 as int) == days,
{
    let z = days;
    let ghost zi = z as int;
    let era = (if z >= 0 {
        z
    } else {
        z - 146096
    }) / 146097;
    let doe = (z - era * 146097) as u64;
    let yoe = (doe - doe / 1460 + doe / 36524 - doe / 146096) / 365;
    let y = yoe as i64 + era * 400;
    let doy = doe - (365 * yoe + yoe / 4 - yoe / 100);
    let mp = (5 * doy + 2) / 153;
    let d = doy - (153 * mp + 2) / 5 + 1;
    let m = if mp < 10 {
        mp + 3
    } else {
        mp - 9
    };
    let y = if m <= 2 {
        y + 1
    } else {
        y
    };
    proof {
        lemma_era_contains(zi, era as int);
        lemma_civil_steps(zi, era as int, doe as int, yoe as int, doy as int, mp as int, d as int, m as int, y as int);
    }
    (y, m as i64, d as i64)
}

/// The `YYYYMMDD` stamp of a date (each part zero-padded, the year to at least
/// four digits).
pub open spec fn date_digits(y: nat, m: nat, d: nat) -> Seq<char> {
    zero_padded(decimal(y), 4) + zero_padded(decimal(m), 2) + zero_padded(decimal(d), 2)
}

/// The `YYYYMMDD` stamp of the UTC day that `unix_secs` seconds after
/// 1970-01-01T00:00:00Z fall on (leap seconds not counted).
pub fn date_stamp(unix_secs: u64) -> (res: String)
    ensures
        exists|y: int, m: int, d: int|
            1 <= m <= 12 && 1 <= d <= days_in_month(y, m) && days_from_civil(y, m, d) == unix_secs
                / 86400 + 719468 && y >= 0 && res@ == date_digits(y as nat, m as nat, d as nat),
{
    let days = (unix_secs / 86400) as i64 + 719468;
    let (y, m, d) = civil_from_days(days);
    proof {
        assert(y >= 0) by {
            if y < 0 {
                assert(days_from_civil(y as int, m as int, d as int) < 0);
            }
        }
    }
    let mut out = zero_pad(decimal_chars(y as u64), 4);
    let mm = zero_pad(decimal_chars(m as u64), 2);
    let dd = zero_pad(decimal_chars(d as u64), 2);
    let mut i: usize = 0;
    let ghost base = out@;
    while i < mm.len()
        invariant
            0 <= i <= mm@.len(),
            out@ == base + mm@.take(i as int),
        decreases mm@.len() - i,
    {
        out.push(mm[i]);
        i = i + 1;
    }
    assert(mm@.take(mm@.len() as int) =~= mm@);
    let ghost base2 = out@;
    let mut k: usize = 0;
    while k < dd.len()
        invariant
            0 <= k <= dd@.len(),
            out@ == base2 + dd@.take(k as int),
        decreases dd@.len() - k,
    {
        out.push(dd[k]);
        k = k + 1;
    }
    assert(dd@.take(dd@.len() as int) =~= dd@);
    let res = string_from_chars(&out);
    assert(res@ == date_digits(y as nat, m as nat, d as nat));
    res
}

} // verus!
