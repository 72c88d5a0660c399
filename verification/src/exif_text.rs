//! EXIF text watermark: which camera parameters are read from the EXIF block,
//! how the text template is filled, and which text (if any) gets rendered.
//!
//! Glyph rendering and the float-valued parameters (aperture, focal length,
//! exposure time, font size) are left to the caller.

use vstd::prelude::*;

use crate::position::GridPosition;
use crate::tags::ExifTags;
use crate::template::{fill_template, fill_template_exec};
use crate::text::{chars_of, trim, trimmed};

verus! {

/// Directory context of an EXIF tag.
#[derive(Debug, Clone, Copy, PartialEq, Eq)]
pub enum TagContext {
    Tiff,
    Exif,
    Gps,
    Interop,
    /// A context that a later `exif` release may add.
    Other,
}

/// The value of an EXIF field, in the types the tag selection reads.
#[derive(Debug, Clone)]
pub enum FieldValue {
    Byte(Vec<u8>),
    Ascii(Vec<Vec<u8>>),
    Short(Vec<u16>),
    Long(Vec<u32>),
    /// Unsigned rationals as (numerator, denominator).
    Rational(Vec<(u32, u32)>),
    Other,
}

/// One EXIF field: its tag (context and number) and its value.
#[derive(Debug, Clone)]
pub struct ExifField {
    pub context: TagContext,
    pub number: u16,
    pub value: FieldValue,
}

/// The fields that the `exif` crate reads from a TIFF-structured EXIF payload,
/// in its order, or `None` when it rejects the payload.
pub uninterp spec fn exif_fields_of(payload: Seq<u8>) -> Option<Seq<ExifField>>;

/// Trusted: `exif::Reader::read_raw` on `payload`, then `Exif::fields`, each
/// field converted one for one; the result is named by `exif_fields_of`.
#[verifier::external_body]
fn read_exif_fields(payload: Vec<u8>) -> (res: Option<Vec<ExifField>>)
    ensures
        res matches Some(v) ==> exif_fields_of(payload@) == Some(v@),
        res is None ==> exif_fields_of(payload@) is None,
{
    let data = exif::Reader::new().read_raw(payload).ok()?;
    let mut out = Vec::new();
    for f in data.fields() {
        out.push(field_model(f));
    }
    Some(out)
}

/// The `exif` crate's field type, carried opaquely.
#[verifier::external_type_specification]
#[verifier::external_body]
pub struct ExExifField(exif::Field);

/// Converts an `exif::Field` into the library's field type, variant for variant.
#[verifier::external_body]
fn field_model(f: &exif::Field) -> ExifField {
    let value = match &f.value {
        exif::Value::Byte(v) => FieldValue::Byte(v.clone()),
        exif::Value::Ascii(v) => FieldValue::Ascii(v.clone()),
        exif::Value::Short(v) => FieldValue::Short(v.clone()),
        exif::Value::Long(v) => FieldValue::Long(v.clone()),
        exif::Value::Rational(v) => FieldValue::Rational(v.iter().map(|r| (r.num, r.denom)).collect()),
        _ => FieldValue::Other,
    };
    ExifField { context: context_model(f), number: f.tag.1, value }
}

/// Converts the context of an `exif::Field`'s tag into the library's context type.
#[verifier::external_body]
fn context_model(f: &exif::Field) -> TagContext {
    match f.tag.0 {
        exif::Context::Tiff => TagContext::Tiff,
        exif::Context::Exif => TagContext::Exif,
        exif::Context::Gps => TagContext::Gps,
        exif::Context::Interop => TagContext::Interop,
        _ => TagContext::Other,
    }
}

/// What `String::from_utf8_lossy` makes of these bytes (invalid sequences
/// become U+FFFD).
pub uninterp spec fn lossy_utf8(bytes: Seq<u8>) -> Seq<char>;

/// Trusted: std's `String::from_utf8_lossy`; the result is named by
/// `lossy_utf8`. Valid UTF-8 is decoded as it stands.
#[verifier::external_body]
fn utf8_lossy(bytes: &Vec<u8>) -> (res: String)
    ensures
        res@ == lossy_utf8(bytes@),
        vstd::utf8::valid_utf8(bytes@) ==> res@ == vstd::utf8::decode_utf8(bytes@),
{
    String::from_utf8_lossy(bytes).into_owned()
}

// —— tag selection ————————————————————————————————————————————

/// The tags that the text watermark reads.
pub enum Watched {
    Make,
    Model,
    LensModel,
    LensMake,
    FNumber,
    PhotographicSensitivity,
    IsoSpeed,
    FocalLength,
    ExposureTime,
    DateTimeOriginal,
    Unwatched,
}

/// The tag of a field, by its context and number (EXIF 2.3 tag numbers).
pub open spec fn watched_of(f: ExifField) -> Watched {
    if f.context == TagContext::Tiff && f.number == 0x10f {
        Watched::Make
    } else if f.context == TagContext::Tiff && f.number == 0x110 {
        Watched::Model
    } else if f.context == TagContext::Exif && f.number == 0xa434 {
        Watched::LensModel
    } else if f.context == TagContext::Exif && f.number == 0xa433 {
        Watched::LensMake
    } else if f.context == TagContext::Exif && f.number == 0x829d {
        Watched::FNumber
    } else if f.context == TagContext::Exif && f.number == 0x8827 {
        Watched::PhotographicSensitivity
    } else if f.context == TagContext::Exif && f.number == 0x8833 {
        Watched::IsoSpeed
    } else if f.context == TagContext::Exif && f.number == 0x920a {
        Watched::FocalLength
    } else if f.context == TagContext::Exif && f.number == 0x829a {
        Watched::ExposureTime
    } else if f.context == TagContext::Exif && f.number == 0x9003 {
        Watched::DateTimeOriginal
    } else {
        Watched::Unwatched
    }
}

fn watched(f: &ExifField) -> (res: Watched)
    ensures
        res == watched_of(*f),
{
    let tiff = match f.context {
        TagContext::Tiff => true,
        _ => false,
    };
    let ex = match f.context {
        TagContext::Exif => true,
        _ => false,
    };
    if tiff && f.number == 0x10f {
        Watched::Make
    } else if tiff && f.number == 0x110 {
        Watched::Model
    } else if ex && f.number == 0xa434 {
        Watched::LensModel
    } else if ex && f.number == 0xa433 {
        Watched::LensMake
    } else if ex && f.number == 0x829d {
        Watched::FNumber
    } else if ex && f.number == 0x8827 {
        Watched::PhotographicSensitivity
    } else if ex && f.number == 0x8833 {
        Watched::IsoSpeed
    } else if ex && f.number == 0x920a {
        Watched::FocalLength
    } else if ex && f.number == 0x829a {
        Watched::ExposureTime
    } else if ex && f.number == 0x9003 {
        Watched::DateTimeOriginal
    } else {
        Watched::Unwatched
    }
}

/// The bytes before the first NUL.
pub open spec fn until_nul(b: Seq<u8>) -> Seq<u8>
    decreases b.len(),
{
    if b.len() == 0 || b[0] == 0 {
        Seq::empty()
    } else {
        seq![b[0]] + until_nul(b.drop_first())
    }
}

/// The text of an ASCII field: its first string, up to the first NUL, decoded
/// (lossily) and trimmed; `None` for other values and for empty texts.
pub open spec fn ascii_text(v: FieldValue) -> Option<Seq<char>> {
    match v {
        FieldValue::Ascii(list) => if list.len() == 0 {
            None
        } else {
            let t = trimmed(lossy_utf8(until_nul(list[0]@)));
            if t.len() == 0 {
                None
            } else {
                Some(t)
            }
        },
        _ => None,
    }
}

fn take_until_nul(b: &Vec<u8>) -> (res: Vec<u8>)
    ensures
        res@ == until_nul(b@),
{
    let mut i: usize = 0;
    while i < b.len() && b[i] != 0
        invariant
            0 <= i <= b@.len(),
            forall|j: int| 0 <= j < i ==> b@[j] != 0,
        decreases b@.len() - i,
    {
        i = i + 1;
    }
    let mut out: Vec<u8> = Vec::new();
    let mut k: usize = 0;
    while k < i
        invariant
            0 <= k <= i <= b@.len(),
            out@ =~= b@.take(k as int),
        decreases i - k,
    {
        out.push(b[k]);
        k = k + 1;
    }
    proof {
        lemma_until_nul_at(b@, i as int);
    }
    out
}

proof fn lemma_until_nul_at(b: Seq<u8>, i: int)
    requires
        0 <= i <= b.len(),
        forall|j: int| 0 <= j < i ==> b[j] != 0,
        i == b.len() || b[i] == 0,
    ensures
        until_nul(b) == b.take(i),
    decreases i,
{
    if i > 0 {
        lemma_until_nul_at(b.drop_first(), i - 1);
        assert(b.take(i) =~= seq![b[0]] + b.drop_first().take(i - 1));
    } else {
        assert(b.take(0) =~= Seq::<u8>::empty());
    }
}

/// The text of an ASCII field (see `ascii_text`).
pub fn extract_ascii(value: &FieldValue) -> (res: Option<String>)
    ensures
        res matches Some(s) ==> ascii_text(*value) == Some(s@),
        res is None ==> ascii_text(*value) is None,
{
    match value {
        FieldValue::Ascii(list) => {
            if list.len() == 0 {
                return None;
            }
            let bytes = take_until_nul(&list[0]);
            let decoded = utf8_lossy(&bytes);
            let t = trim(decoded.as_str());
            if t.as_str().is_empty() {
                None
            } else {
                Some(t)
            }
        },
        _ => None,
    }
}

/// `get_uint(0)` of the `exif` crate: the first element of a BYTE, SHORT or
/// LONG value.
pub open spec fn first_uint(v: FieldValue) -> Option<u32> {
    match v {
        FieldValue::Byte(b) => if b.len() > 0 {
            Some(b[0] as u32)
        } else {
            None
        },
        FieldValue::Short(s) => if s.len() > 0 {
            Some(s[0] as u32)
        } else {
            None
        },
        FieldValue::Long(l) => if l.len() > 0 {
            Some(l[0])
        } else {
            None
        },
        _ => None,
    }
}

fn get_first_uint(v: &FieldValue) -> (res: Option<u32>)
    ensures
        res == first_uint(*v),
{
    match v {
        FieldValue::Byte(b) => if b.len() > 0 {
            Some(b[0] as u32)
        } else {
            None
        },
        FieldValue::Short(s) => if s.len() > 0 {
            Some(s[0] as u32)
        } else {
            None
        },
        FieldValue::Long(l) => if l.len() > 0 {
            Some(l[0])
        } else {
            None
        },
        _ => None,
    }
}

/// The first rational of a RATIONAL value.
pub open spec fn first_rational(v: FieldValue) -> Option<(u32, u32)> {
    match v {
        FieldValue::Rational(r) => if r.len() > 0 {
            Some(r[0])
        } else {
            None
        },
        _ => None,
    }
}

fn get_first_rational(v: &FieldValue) -> (res: Option<(u32, u32)>)
    ensures
        res == first_rational(*v),
{
    match v {
        FieldValue::Rational(r) => if r.len() > 0 {
            Some(r[0])
        } else {
            None
        },
        _ => None,
    }
}

/// The decimal digits of `n`, most significant first.
pub open spec fn decimal(n: nat) -> Seq<char>
    decreases n,
{
    if n < 10 {
        seq![digit_char(n)]
    } else {
        decimal(n / 10) + seq![digit_char(n % 10)]
    }
}

pub open spec fn digit_char(d: nat) -> char {
    if d == 0 {
        '0'
    } else if d == 1 {
        '1'
    } else if d == 2 {
        '2'
    } else if d == 3 {
        '3'
    } else if d == 4 {
        '4'
    } else if d == 5 {
        '5'
    } else if d == 6 {
        '6'
    } else if d == 7 {
        '7'
    } else if d == 8 {
        '8'
    } else {
        '9'
    }
}

pub(crate) fn digit(d: u64) -> (res: char)
    requires
        d < 10,
    ensures
        res == digit_char(d as nat),
{
    if d == 0 {
        '0'
    } else if d == 1 {
        '1'
    } else if d == 2 {
        '2'
    } else if d == 3 {
        '3'
    } else if d == 4 {
        '4'
    } else if d == 5 {
        '5'
    } else if d == 6 {
        '6'
    } else if d == 7 {
        '7'
    } else if d == 8 {
        '8'
    } else {
        '9'
    }
}

/// The decimal representation of `n` (as `to_string` gives it).
pub fn decimal_chars(n: u64) -> (res: Vec<char>)
    ensures
        res@ == decimal(n as nat),
    decreases n,
{
    if n < 10 {
        let mut v: Vec<char> = Vec::new();
        v.push(digit(n));
        v
    } else {
        let mut v = decimal_chars(n / 10);
        v.push(digit(n % 10));
        v
    }
}

/// The UTF-8 length of a character.
pub open spec fn utf8_len(c: char) -> nat {
    if (c as u32) < 0x80 {
        1
    } else if (c as u32) < 0x800 {
        2
    } else if (c as u32) < 0x10000 {
        3
    } else {
        4
    }
}

/// The UTF-8 length of a text.
pub open spec fn utf8_size(s: Seq<char>) -> nat
    decreases s.len(),
{
    if s.len() == 0 {
        0
    } else {
        utf8_size(s.drop_last()) + utf8_len(s.last())
    }
}

/// `k` characters of the text are the longest start of it that fits into ten
/// bytes: the date is cut at the last character boundary at or before byte 10.
pub open spec fn is_date_cut(s: Seq<char>, k: int) -> bool {
    &&& 0 <= k <= s.len()
    &&& utf8_size(s.take(k)) <= 10
    &&& k < s.len() ==> utf8_size(s.take(k + 1)) > 10
}

/// `:` replaced by `-`.
pub open spec fn dashes_for_colons(s: Seq<char>) -> Seq<char> {
    s.map_values(|c: char| if c == ':' { '-' } else { c })
}

/// The date part of a `DateTimeOriginal` text: its first ten bytes (cut at a
/// character boundary), colons made dashes.
pub open spec fn date_of(s: Seq<char>) -> Seq<char> {
    dashes_for_colons(s.take(choose|k: int| is_date_cut(s, k)))
}

proof fn lemma_utf8_size_take_step(s: Seq<char>, k: int)
    requires
        0 <= k < s.len(),
    ensures
        utf8_size(s.take(k + 1)) == utf8_size(s.take(k)) + utf8_len(s[k]),
{
    assert(s.take(k + 1).drop_last() =~= s.take(k));
}

proof fn lemma_utf8_size_take_mono(s: Seq<char>, a: int, b: int)
    requires
        0 <= a <= b <= s.len(),
    ensures
        utf8_size(s.take(a)) <= utf8_size(s.take(b)),
        a < b ==> utf8_size(s.take(a)) < utf8_size(s.take(b)),
    decreases b - a,
{
    if a < b {
        lemma_utf8_size_take_step(s, b - 1);
        lemma_utf8_size_take_mono(s, a, b - 1);
    }
}

fn char_utf8_len(c: char) -> (res: usize)
    ensures
        res == utf8_len(c),
{
    let v = c as u32;
    if v < 0x80 {
        1
    } else if v < 0x800 {
        2
    } else if v < 0x10000 {
        3
    } else {
        4
    }
}

/// For a date text: `None` when it is shorter than ten bytes; otherwise the
/// number of characters in its first ten bytes (cut at a character boundary).
fn date_prefix(s: &Vec<char>) -> (res: Option<usize>)
    ensures
        res is None <==> utf8_size(s@) < 10,
        res matches Some(k) ==> is_date_cut(s@, k as int),
{
    let mut k: usize = 0;
    let mut size: usize = 0;
    proof {
        assert(s@.take(0) =~= Seq::<char>::empty());
    }
    while k < s.len() && size + char_utf8_len(s[k]) <= 10
        invariant
            0 <= k <= s@.len(),
            size == utf8_size(s@.take(k as int)),
            size <= 10,
        decreases s@.len() - k,
    {
        proof {
            lemma_utf8_size_take_step(s@, k as int);
        }
        size = size + char_utf8_len(s[k]);
        k = k + 1;
    }
    if k < s.len() {
        proof {
            lemma_utf8_size_take_step(s@, k as int);
            lemma_utf8_size_take_mono(s@, k + 1, s@.len() as int);
            assert(s@.take(s@.len() as int) =~= s@);
        }
        return Some(k);
    }
    assert(s@.take(k as int) =~= s@);
    if size < 10 {
        return None;
    }
    Some(k)
}

/// The cut of a date text is unique.
proof fn lemma_date_cut_unique(s: Seq<char>, k: int, j: int)
    requires
        is_date_cut(s, k),
        is_date_cut(s, j),
    ensures
        k == j,
{
    if j < k {
        lemma_utf8_size_take_mono(s, j + 1, k);
    } else if k < j {
        lemma_utf8_size_take_mono(s, k + 1, j);
    }
}

// —— the parsed EXIF block ———————————————————————————————————

/// The result of reading an EXIF block: the text tags, and the first rational of
/// the aperture, focal-length and exposure-time fields, whose text is a matter
/// of floating-point formatting left to the caller.
#[derive(Debug, Clone)]
pub struct ParsedExif {
    pub tags: ExifTags,
    pub fnumber: Option<(u32, u32)>,
    pub focal: Option<(u32, u32)>,
    pub exposure: Option<(u32, u32)>,
}

/// The tag table after the fields `fs`, read in order: each field sets its tag
/// (a later field wins), except `LensMake` and `ISOSpeed`, which only fill a
/// `lens`/`iso` that is still missing.
pub open spec fn tags_after(fs: Seq<ExifField>) -> spec_fn(Seq<char>) -> Option<Seq<char>>
    decreases fs.len(),
{
    if fs.len() == 0 {
        |k: Seq<char>| None::<Seq<char>>
    } else {
        field_effect(tags_after(fs.drop_last()), fs.last())
    }
}

pub open spec fn set_tag(
    f: spec_fn(Seq<char>) -> Option<Seq<char>>,
    key: Seq<char>,
    v: Seq<char>,
) -> spec_fn(Seq<char>) -> Option<Seq<char>> {
    |k: Seq<char>|
        if k == key {
            Some(v)
        } else {
            f(k)
        }
}

/// The effect of one field on the tag table.
pub open spec fn field_effect(
    t: spec_fn(Seq<char>) -> Option<Seq<char>>,
    f: ExifField,
) -> spec_fn(Seq<char>) -> Option<Seq<char>> {
    match watched_of(f) {
        Watched::Make => match ascii_text(f.value) {
            Some(s) => set_tag(t, "make"@, s),
            None => t,
        },
        Watched::Model => match ascii_text(f.value) {
            Some(s) => set_tag(t, "model"@, s),
            None => t,
        },
        Watched::LensModel => match ascii_text(f.value) {
            Some(s) => set_tag(t, "lens"@, s),
            None => t,
        },
        Watched::LensMake => match ascii_text(f.value) {
            Some(s) => if t("lens"@) is None {
                set_tag(t, "lens"@, s)
            } else {
                t
            },
            None => t,
        },
        Watched::PhotographicSensitivity => match first_uint(f.value) {
            Some(n) => set_tag(t, "iso"@, decimal(n as nat)),
            None => t,
        },
        Watched::IsoSpeed => match first_uint(f.value) {
            Some(n) => if t("iso"@) is None {
                set_tag(t, "iso"@, decimal(n as nat))
            } else {
                t
            },
            None => t,
        },
        Watched::DateTimeOriginal => match ascii_text(f.value) {
            Some(s) => if utf8_size(s) >= 10 {
                set_tag(set_tag(t, "date"@, date_of(s)), "datetime"@, s)
            } else {
                t
            },
            None => t,
        },
        _ => t,
    }
}

/// The first rational of the last field with tag `w` that has one.
pub open spec fn last_rational(fs: Seq<ExifField>, w: Watched) -> Option<(u32, u32)>
    decreases fs.len(),
{
    if fs.len() == 0 {
        None
    } else if watched_of(fs.last()) == w && first_rational(fs.last().value) is Some {
        first_rational(fs.last().value)
    } else {
        last_rational(fs.drop_last(), w)
    }
}

/// The `Exif\0\0` marker that may precede an EXIF block.
pub open spec fn exif_marker() -> Seq<u8> {
    seq![0x45u8, 0x78u8, 0x69u8, 0x66u8, 0u8, 0u8]
}

/// The payload handed to the EXIF reader: the block without a leading
/// `Exif\0\0` marker.
pub open spec fn exif_payload(raw: Seq<u8>) -> Seq<u8> {
    if raw.len() >= 6 && raw.take(6) == seq![0x45u8, 0x78u8, 0x69u8, 0x66u8, 0u8, 0u8] {
        raw.skip(6)
    } else {
        raw
    }
}

fn replace_colons(s: &Vec<char>, k: usize) -> (res: Vec<char>)
    requires
        k <= s@.len(),
    ensures
        res@ == dashes_for_colons(s@.take(k as int)),
{
    let mut out: Vec<char> = Vec::new();
    let mut i: usize = 0;
    while i < k
        invariant
            0 <= i <= k <= s@.len(),
            out@ =~= dashes_for_colons(s@.take(i as int)),
        decreases k - i,
    {
        let c = s[i];
        out.push(if c == ':' { '-' } else { c });
        i = i + 1;
    }
    out
}

/// Collects the tags from already-read EXIF fields.
pub fn collect_tags(fields: &Vec<ExifField>) -> (res: ParsedExif)
    ensures
        forall|k: Seq<char>| res.tags.value_of(k) == tags_after(fields@)(k),
        res.fnumber == last_rational(fields@, Watched::FNumber),
        res.focal == last_rational(fields@, Watched::FocalLength),
        res.exposure == last_rational(fields@, Watched::ExposureTime),
{
    let mut tags = ExifTags::new();
    let mut fnumber: Option<(u32, u32)> = None;
    let mut focal: Option<(u32, u32)> = None;
    let mut exposure: Option<(u32, u32)> = None;
    let mut i: usize = 0;
    while i < fields.len()
        invariant
            0 <= i <= fields@.len(),
            forall|k: Seq<char>| tags.value_of(k) == tags_after(fields@.take(i as int))(k),
            fnumber == last_rational(fields@.take(i as int), Watched::FNumber),
            focal == last_rational(fields@.take(i as int), Watched::FocalLength),
            exposure == last_rational(fields@.take(i as int), Watched::ExposureTime),
        decreases fields@.len() - i,
    {
        let f = &fields[i];
        let ghost prev = tags_after(fields@.take(i as int));
        proof {
            assert(fields@.take(i + 1).drop_last() =~= fields@.take(i as int));
            assert(fields@.take(i + 1).last() == fields@[i as int]);
        }
        let w = watched(f);
        match w {
            Watched::Make => {
                if let Some(s) = extract_ascii(&f.value) {
                    tags.insert("make", s);
                }
            },
            Watched::Model => {
                if let Some(s) = extract_ascii(&f.value) {
                    tags.insert("model", s);
                }
            },
            Watched::LensModel => {
                if let Some(s) = extract_ascii(&f.value) {
                    tags.insert("lens", s);
                }
            },
            Watched::LensMake => {
                if let Some(s) = extract_ascii(&f.value) {
                    tags.insert_if_absent("lens", s);
                }
            },
            Watched::FNumber => {
                if let Some(r) = get_first_rational(&f.value) {
                    fnumber = Some(r);
                }
            },
            Watched::PhotographicSensitivity => {
                if let Some(n) = get_first_uint(&f.value) {
                    let d = decimal_chars(n as u64);
                    tags.insert("iso", crate::text::string_from_chars(&d));
                }
            },
            Watched::IsoSpeed => {
                if let Some(n) = get_first_uint(&f.value) {
                    let d = decimal_chars(n as u64);
                    tags.insert_if_absent("iso", crate::text::string_from_chars(&d));
                }
            },
            Watched::FocalLength => {
                if let Some(r) = get_first_rational(&f.value) {
                    focal = Some(r);
                }
            },
            Watched::ExposureTime => {
                if let Some(r) = get_first_rational(&f.value) {
                    exposure = Some(r);
                }
            },
            Watched::DateTimeOriginal => {
                if let Some(raw) = extract_ascii(&f.value) {
                    let cs = chars_of(raw.as_str());
                    match date_prefix(&cs) {
                        Some(k) => {
                            let d = replace_colons(&cs, k);
                            proof {
                                let kk = choose|kk: int| is_date_cut(cs@, kk);
                                lemma_date_cut_unique(cs@, k as int, kk);
                            }
                            tags.insert("date", crate::text::string_from_chars(&d));
                            tags.insert("datetime", raw);
                        },
                        None => {},
                    }
                }
            },
            Watched::Unwatched => {},
        }
        i = i + 1;
    }
    assert(fields@.take(fields@.len() as int) =~= fields@);
    ParsedExif { tags, fnumber, focal, exposure }
}

fn strip_exif_marker(raw: &[u8]) -> (res: Vec<u8>)
    ensures
        res@ == exif_payload(raw@),
{
    let marked = raw.len() >= 6 && raw[0] == 0x45 && raw[1] == 0x78 && raw[2] == 0x69 && raw[3] == 0x66
        && raw[4] == 0 && raw[5] == 0;
    proof {
        if raw@.len() >= 6 {
            if marked {
                assert(raw@.take(6) =~= seq![0x45u8, 0x78u8, 0x69u8, 0x66u8, 0u8, 0u8]);
            } else {
                assert(raw@.take(6) != seq![0x45u8, 0x78u8, 0x69u8, 0x66u8, 0u8, 0u8]) by {
                    if raw@.take(6) == seq![0x45u8, 0x78u8, 0x69u8, 0x66u8, 0u8, 0u8] {
                        assert(raw@[0] == raw@.take(6)[0]);
                        assert(raw@[1] == raw@.take(6)[1]);
                        assert(raw@[2] == raw@.take(6)[2]);
                        assert(raw@[3] == raw@.take(6)[3]);
                        assert(raw@[4] == raw@.take(6)[4]);
                        assert(raw@[5] == raw@.take(6)[5]);
                    }
                }
            }
        }
    }
    let start: usize = if marked { 6 } else { 0 };
    let mut out: Vec<u8> = Vec::new();
    let mut i: usize = start;
    while i < raw.len()
        invariant
            start <= i <= raw@.len(),
            out@ =~= raw@.subrange(start as int, i as int),
        decreases raw@.len() - i,
    {
        out.push(raw[i]);
        i = i + 1;
    }
    assert(raw@.skip(start as int) =~= raw@.subrange(start as int, raw@.len() as int));
    out
}

/// Empty results, as for a block the reader rejects.
fn no_exif() -> (res: ParsedExif)
    ensures
        res.tags.spec_is_empty(),
        res.fnumber is None,
        res.focal is None,
        res.exposure is None,
{
    ParsedExif { tags: ExifTags::new(), fnumber: None, focal: None, exposure: None }
}

/// What `parse_exif` gives for the EXIF block `raw`.
pub open spec fn parsed_as(res: ParsedExif, raw: Seq<u8>) -> bool {
    match exif_fields_of(exif_payload(raw)) {
        Some(fs) => {
            &&& forall|k: Seq<char>| res.tags.value_of(k) == tags_after(fs)(k)
            &&& res.fnumber == last_rational(fs, Watched::FNumber)
            &&& res.focal == last_rational(fs, Watched::FocalLength)
            &&& res.exposure == last_rational(fs, Watched::ExposureTime)
        },
        None => {
            &&& res.tags.spec_is_empty()
            &&& res.fnumber is None
            &&& res.focal is None
            &&& res.exposure is None
        },
    }
}

/// Reads the camera parameters from an EXIF (APP1) block, with or without its
/// leading `Exif\0\0` marker. An unreadable block yields no tags.
pub fn parse_exif(raw_exif: &[u8]) -> (res: ParsedExif)
    ensures
        parsed_as(res, raw_exif@),
{
    let payload = strip_exif_marker(raw_exif);
    match read_exif_fields(payload) {
        Some(fields) => collect_tags(&fields),
        None => no_exif(),
    }
}

/// The `Exif\0\0` marker in front of a block changes nothing: the block reads
/// the same with it and without it.
pub proof fn lemma_marker_optional(t: Seq<u8>)
    requires
        !(t.len() >= 6 && t.take(6) == exif_marker()),
    ensures
        exif_payload(exif_marker() + t) == exif_payload(t),
        forall|res: ParsedExif| #[trigger] parsed_as(res, exif_marker() + t) == parsed_as(res, t),
{
    let m = exif_marker();
    assert((m + t).take(6) =~= m);
    assert((m + t).skip(6) =~= t);
}

/// Fills an EXIF text template; placeholders of missing tags stay as they are.
pub fn format_template(template: &str, tags: &ExifTags) -> (res: String)
    ensures
        res@ == fill_template(template@, tags.lookup_fn(), true),
{
    fill_template_exec(template, tags, true)
}

// —— configuration and text choice ——————————————————————————————

/// Settings of the EXIF text watermark. `font_size_ratio_bits` (font size over
/// the long side) and `opacity_bits` hold IEEE-754 bit patterns of `f32`
/// settings that the library carries without reading them as numbers.
#[derive(Debug, Clone)]
pub struct ExifTextConfig {
    pub enabled: bool,
    pub template: String,
    pub custom_text: Option<String>,
    pub font_size_ratio_bits: u32,
    pub position: GridPosition,
    pub margin_x: u32,
    pub margin_y: u32,
    pub opacity_bits: u32,
    pub color: [u8; 3],
    pub background: Option<[u8; 4]>,
    pub full_width: bool,
}

fn default_text_template() -> (res: String)
    ensures
        res@ == "{make} {model} · {lens} · f/{fnumber} · {shutter}s · ISO {iso}"@,
{
    "{make} {model} · {lens} · f/{fnumber} · {shutter}s · ISO {iso}".to_owned()
}

fn default_text_color() -> (res: [u8; 3])
    ensures
        res@ == seq![255u8, 255u8, 255u8],
{
    [255, 255, 255]
}

impl Default for ExifTextConfig {
    /// Disabled; the camera/lens/exposure template; font at 3% of the long side;
    /// bottom-left with 40 px margins; 85% opaque white on a faint black bar.
    fn default() -> (res: Self)
        ensures
            !res.enabled,
            res.template@ == "{make} {model} · {lens} · f/{fnumber} · {shutter}s · ISO {iso}"@,
            res.custom_text is None,
            res.font_size_ratio_bits == 0x3cf5_c28f,
            res.position == GridPosition::BottomLeft,
            res.margin_x == 40,
            res.margin_y == 40,
            res.opacity_bits == 0x3f59_999a,
            res.color@ == seq![255u8, 255u8, 255u8],
            res.background matches Some(b) && b@ == seq![0u8, 0u8, 0u8, 80u8],
            !res.full_width,
    {
        ExifTextConfig {
            enabled: false,
            template: default_text_template(),
            custom_text: None,
            font_size_ratio_bits: 0x3cf5_c28f,
            position: GridPosition::BottomLeft,
            margin_x: 40,
            margin_y: 40,
            opacity_bits: 0x3f59_999a,
            color: default_text_color(),
            background: Some([0, 0, 0, 80]),
            full_width: false,
        }
    }
}

/// The text to render: nothing when disabled; the custom text when one is set
/// (nothing when it is empty); otherwise the filled template, or nothing when
/// the EXIF gave no tag at all.
pub open spec fn text_for(config: ExifTextConfig, tags: ExifTags) -> Option<Seq<char>> {
    if !config.enabled {
        None
    } else {
        match config.custom_text {
            Some(c) => if c@.len() == 0 {
                None
            } else {
                Some(c@)
            },
            None => if tags.spec_is_empty() {
                None
            } else {
                Some(fill_template(config.template@, tags.lookup_fn(), true))
            },
        }
    }
}

/// Whether the text comes from the EXIF block (rather than a custom text).
pub fn uses_exif(config: &ExifTextConfig) -> (res: bool)
    ensures
        res == (config.enabled && config.custom_text is None),
{
    config.enabled && config.custom_text.is_none()
}

/// Chooses the text of the EXIF text watermark, given the tags read from the
/// photo (only consulted when `uses_exif`).
pub fn text_to_render(config: &ExifTextConfig, tags: &ExifTags) -> (res: Option<String>)
    ensures
        res matches Some(s) ==> text_for(*config, *tags) == Some(s@),
        res is None ==> text_for(*config, *tags) is None,
{
    if !config.enabled {
        return None;
    }
    match &config.custom_text {
        Some(custom) => {
            if custom.as_str().is_empty() {
                None
            } else {
                Some(custom.clone())
            }
        },
        None => {
            if tags.is_empty() {
                None
            } else {
                Some(format_template(config.template.as_str(), tags))
            }
        },
    }
}


// —— which field a tag comes from ——————————————————————————————————

/// A `Make` field (TIFF IFD, tag 0x10f).
pub open spec fn is_make_field(f: ExifField) -> bool {
    f.context == TagContext::Tiff && f.number == 0x10f
}

/// A `Model` field (TIFF IFD, tag 0x110).
pub open spec fn is_model_field(f: ExifField) -> bool {
    f.context == TagContext::Tiff && f.number == 0x110
}

/// A `LensModel` field (Exif IFD, tag 0xa434).
pub open spec fn is_lens_model_field(f: ExifField) -> bool {
    f.context == TagContext::Exif && f.number == 0xa434
}

/// A `LensMake` field (Exif IFD, tag 0xa433).
pub open spec fn is_lens_make_field(f: ExifField) -> bool {
    f.context == TagContext::Exif && f.number == 0xa433
}

/// A `DateTimeOriginal` field (Exif IFD, tag 0x9003).
pub open spec fn is_date_field(f: ExifField) -> bool {
    f.context == TagContext::Exif && f.number == 0x9003
}

/// A date text long enough to hold a date: at least ten UTF-8 bytes.
pub open spec fn dated_text(f: ExifField) -> bool {
    ascii_text(f.value) is Some && utf8_size(ascii_text(f.value)->0) >= 10
}

/// A `PhotographicSensitivity` field (Exif IFD, tag 0x8827).
pub open spec fn is_iso_field(f: ExifField) -> bool {
    f.context == TagContext::Exif && f.number == 0x8827
}

/// An `ISOSpeed` field (Exif IFD, tag 0x8833).
pub open spec fn is_iso_speed_field(f: ExifField) -> bool {
    f.context == TagContext::Exif && f.number == 0x8833
}

proof fn lemma_tag_keys_distinct()
    ensures
        "make"@ != "model"@,
        "make"@ != "lens"@,
        "make"@ != "iso"@,
        "make"@ != "date"@,
        "make"@ != "datetime"@,
        "model"@ != "lens"@,
        "model"@ != "iso"@,
        "model"@ != "date"@,
        "model"@ != "datetime"@,
        "lens"@ != "iso"@,
        "lens"@ != "date"@,
        "lens"@ != "datetime"@,
        "iso"@ != "date"@,
        "iso"@ != "datetime"@,
        "date"@ != "datetime"@,
{
    reveal_strlit("make");
    reveal_strlit("model");
    reveal_strlit("lens");
    reveal_strlit("iso");
    reveal_strlit("date");
    reveal_strlit("datetime");
    assert("make"@[0] != "lens"@[0]);
    assert("make"@[0] != "date"@[0]);
    assert("lens"@[0] != "date"@[0]);
    assert("make"@[1] != "model"@[1]);
    assert("iso"@.len() != "datetime"@.len());
    assert("date"@.len() != "datetime"@.len());
}

/// How one field acts on the `make`, `model`, `lens` and `iso` tags.
proof fn lemma_field_keys(t: spec_fn(Seq<char>) -> Option<Seq<char>>, f: ExifField)
    ensures
        is_make_field(f) && ascii_text(f.value) is Some ==> field_effect(t, f)("make"@) == ascii_text(f.value),
        !(is_make_field(f) && ascii_text(f.value) is Some) ==> field_effect(t, f)("make"@) == t("make"@),
        is_model_field(f) && ascii_text(f.value) is Some ==> field_effect(t, f)("model"@) == ascii_text(f.value),
        !(is_model_field(f) && ascii_text(f.value) is Some) ==> field_effect(t, f)("model"@) == t("model"@),
        is_lens_model_field(f) && ascii_text(f.value) is Some ==> field_effect(t, f)("lens"@) == ascii_text(
            f.value,
        ),
        is_lens_make_field(f) && ascii_text(f.value) is Some && t("lens"@) is None ==> field_effect(t, f)(
            "lens"@,
        ) == ascii_text(f.value),
        !(is_lens_model_field(f) && ascii_text(f.value) is Some) && !(is_lens_make_field(f) && ascii_text(
            f.value,
        ) is Some && t("lens"@) is None) ==> field_effect(t, f)("lens"@) == t("lens"@),
        is_iso_field(f) && first_uint(f.value) is Some ==> field_effect(t, f)("iso"@) == Some(
            decimal((first_uint(f.value)->0) as nat),
        ),
        is_iso_speed_field(f) && t("iso"@) is None && first_uint(f.value) is Some ==> field_effect(t, f)(
            "iso"@,
        ) == Some(decimal((first_uint(f.value)->0) as nat)),
        !(is_iso_field(f) && first_uint(f.value) is Some) && !(is_iso_speed_field(f) && first_uint(f.value) is Some
            && t("iso"@) is None) ==> field_effect(t, f)("iso"@) == t("iso"@),
        is_date_field(f) && dated_text(f) ==> field_effect(t, f)("datetime"@) == ascii_text(f.value)
            && field_effect(t, f)("date"@) == Some(date_of(ascii_text(f.value)->0)),
        !(is_date_field(f) && dated_text(f)) ==> field_effect(t, f)("datetime"@) == t("datetime"@)
            && field_effect(t, f)("date"@) == t("date"@),
{
    lemma_tag_keys_distinct();
}

/// The tags after reading `fs` are those after reading all but its last field,
/// changed by the last.
proof fn lemma_tags_after_last(fs: Seq<ExifField>)
    requires
        fs.len() > 0,
    ensures
        tags_after(fs) == field_effect(tags_after(fs.drop_last()), fs.last()),
{
}

/// The camera maker: the text of the last `Make` field that has one.
pub proof fn lemma_make_from_last_field(fs: Seq<ExifField>, i: int)
    requires
        0 <= i < fs.len(),
        is_make_field(fs[i]),
        ascii_text(fs[i].value) is Some,
        forall|j: int| i < j < fs.len() && is_make_field(#[trigger] fs[j]) ==> ascii_text(fs[j].value) is None,
    ensures
        tags_after(fs)("make"@) == ascii_text(fs[i].value),
    decreases fs.len(),
{
    let d = fs.drop_last();
    lemma_field_keys(tags_after(d), fs.last());
    if i < fs.len() - 1 {
        assert forall|j: int| i < j < d.len() && is_make_field(#[trigger] d[j]) implies ascii_text(d[j].value) is None by {
            assert(d[j] == fs[j]);
        }
        assert(d[i] == fs[i]);
        lemma_make_from_last_field(d, i);
        assert(fs[fs.len() - 1] == fs.last());
    }
}

/// The camera model: the text of the last `Model` field that has one.
pub proof fn lemma_model_from_last_field(fs: Seq<ExifField>, i: int)
    requires
        0 <= i < fs.len(),
        is_model_field(fs[i]),
        ascii_text(fs[i].value) is Some,
        forall|j: int| i < j < fs.len() && is_model_field(#[trigger] fs[j]) ==> ascii_text(fs[j].value) is None,
    ensures
        tags_after(fs)("model"@) == ascii_text(fs[i].value),
    decreases fs.len(),
{
    let d = fs.drop_last();
    lemma_field_keys(tags_after(d), fs.last());
    if i < fs.len() - 1 {
        assert forall|j: int| i < j < d.len() && is_model_field(#[trigger] d[j]) implies ascii_text(d[j].value) is None by {
            assert(d[j] == fs[j]);
        }
        assert(d[i] == fs[i]);
        lemma_model_from_last_field(d, i);
        assert(fs[fs.len() - 1] == fs.last());
    }
}

/// The lens: the text of the last `LensModel` field that has one, whatever
/// `LensMake` fields come before or after it.
pub proof fn lemma_lens_model_wins(fs: Seq<ExifField>, i: int)
    requires
        0 <= i < fs.len(),
        is_lens_model_field(fs[i]),
        ascii_text(fs[i].value) is Some,
        forall|j: int|
            i < j < fs.len() && is_lens_model_field(#[trigger] fs[j]) ==> ascii_text(fs[j].value) is None,
    ensures
        tags_after(fs)("lens"@) == ascii_text(fs[i].value),
    decreases fs.len(),
{
    let d = fs.drop_last();
    lemma_field_keys(tags_after(d), fs.last());
    if i < fs.len() - 1 {
        assert forall|j: int| i < j < d.len() && is_lens_model_field(#[trigger] d[j]) implies ascii_text(d[j].value) is None by {
            assert(d[j] == fs[j]);
        }
        assert(d[i] == fs[i]);
        lemma_lens_model_wins(d, i);
        assert(fs[fs.len() - 1] == fs.last());
    }
}

proof fn lemma_no_lens(fs: Seq<ExifField>)
    requires
        forall|j: int|
            0 <= j < fs.len() && (is_lens_model_field(#[trigger] fs[j]) || is_lens_make_field(fs[j]))
                ==> ascii_text(fs[j].value) is None,
    ensures
        tags_after(fs)("lens"@) is None,
    decreases fs.len(),
{
    if fs.len() > 0 {
        let d = fs.drop_last();
        assert forall|j: int|
            0 <= j < d.len() && (is_lens_model_field(#[trigger] d[j]) || is_lens_make_field(d[j])) implies ascii_text(
            d[j].value,
        ) is None by {
            assert(d[j] == fs[j]);
        }
        lemma_no_lens(d);
        lemma_field_keys(tags_after(d), fs.last());
        assert(fs[fs.len() - 1] == fs.last());
    }
}

/// Without a `LensModel` text, the lens is the text of the first `LensMake`
/// field that has one; without either, there is no lens.
pub proof fn lemma_lens_make_fallback(fs: Seq<ExifField>, i: int)
    requires
        forall|j: int| 0 <= j < fs.len() && is_lens_model_field(#[trigger] fs[j]) ==> ascii_text(fs[j].value) is None,
        0 <= i < fs.len(),
        is_lens_make_field(fs[i]),
        ascii_text(fs[i].value) is Some,
        forall|j: int| 0 <= j < i && is_lens_make_field(#[trigger] fs[j]) ==> ascii_text(fs[j].value) is None,
    ensures
        tags_after(fs)("lens"@) == ascii_text(fs[i].value),
    decreases fs.len(),
{
    let d = fs.drop_last();
    lemma_field_keys(tags_after(d), fs.last());
    assert(fs[fs.len() - 1] == fs.last());
    if i < fs.len() - 1 {
        assert forall|j: int| 0 <= j < d.len() && is_lens_model_field(#[trigger] d[j]) implies ascii_text(d[j].value) is None by {
            assert(d[j] == fs[j]);
        }
        assert forall|j: int| 0 <= j < i && is_lens_make_field(#[trigger] d[j]) implies ascii_text(d[j].value) is None by {
            assert(d[j] == fs[j]);
        }
        assert(d[i] == fs[i]);
        lemma_lens_make_fallback(d, i);
    } else {
        assert forall|j: int|
            0 <= j < d.len() && (is_lens_model_field(#[trigger] d[j]) || is_lens_make_field(d[j])) implies ascii_text(
            d[j].value,
        ) is None by {
            assert(d[j] == fs[j]);
        }
        lemma_no_lens(d);
    }
}

/// The ISO speed: the number of the last `PhotographicSensitivity` field that
/// has one, in decimal.
pub proof fn lemma_iso_from_last_field(fs: Seq<ExifField>, i: int, n: u32)
    requires
        0 <= i < fs.len(),
        is_iso_field(fs[i]),
        first_uint(fs[i].value) == Some(n),
        forall|j: int| i < j < fs.len() && is_iso_field(#[trigger] fs[j]) ==> first_uint(fs[j].value) is None,
    ensures
        tags_after(fs)("iso"@) == Some(decimal(n as nat)),
    decreases fs.len(),
{
    let d = fs.drop_last();
    lemma_field_keys(tags_after(d), fs.last());
    assert(fs[fs.len() - 1] == fs.last());
    if i < fs.len() - 1 {
        assert forall|j: int| i < j < d.len() && is_iso_field(#[trigger] d[j]) implies first_uint(d[j].value) is None by {
            assert(d[j] == fs[j]);
        }
        assert(d[i] == fs[i]);
        lemma_iso_from_last_field(d, i, n);
    }
}

proof fn lemma_no_iso(fs: Seq<ExifField>)
    requires
        forall|j: int|
            0 <= j < fs.len() && (is_iso_field(#[trigger] fs[j]) || is_iso_speed_field(fs[j]))
                ==> first_uint(fs[j].value) is None,
    ensures
        tags_after(fs)("iso"@) is None,
    decreases fs.len(),
{
    if fs.len() > 0 {
        let d = fs.drop_last();
        assert forall|j: int|
            0 <= j < d.len() && (is_iso_field(#[trigger] d[j]) || is_iso_speed_field(d[j])) implies first_uint(
            d[j].value,
        ) is None by {
            assert(d[j] == fs[j]);
        }
        lemma_no_iso(d);
        lemma_field_keys(tags_after(d), fs.last());
        assert(fs[fs.len() - 1] == fs.last());
    }
}

/// Without a `PhotographicSensitivity` number, the ISO speed is the number of
/// the first `ISOSpeed` field that has one, in decimal.
pub proof fn lemma_iso_speed_fallback(fs: Seq<ExifField>, i: int, n: u32)
    requires
        forall|j: int| 0 <= j < fs.len() && is_iso_field(#[trigger] fs[j]) ==> first_uint(fs[j].value) is None,
        0 <= i < fs.len(),
        is_iso_speed_field(fs[i]),
        first_uint(fs[i].value) == Some(n),
        forall|j: int| 0 <= j < i && is_iso_speed_field(#[trigger] fs[j]) ==> first_uint(fs[j].value) is None,
    ensures
        tags_after(fs)("iso"@) == Some(decimal(n as nat)),
    decreases fs.len(),
{
    let d = fs.drop_last();
    lemma_field_keys(tags_after(d), fs.last());
    assert(fs[fs.len() - 1] == fs.last());
    if i < fs.len() - 1 {
        assert forall|j: int| 0 <= j < d.len() && is_iso_field(#[trigger] d[j]) implies first_uint(d[j].value) is None by {
            assert(d[j] == fs[j]);
        }
        assert forall|j: int| 0 <= j < i && is_iso_speed_field(#[trigger] d[j]) implies first_uint(d[j].value) is None by {
            assert(d[j] == fs[j]);
        }
        assert(d[i] == fs[i]);
        lemma_iso_speed_fallback(d, i, n);
    } else {
        assert forall|j: int|
            0 <= j < d.len() && (is_iso_field(#[trigger] d[j]) || is_iso_speed_field(d[j])) implies first_uint(
            d[j].value,
        ) is None by {
            assert(d[j] == fs[j]);
        }
        lemma_no_iso(d);
    }
}


/// The date: the text of the last `DateTimeOriginal` field long enough to
/// hold one, as `datetime`, and its date part with dashes, as `date`.
pub proof fn lemma_date_from_last_field(fs: Seq<ExifField>, i: int)
    requires
        0 <= i < fs.len(),
        is_date_field(fs[i]),
        dated_text(fs[i]),
        forall|j: int| i < j < fs.len() && is_date_field(#[trigger] fs[j]) ==> !dated_text(fs[j]),
    ensures
        tags_after(fs)("datetime"@) == ascii_text(fs[i].value),
        tags_after(fs)("date"@) == Some(date_of(ascii_text(fs[i].value)->0)),
    decreases fs.len(),
{
    let d = fs.drop_last();
    lemma_field_keys(tags_after(d), fs.last());
    assert(fs[fs.len() - 1] == fs.last());
    if i < fs.len() - 1 {
        assert forall|j: int| i < j < d.len() && is_date_field(#[trigger] d[j]) implies !dated_text(d[j]) by {
            assert(d[j] == fs[j]);
        }
        assert(d[i] == fs[i]);
        lemma_date_from_last_field(d, i);
    }
}

} // verus!
