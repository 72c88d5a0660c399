//! Frame mode: the photo in a white or black border with a parameter bar below
//! it; model and lens on the left, exposure on the right, the brand in the middle.
//!
//! This module holds the texts of the bar, the brand normalisation and the
//! integer parts of the canvas; glyph rendering and the float-scaled geometry
//! live with the caller.

use vstd::prelude::*;

use crate::pixels::{fill_rect, place, placed_byte, RgbBuffer};
use crate::tags::ExifTags;
use crate::template::{fill_template, fill_template_exec};
use crate::text::{
    ascii_upper, chars_of, contains_chars, has_infix, is_ascii_text, lemma_has_infix_occurs, occurs_from,
    matches_from, to_uppercase, trim, trimmed, uppercase,
};

verus! {

/// Frame settings. The `*_bits` fields hold the IEEE-754 bit patterns of `f32`
/// ratios (border and bar relative to the short side, font sizes relative to the
/// bar); the library carries them and never reads them as numbers.
#[derive(Debug, Clone)]
pub struct FrameConfig {
    pub enabled: bool,
    pub border_color: [u8; 3],
    pub border_ratio_bits: u32,
    pub bottom_bar_ratio_bits: u32,
    pub text_color: [u8; 3],
    pub subtext_color: [u8; 3],
    pub left_lines: Vec<String>,
    pub right_lines: Vec<String>,
    pub brand_template: String,
    pub show_brand: bool,
    pub font_size_ratio_bits: u32,
    pub brand_size_ratio_bits: u32,
}

fn default_border_color() -> (res: [u8; 3])
    ensures
        res@ == seq![250u8, 250u8, 250u8],
{
    [250, 250, 250]
}

fn default_text_color() -> (res: [u8; 3])
    ensures
        res@ == seq![30u8, 30u8, 30u8],
{
    [30, 30, 30]
}

fn default_subtext_color() -> (res: [u8; 3])
    ensures
        res@ == seq![110u8, 110u8, 110u8],
{
    [110, 110, 110]
}

fn default_left_lines() -> (res: Vec<String>)
    ensures
        res@.len() == 2,
        res@[0]@ == "{model}"@,
        res@[1]@ == "{lens}"@,
{
    let mut v: Vec<String> = Vec::new();
    v.push("{model}".to_owned());
    v.push("{lens}".to_owned());
    v
}

fn default_right_lines() -> (res: Vec<String>)
    ensures
        res@.len() == 2,
        res@[0]@ == "{focal}  f/{fnumber}  {shutter}s  ISO {iso}"@,
        res@[1]@ == "{date}"@,
{
    let mut v: Vec<String> = Vec::new();
    v.push("{focal}  f/{fnumber}  {shutter}s  ISO {iso}".to_owned());
    v.push("{date}".to_owned());
    v
}

fn default_brand_template() -> (res: String)
    ensures
        res@ == "{brand}"@,
{
    "{brand}".to_owned()
}

fn default_show_brand() -> (res: bool)
    ensures
        res,
{
    true
}

impl Default for FrameConfig {
    /// Disabled; a 2% border and a 12% bar (of the short side) in near-white,
    /// dark text with a grey second line, model/lens left, exposure/date
    /// right, the brand centered; fonts at 22% and 42% of the bar.
    fn default() -> (res: Self)
        ensures
            !res.enabled,
            res.border_color@ == seq![250u8, 250u8, 250u8],
            res.border_ratio_bits == 0x3ca3_d70a,
            res.bottom_bar_ratio_bits == 0x3df5_c28f,
            res.text_color@ == seq![30u8, 30u8, 30u8],
            res.subtext_color@ == seq![110u8, 110u8, 110u8],
            res.left_lines@.len() == 2,
            res.left_lines@[0]@ == "{model}"@,
            res.left_lines@[1]@ == "{lens}"@,
            res.right_lines@.len() == 2,
            res.right_lines@[0]@ == "{focal}  f/{fnumber}  {shutter}s  ISO {iso}"@,
            res.right_lines@[1]@ == "{date}"@,
            res.brand_template@ == "{brand}"@,
            res.show_brand,
            res.font_size_ratio_bits == 0x3e61_47ae,
            res.brand_size_ratio_bits == 0x3ed7_0a3d,
    {
        FrameConfig {
            enabled: false,
            border_color: default_border_color(),
            border_ratio_bits: 0x3ca3_d70a,
            bottom_bar_ratio_bits: 0x3df5_c28f,
            text_color: default_text_color(),
            subtext_color: default_subtext_color(),
            left_lines: default_left_lines(),
            right_lines: default_right_lines(),
            brand_template: default_brand_template(),
            show_brand: default_show_brand(),
            font_size_ratio_bits: 0x3e61_47ae,
            brand_size_ratio_bits: 0x3ed7_0a3d,
        }
    }
}

/// The brand shown for a camera `Make` tag: known makers by a fixed name
/// (matched on the upper-cased tag), anything else as it stands.
pub open spec fn brand_of(make: Seq<char>) -> Seq<char> {
    let u = uppercase(make);
    if has_infix(u, "FUJI"@) {
        "FUJIFILM"@
    } else if has_infix(u, "SONY"@) {
        "SONY"@
    } else if has_infix(u, "CANON"@) {
        "Canon"@
    } else if has_infix(u, "NIKON"@) {
        "NIKON"@
    } else if has_infix(u, "LEICA"@) {
        "LEICA"@
    } else if has_infix(u, "PANASONIC"@) || has_infix(u, "LUMIX"@) {
        "LUMIX"@
    } else if has_infix(u, "HASSELBLAD"@) {
        "HASSELBLAD"@
    } else if has_infix(u, "OLYMPUS"@) {
        "OLYMPUS"@
    } else if has_infix(u, "PENTAX"@) {
        "PENTAX"@
    } else if has_infix(u, "RICOH"@) {
        "RICOH"@
    } else if has_infix(u, "SIGMA"@) {
        "SIGMA"@
    } else if has_infix(u, "APPLE"@) {
        "iPhone"@
    } else if has_infix(u, "XIAOMI"@) {
        "Xiaomi"@
    } else if has_infix(u, "HUAWEI"@) {
        "HUAWEI"@
    } else {
        make
    }
}

/// The brand rule of `brand_of` on an upper-cased tag, written with
/// `occurs_from`: the fixed name of the first maker found, if any.
pub open spec fn brand_rule(u: Seq<char>) -> Option<Seq<char>> {
    if occurs_from(u, "FUJI"@, 0) {
        Some("FUJIFILM"@)
    } else if occurs_from(u, "SONY"@, 0) {
        Some("SONY"@)
    } else if occurs_from(u, "CANON"@, 0) {
        Some("Canon"@)
    } else if occurs_from(u, "NIKON"@, 0) {
        Some("NIKON"@)
    } else if occurs_from(u, "LEICA"@, 0) {
        Some("LEICA"@)
    } else if occurs_from(u, "PANASONIC"@, 0) || occurs_from(u, "LUMIX"@, 0) {
        Some("LUMIX"@)
    } else if occurs_from(u, "HASSELBLAD"@, 0) {
        Some("HASSELBLAD"@)
    } else if occurs_from(u, "OLYMPUS"@, 0) {
        Some("OLYMPUS"@)
    } else if occurs_from(u, "PENTAX"@, 0) {
        Some("PENTAX"@)
    } else if occurs_from(u, "RICOH"@, 0) {
        Some("RICOH"@)
    } else if occurs_from(u, "SIGMA"@, 0) {
        Some("SIGMA"@)
    } else if occurs_from(u, "APPLE"@, 0) {
        Some("iPhone"@)
    } else if occurs_from(u, "XIAOMI"@, 0) {
        Some("Xiaomi"@)
    } else if occurs_from(u, "HUAWEI"@, 0) {
        Some("HUAWEI"@)
    } else {
        None
    }
}

proof fn lemma_brand_rule(make: Seq<char>)
    ensures
        brand_of(make) == match brand_rule(uppercase(make)) {
            Some(b) => b,
            None => make,
        },
{
    let u = uppercase(make);
    lemma_has_infix_occurs(u, "FUJI"@);
    lemma_has_infix_occurs(u, "SONY"@);
    lemma_has_infix_occurs(u, "CANON"@);
    lemma_has_infix_occurs(u, "NIKON"@);
    lemma_has_infix_occurs(u, "LEICA"@);
    lemma_has_infix_occurs(u, "PANASONIC"@);
    lemma_has_infix_occurs(u, "LUMIX"@);
    lemma_has_infix_occurs(u, "HASSELBLAD"@);
    lemma_has_infix_occurs(u, "OLYMPUS"@);
    lemma_has_infix_occurs(u, "PENTAX"@);
    lemma_has_infix_occurs(u, "RICOH"@);
    lemma_has_infix_occurs(u, "SIGMA"@);
    lemma_has_infix_occurs(u, "APPLE"@);
    lemma_has_infix_occurs(u, "XIAOMI"@);
    lemma_has_infix_occurs(u, "HUAWEI"@);
}

/// Normalising a brand name again keeps it: a maker's fixed name names the
/// same maker again, and an unknown tag is kept as it is. (The upper-case form
/// of a fixed name is its ASCII one; `normalize_brand` states that of every
/// ASCII tag it is given.)
pub proof fn lemma_brand_idempotent(make: Seq<char>)
    requires
        brand_of(make) != make ==> uppercase(brand_of(make)) == ascii_upper(brand_of(make)),
    ensures
        brand_of(brand_of(make)) == brand_of(make),
{
    lemma_brand_rule(make);
    let b = brand_of(make);
    if b != make {
        lemma_brand_rule(b);
        reveal_strlit("APPLE");
        reveal_strlit("CANON");
        reveal_strlit("Canon");
        reveal_strlit("FUJI");
        reveal_strlit("FUJIFILM");
        reveal_strlit("HASSELBLAD");
        reveal_strlit("HUAWEI");
        reveal_strlit("IPHONE");
        reveal_strlit("LEICA");
        reveal_strlit("LUMIX");
        reveal_strlit("NIKON");
        reveal_strlit("OLYMPUS");
        reveal_strlit("PANASONIC");
        reveal_strlit("PENTAX");
        reveal_strlit("RICOH");
        reveal_strlit("SIGMA");
        reveal_strlit("SONY");
        reveal_strlit("XIAOMI");
        reveal_strlit("Xiaomi");
        reveal_strlit("iPhone");
        if b == "FUJIFILM"@ {
            assert(brand_rule(uppercase(b)) == Some(b)) by {
                assert(ascii_upper("FUJIFILM"@) =~= "FUJIFILM"@);
                reveal_with_fuel(occurs_from, 12);
                reveal_with_fuel(matches_from, 12);
            }
        } else if b == "SONY"@ {
            assert(brand_rule(uppercase(b)) == Some(b)) by {
                assert(ascii_upper("SONY"@) =~= "SONY"@);
                reveal_with_fuel(occurs_from, 12);
                reveal_with_fuel(matches_from, 12);
            }
        } else if b == "Canon"@ {
            assert(brand_rule(uppercase(b)) == Some(b)) by {
                assert(ascii_upper("Canon"@) =~= "CANON"@);
                reveal_with_fuel(occurs_from, 12);
                reveal_with_fuel(matches_from, 12);
            }
        } else if b == "NIKON"@ {
            assert(brand_rule(uppercase(b)) == Some(b)) by {
                assert(ascii_upper("NIKON"@) =~= "NIKON"@);
                reveal_with_fuel(occurs_from, 12);
                reveal_with_fuel(matches_from, 12);
            }
        } else if b == "LEICA"@ {
            assert(brand_rule(uppercase(b)) == Some(b)) by {
                assert(ascii_upper("LEICA"@) =~= "LEICA"@);
                reveal_with_fuel(occurs_from, 12);
                reveal_with_fuel(matches_from, 12);
            }
        } else if b == "LUMIX"@ {
            assert(brand_rule(uppercase(b)) == Some(b)) by {
                assert(ascii_upper("LUMIX"@) =~= "LUMIX"@);
                reveal_with_fuel(occurs_from, 12);
                reveal_with_fuel(matches_from, 12);
            }
        } else if b == "HASSELBLAD"@ {
            assert(brand_rule(uppercase(b)) == Some(b)) by {
                assert(ascii_upper("HASSELBLAD"@) =~= "HASSELBLAD"@);
                reveal_with_fuel(occurs_from, 12);
                reveal_with_fuel(matches_from, 12);
            }
        } else if b == "OLYMPUS"@ {
            assert(brand_rule(uppercase(b)) == Some(b)) by {
                assert(ascii_upper("OLYMPUS"@) =~= "OLYMPUS"@);
                reveal_with_fuel(occurs_from, 12);
                reveal_with_fuel(matches_from, 12);
            }
        } else if b == "PENTAX"@ {
            assert(brand_rule(uppercase(b)) == Some(b)) by {
                assert(ascii_upper("PENTAX"@) =~= "PENTAX"@);
                reveal_with_fuel(occurs_from, 12);
                reveal_with_fuel(matches_from, 12);
            }
        } else if b == "RICOH"@ {
            assert(brand_rule(uppercase(b)) == Some(b)) by {
                assert(ascii_upper("RICOH"@) =~= "RICOH"@);
                reveal_with_fuel(occurs_from, 12);
                reveal_with_fuel(matches_from, 12);
            }
        } else if b == "SIGMA"@ {
            assert(brand_rule(uppercase(b)) == Some(b)) by {
                assert(ascii_upper("SIGMA"@) =~= "SIGMA"@);
                reveal_with_fuel(occurs_from, 12);
                reveal_with_fuel(matches_from, 12);
            }
        } else if b == "iPhone"@ {
            assert(brand_rule(uppercase(b)) is None) by {
                assert(ascii_upper("iPhone"@) =~= "IPHONE"@);
                reveal_with_fuel(occurs_from, 12);
                reveal_with_fuel(matches_from, 12);
            }
        } else if b == "Xiaomi"@ {
            assert(brand_rule(uppercase(b)) == Some(b)) by {
                assert(ascii_upper("Xiaomi"@) =~= "XIAOMI"@);
                reveal_with_fuel(occurs_from, 12);
                reveal_with_fuel(matches_from, 12);
            }
        } else if b == "HUAWEI"@ {
            assert(brand_rule(uppercase(b)) == Some(b)) by {
                assert(ascii_upper("HUAWEI"@) =~= "HUAWEI"@);
                reveal_with_fuel(occurs_from, 12);
                reveal_with_fuel(matches_from, 12);
            }
        }
    }
}

/// Normalises a camera `Make` tag to the brand name shown in the bar.
pub fn normalize_brand(make: &str) -> (res: String)
    ensures
        res@ == brand_of(make@),
        is_ascii_text(make@) ==> uppercase(make@) == ascii_upper(make@),
        has_infix(uppercase(make@), "FUJI"@) ==> res@ == "FUJIFILM"@,
        !has_infix(uppercase(make@), "FUJI"@) && has_infix(uppercase(make@), "SONY"@) ==> res@ == "SONY"@,
        !has_infix(uppercase(make@), "FUJI"@) && !has_infix(uppercase(make@), "SONY"@) && has_infix(uppercase(make@), "CANON"@) ==> res@ == "Canon"@,
        !has_infix(uppercase(make@), "FUJI"@) && !has_infix(uppercase(make@), "SONY"@) && !has_infix(uppercase(make@), "CANON"@) && has_infix(uppercase(make@), "NIKON"@) ==> res@ == "NIKON"@,
        !has_infix(uppercase(make@), "FUJI"@) && !has_infix(uppercase(make@), "SONY"@) && !has_infix(uppercase(make@), "CANON"@) && !has_infix(uppercase(make@), "NIKON"@) && has_infix(uppercase(make@), "LEICA"@) ==> res@ == "LEICA"@,
        !has_infix(uppercase(make@), "FUJI"@) && !has_infix(uppercase(make@), "SONY"@) && !has_infix(uppercase(make@), "CANON"@) && !has_infix(uppercase(make@), "NIKON"@) && !has_infix(uppercase(make@), "LEICA"@) && (has_infix(uppercase(make@), "PANASONIC"@) || has_infix(uppercase(make@), "LUMIX"@)) ==> res@ == "LUMIX"@,
        !has_infix(uppercase(make@), "FUJI"@) && !has_infix(uppercase(make@), "SONY"@) && !has_infix(uppercase(make@), "CANON"@) && !has_infix(uppercase(make@), "NIKON"@) && !has_infix(uppercase(make@), "LEICA"@) && !has_infix(uppercase(make@), "PANASONIC"@) && !has_infix(uppercase(make@), "LUMIX"@) && has_infix(uppercase(make@), "HASSELBLAD"@) ==> res@ == "HASSELBLAD"@,
        !has_infix(uppercase(make@), "FUJI"@) && !has_infix(uppercase(make@), "SONY"@) && !has_infix(uppercase(make@), "CANON"@) && !has_infix(uppercase(make@), "NIKON"@) && !has_infix(uppercase(make@), "LEICA"@) && !has_infix(uppercase(make@), "PANASONIC"@) && !has_infix(uppercase(make@), "LUMIX"@) && !has_infix(uppercase(make@), "HASSELBLAD"@) && has_infix(uppercase(make@), "OLYMPUS"@) ==> res@ == "OLYMPUS"@,
        !has_infix(uppercase(make@), "FUJI"@) && !has_infix(uppercase(make@), "SONY"@) && !has_infix(uppercase(make@), "CANON"@) && !has_infix(uppercase(make@), "NIKON"@) && !has_infix(uppercase(make@), "LEICA"@) && !has_infix(uppercase(make@), "PANASONIC"@) && !has_infix(uppercase(make@), "LUMIX"@) && !has_infix(uppercase(make@), "HASSELBLAD"@) && !has_infix(uppercase(make@), "OLYMPUS"@) && has_infix(uppercase(make@), "PENTAX"@) ==> res@ == "PENTAX"@,
        !has_infix(uppercase(make@), "FUJI"@) && !has_infix(uppercase(make@), "SONY"@) && !has_infix(uppercase(make@), "CANON"@) && !has_infix(uppercase(make@), "NIKON"@) && !has_infix(uppercase(make@), "LEICA"@) && !has_infix(uppercase(make@), "PANASONIC"@) && !has_infix(uppercase(make@), "LUMIX"@) && !has_infix(uppercase(make@), "HASSELBLAD"@) && !has_infix(uppercase(make@), "OLYMPUS"@) && !has_infix(uppercase(make@), "PENTAX"@) && has_infix(uppercase(make@), "RICOH"@) ==> res@ == "RICOH"@,
        !has_infix(uppercase(make@), "FUJI"@) && !has_infix(uppercase(make@), "SONY"@) && !has_infix(uppercase(make@), "CANON"@) && !has_infix(uppercase(make@), "NIKON"@) && !has_infix(uppercase(make@), "LEICA"@) && !has_infix(uppercase(make@), "PANASONIC"@) && !has_infix(uppercase(make@), "LUMIX"@) && !has_infix(uppercase(make@), "HASSELBLAD"@) && !has_infix(uppercase(make@), "OLYMPUS"@) && !has_infix(uppercase(make@), "PENTAX"@) && !has_infix(uppercase(make@), "RICOH"@) && has_infix(uppercase(make@), "SIGMA"@) ==> res@ == "SIGMA"@,
        !has_infix(uppercase(make@), "FUJI"@) && !has_infix(uppercase(make@), "SONY"@) && !has_infix(uppercase(make@), "CANON"@) && !has_infix(uppercase(make@), "NIKON"@) && !has_infix(uppercase(make@), "LEICA"@) && !has_infix(uppercase(make@), "PANASONIC"@) && !has_infix(uppercase(make@), "LUMIX"@) && !has_infix(uppercase(make@), "HASSELBLAD"@) && !has_infix(uppercase(make@), "OLYMPUS"@) && !has_infix(uppercase(make@), "PENTAX"@) && !has_infix(uppercase(make@), "RICOH"@) && !has_infix(uppercase(make@), "SIGMA"@) && has_infix(uppercase(make@), "APPLE"@) ==> res@ == "iPhone"@,
        !has_infix(uppercase(make@), "FUJI"@) && !has_infix(uppercase(make@), "SONY"@) && !has_infix(uppercase(make@), "CANON"@) && !has_infix(uppercase(make@), "NIKON"@) && !has_infix(uppercase(make@), "LEICA"@) && !has_infix(uppercase(make@), "PANASONIC"@) && !has_infix(uppercase(make@), "LUMIX"@) && !has_infix(uppercase(make@), "HASSELBLAD"@) && !has_infix(uppercase(make@), "OLYMPUS"@) && !has_infix(uppercase(make@), "PENTAX"@) && !has_infix(uppercase(make@), "RICOH"@) && !has_infix(uppercase(make@), "SIGMA"@) && !has_infix(uppercase(make@), "APPLE"@) && has_infix(uppercase(make@), "XIAOMI"@) ==> res@ == "Xiaomi"@,
        !has_infix(uppercase(make@), "FUJI"@) && !has_infix(uppercase(make@), "SONY"@) && !has_infix(uppercase(make@), "CANON"@) && !has_infix(uppercase(make@), "NIKON"@) && !has_infix(uppercase(make@), "LEICA"@) && !has_infix(uppercase(make@), "PANASONIC"@) && !has_infix(uppercase(make@), "LUMIX"@) && !has_infix(uppercase(make@), "HASSELBLAD"@) && !has_infix(uppercase(make@), "OLYMPUS"@) && !has_infix(uppercase(make@), "PENTAX"@) && !has_infix(uppercase(make@), "RICOH"@) && !has_infix(uppercase(make@), "SIGMA"@) && !has_infix(uppercase(make@), "APPLE"@) && !has_infix(uppercase(make@), "XIAOMI"@) && has_infix(uppercase(make@), "HUAWEI"@) ==> res@ == "HUAWEI"@,
        !has_infix(uppercase(make@), "FUJI"@) && !has_infix(uppercase(make@), "SONY"@) && !has_infix(uppercase(make@), "CANON"@) && !has_infix(uppercase(make@), "NIKON"@) && !has_infix(uppercase(make@), "LEICA"@) && !has_infix(uppercase(make@), "PANASONIC"@) && !has_infix(uppercase(make@), "LUMIX"@) && !has_infix(uppercase(make@), "HASSELBLAD"@) && !has_infix(uppercase(make@), "OLYMPUS"@) && !has_infix(uppercase(make@), "PENTAX"@) && !has_infix(uppercase(make@), "RICOH"@) && !has_infix(uppercase(make@), "SIGMA"@) && !has_infix(uppercase(make@), "APPLE"@) && !has_infix(uppercase(make@), "XIAOMI"@) && !has_infix(uppercase(make@), "HUAWEI"@) ==> res@ == make@,
{
    let upper = to_uppercase(make);
    let u = chars_of(upper.as_str());
    if contains_chars(&u, "FUJI") {
        "FUJIFILM".to_owned()
    } else if contains_chars(&u, "SONY") {
        "SONY".to_owned()
    } else if contains_chars(&u, "CANON") {
        "Canon".to_owned()
    } else if contains_chars(&u, "NIKON") {
        "NIKON".to_owned()
    } else if contains_chars(&u, "LEICA") {
        "LEICA".to_owned()
    } else if contains_chars(&u, "PANASONIC") || contains_chars(&u, "LUMIX") {
        "LUMIX".to_owned()
    } else if contains_chars(&u, "HASSELBLAD") {
        "HASSELBLAD".to_owned()
    } else if contains_chars(&u, "OLYMPUS") {
        "OLYMPUS".to_owned()
    } else if contains_chars(&u, "PENTAX") {
        "PENTAX".to_owned()
    } else if contains_chars(&u, "RICOH") {
        "RICOH".to_owned()
    } else if contains_chars(&u, "SIGMA") {
        "SIGMA".to_owned()
    } else if contains_chars(&u, "APPLE") {
        "iPhone".to_owned()
    } else if contains_chars(&u, "XIAOMI") {
        "Xiaomi".to_owned()
    } else if contains_chars(&u, "HUAWEI") {
        "HUAWEI".to_owned()
    } else {
        make.to_owned()
    }
}

/// Fills a frame template: placeholders whose tag is missing are dropped, so an
/// empty EXIF leaves no `{fnumber}` in the bar.
pub fn format_template(template: &str, tags: &ExifTags) -> (res: String)
    ensures
        res@ == fill_template(template@, tags.lookup_fn(), false),
{
    fill_template_exec(template, tags, false)
}

/// The texts of the bar: two left lines, two right lines and the brand, with
/// templates filled and blank lines left out.
#[derive(Debug, Clone, Default)]
pub struct FrameTexts {
    pub left: Vec<String>,
    pub right: Vec<String>,
    pub brand: String,
}

/// The brand derived from the table's `make` tag (empty without one).
pub open spec fn brand_text_of(tags: ExifTags) -> Seq<char> {
    match tags.value_of("make"@) {
        Some(m) => brand_of(m),
        None => Seq::empty(),
    }
}

/// The table seen by frame templates: the EXIF tags plus `brand`.
pub open spec fn frame_lookup(tags: ExifTags) -> spec_fn(Seq<char>) -> Option<Seq<char>> {
    |k: Seq<char>|
        if k == "brand"@ {
            Some(brand_text_of(tags))
        } else {
            tags.value_of(k)
        }
}

/// The filled templates of `lines`, in order, without those that trim to nothing.
pub open spec fn nonblank_lines(
    lines: Seq<Seq<char>>,
    f: spec_fn(Seq<char>) -> Option<Seq<char>>,
) -> Seq<Seq<char>>
    decreases lines.len(),
{
    if lines.len() == 0 {
        Seq::empty()
    } else {
        let prev = nonblank_lines(lines.drop_last(), f);
        let s = fill_template(lines.last(), f, false);
        if trimmed(s).len() == 0 {
            prev
        } else {
            prev.push(s)
        }
    }
}

pub open spec fn string_views(v: Seq<String>) -> Seq<Seq<char>> {
    v.map_values(|s: String| s@)
}

fn fill_nonblank(lines: &Vec<String>, tags: &ExifTags) -> (res: Vec<String>)
    ensures
        string_views(res@) == nonblank_lines(string_views(lines@), tags.lookup_fn()),
{
    let mut out: Vec<String> = Vec::new();
    let mut i: usize = 0;
    while i < lines.len()
        invariant
            0 <= i <= lines@.len(),
            string_views(out@) == nonblank_lines(string_views(lines@).take(i as int), tags.lookup_fn()),
        decreases lines@.len() - i,
    {
        let s = format_template(lines[i].as_str(), tags);
        let t = trim(s.as_str());
        let ghost prev = out@;
        assert(string_views(lines@).take(i + 1).drop_last() =~= string_views(lines@).take(i as int));
        assert(string_views(lines@).take(i + 1).last() == lines@[i as int]@);
        if !t.as_str().is_empty() {
            out.push(s);
            assert(string_views(out@) =~= string_views(prev).push(s@));
        }
        i = i + 1;
    }
    assert(string_views(lines@).take(lines@.len() as int) =~= string_views(lines@));
    out
}

/// Resolves the frame templates against the EXIF tags: `{brand}` is the
/// normalised `make`, unknown placeholders vanish, blank lines are dropped.
pub fn resolve_texts(config: &FrameConfig, tags: &ExifTags) -> (res: FrameTexts)
    ensures
        string_views(res.left@) == nonblank_lines(string_views(config.left_lines@), frame_lookup(*tags)),
        string_views(res.right@) == nonblank_lines(
            string_views(config.right_lines@),
            frame_lookup(*tags),
        ),
        res.brand@ == if config.show_brand {
            fill_template(config.brand_template@, frame_lookup(*tags), false)
        } else {
            Seq::<char>::empty()
        },
        tags.value_of("make"@) matches Some(m) ==> (is_ascii_text(m) ==> uppercase(m) == ascii_upper(m)),
{
    let brand = match tags.get("make") {
        Some(m) => normalize_brand(m.as_str()),
        None => String::new(),
    };
    let mut aug = tags.copy();
    aug.insert("brand", brand);
    assert(aug.lookup_fn() =~= frame_lookup(*tags));
    let left = fill_nonblank(&config.left_lines, &aug);
    let right = fill_nonblank(&config.right_lines, &aug);
    let brand_text = if config.show_brand {
        format_template(config.brand_template.as_str(), &aug)
    } else {
        String::new()
    };
    FrameTexts { left, right, brand: brand_text }
}

/// The framed canvas: `photo` inside a `border` of `color` on the top, left and
/// right, above a bottom bar `bottom_bar` pixels high (which includes the lower
/// border).
pub fn frame_canvas(photo: &RgbBuffer, border: u32, bottom_bar: u32, color: [u8; 3]) -> (res: RgbBuffer)
    requires
        photo.wf(),
        photo.w() + 2 * border <= u32::MAX,
        photo.h() + border + bottom_bar <= u32::MAX,
        3 * ((photo.w() + 2 * border) * (photo.h() + border + bottom_bar)) <= usize::MAX,
    ensures
        res.wf(),
        res.w() == photo.w() + 2 * border,
        res.h() == photo.h() + border + bottom_bar,
        forall|x: int, y: int, c: int|
            0 <= x < res.w() && 0 <= y < res.h() && 0 <= c < 3 ==> #[trigger] res.at(x, y, c) == placed_byte(
                *photo,
                border as int,
                border as int,
                color,
                x,
                y,
                c,
            ),
{
    let (pw, ph) = photo.dimensions();
    let new_w = pw + border * 2;
    let new_h = ph + border + bottom_bar;
    place(photo, new_w, new_h, border, border, color)
}

/// Draws the separator line at the top of the bar: `thickness` rows from
/// `bar_top`, between the left and right borders.
pub fn draw_separator(canvas: &mut RgbBuffer, border: u32, bar_top: u32, thickness: u32, color: [u8; 3])
    requires
        old(canvas).wf(),
        2 * border <= old(canvas).w(),
        bar_top + thickness <= old(canvas).h(),
    ensures
        final(canvas).wf(),
        final(canvas).w() == old(canvas).w(),
        final(canvas).h() == old(canvas).h(),
        forall|x: int, y: int, c: int|
            0 <= x < final(canvas).w() && 0 <= y < final(canvas).h() && 0 <= c < 3 ==> #[trigger] final(canvas).at(x, y, c) == if border <= x < old(canvas).w() - border && bar_top <= y < bar_top
                + thickness {
                color[c]
            } else {
                old(canvas).at(x, y, c)
            },
{
    let w = canvas.width();
    let _h = canvas.height();
    fill_rect(canvas, border, w - border, bar_top, bar_top + thickness, color);
}

} // verus!
