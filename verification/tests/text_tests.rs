use watermark_studio::text::trim;
use watermark_studio::batch::{apply_template, civil_from_days, date_stamp, output_file_name};
use watermark_studio::exif_text;
use watermark_studio::export::OutputFormat;
use watermark_studio::frame::{self, normalize_brand, resolve_texts, FrameConfig};
use watermark_studio::tags::ExifTags;

fn tags_of(pairs: &[(&str, &str)]) -> ExifTags {
    let mut t = ExifTags::new();
    for (k, v) in pairs {
        t.insert(k, v.to_string());
    }
    t
}

fn today() -> String {
    let secs = std::time::SystemTime::now()
        .duration_since(std::time::UNIX_EPOCH)
        .unwrap_or_default()
        .as_secs();
    date_stamp(secs)
}

#[test]
fn format_template_replaces_known_keys() {
    let tags = tags_of(&[
        ("make", "FUJIFILM"),
        ("model", "X-T5"),
        ("lens", "XF33mmF1.4"),
        ("fnumber", "1.4"),
        ("shutter", "1/200"),
        ("iso", "125"),
    ]);
    let tpl = "{make} {model} · {lens} · f/{fnumber} · {shutter}s · ISO {iso}";
    let result = exif_text::format_template(tpl, &tags);
    assert_eq!(result, "FUJIFILM X-T5 · XF33mmF1.4 · f/1.4 · 1/200s · ISO 125");
}

#[test]
fn format_template_keeps_unknown_keys() {
    let tags = ExifTags::new();
    let result = exif_text::format_template("{unknown_key}", &tags);
    assert_eq!(result, "{unknown_key}");
}

#[test]
fn format_template_deletes_unknown_keys() {
    let tags = ExifTags::new();
    let out = frame::format_template("A{unknown}B", &tags);
    assert_eq!(out, "AB");
}

#[test]
fn format_template_keeps_unclosed_brace() {
    let tags = tags_of(&[("iso", "100")]);
    assert_eq!(exif_text::format_template("ISO {iso} {open", &tags), "ISO 100 {open");
    assert_eq!(frame::format_template("ISO {iso} {open", &tags), "ISO 100 {open");
}

#[test]
fn format_template_plain_text_unchanged() {
    let tags = tags_of(&[("make", "SONY")]);
    assert_eq!(exif_text::format_template("no placeholders · ok", &tags), "no placeholders · ok");
}

#[test]
fn brand_normalization() {
    assert_eq!(normalize_brand("FUJIFILM"), "FUJIFILM");
    assert_eq!(normalize_brand("SONY"), "SONY");
    assert_eq!(normalize_brand("NIKON CORPORATION"), "NIKON");
    assert_eq!(normalize_brand("Canon"), "Canon");
    assert_eq!(normalize_brand("Apple"), "iPhone");
    assert_eq!(normalize_brand("Unknown Camera"), "Unknown Camera");
}

#[test]
fn brand_normalization_more_makers() {
    assert_eq!(normalize_brand("  OLYMPUS IMAGING CORP.  "), "OLYMPUS");
    assert_eq!(normalize_brand("Panasonic"), "LUMIX");
    assert_eq!(normalize_brand("LEICA CAMERA AG"), "LEICA");
    assert_eq!(normalize_brand("Hasselblad"), "HASSELBLAD");
}

#[test]
fn resolve_texts_fills_lines_and_brand() {
    let tags = tags_of(&[
        ("make", "FUJIFILM"),
        ("model", "X-T50"),
        ("lens", "XF33mmF1.4"),
        ("fnumber", "1.4"),
        ("shutter", "1/200"),
        ("iso", "125"),
        ("focal", "33mm"),
        ("date", "2026-07-01"),
    ]);
    let config = FrameConfig::default();
    let texts = resolve_texts(&config, &tags);
    assert_eq!(texts.brand, "FUJIFILM");
    assert!(!texts.left.is_empty());
    assert!(!texts.right.is_empty());
    for line in texts.left.iter().chain(texts.right.iter()) {
        assert!(!line.trim().is_empty());
    }
}

#[test]
fn resolve_texts_drops_blank_lines() {
    let tags = ExifTags::new();
    let mut config = FrameConfig::default();
    config.left_lines = vec!["{model}".to_string(), "fixed".to_string()];
    config.right_lines = vec!["{iso}".to_string()];
    let texts = resolve_texts(&config, &tags);
    assert_eq!(texts.left, vec!["fixed".to_string()]);
    assert!(texts.right.is_empty());
    assert_eq!(texts.brand, "");
}

#[test]
fn filename_template_stem() {
    let result = apply_template("{stem}_wm", "DSCF0001", 1, &today());
    assert_eq!(result, "DSCF0001_wm");
}

#[test]
fn filename_template_with_seq() {
    let result = apply_template("{stem}_{n}", "photo", 5, &today());
    assert_eq!(result, "photo_005");
}

#[test]
fn filename_template_with_date() {
    let result = apply_template("{date}_{stem}", "img", 1, &today());
    let parts: Vec<&str> = result.splitn(2, '_').collect();
    assert_eq!(parts.len(), 2);
    assert_eq!(parts[0].len(), 8, "the date has 8 digits");
    assert!(parts[0].chars().all(|c| c.is_ascii_digit()));
    assert_eq!(parts[1], "img");
}

#[test]
fn filename_template_complex() {
    let result = apply_template("wedding/{date}_{stem}_{n}", "DSCF0001", 42, &today());
    assert!(result.starts_with("wedding/"));
    assert!(result.contains("_DSCF0001_042"));
}

#[test]
fn filename_template_unknown_and_unclosed() {
    assert_eq!(apply_template("{x}_{stem", "a", 1, "20240101"), "{x}_{stem");
    assert_eq!(apply_template("{n}", "a", 1234, "20240101"), "1234");
}

#[test]
fn output_file_name_adds_extension() {
    assert_eq!(output_file_name("{stem}_{n}", "test", 1, "20240101", OutputFormat::Jpeg), "test_001.jpg");
    assert_eq!(output_file_name("{stem}", "test", 1, "20240101", OutputFormat::Png), "test.png");
    assert_eq!(output_file_name("{date}", "x", 1, "20240101", OutputFormat::Webp), "20240101.webp");
}

#[test]
fn extensions_of_formats() {
    assert_eq!(OutputFormat::Jpeg.extension(), "jpg");
    assert_eq!(OutputFormat::Png.extension(), "png");
    assert_eq!(OutputFormat::Webp.extension(), "webp");
    assert_eq!(OutputFormat::default(), OutputFormat::Jpeg);
}

#[test]
fn date_stamp_known_days() {
    assert_eq!(date_stamp(0), "19700101");
    assert_eq!(date_stamp(86_399), "19700101");
    assert_eq!(date_stamp(951_782_400), "20000229");
    assert_eq!(date_stamp(1_709_251_199), "20240229");
    assert_eq!(date_stamp(1_709_251_200), "20240301");
    assert_eq!(date_stamp(4_102_444_800), "21000101");
}

#[test]
fn civil_from_days_epoch_and_leap_days() {
    assert_eq!(civil_from_days(719_468), (1970, 1, 1));
    assert_eq!(civil_from_days(0), (0, 3, 1));
    assert_eq!(civil_from_days(-1), (0, 2, 29));
    assert_eq!(civil_from_days(719_468 + 11_016), (2000, 2, 29));
}

#[test]
fn filename_template_keeps_other_characters() {
    assert_eq!(apply_template("照片_{stem}", "a", 1, "20240101"), "照片_a");
    assert_eq!(output_file_name("婚礼-{n}", "x", 7, "20240101", OutputFormat::Png), "婚礼-007.png");
}

#[test]
fn brand_normalization_is_idempotent() {
    for make in ["FUJIFILM", "Canon", "NIKON CORPORATION", "Apple", "Xiaomi", "Panasonic", "Unknown Camera", "ricoh imaging"] {
        let once = normalize_brand(make);
        assert_eq!(normalize_brand(&once), once, "{make}");
    }
}

#[test]
fn text_to_render_none_when_disabled() {
    let config = exif_text::ExifTextConfig { enabled: false, ..Default::default() };
    let mut tags = ExifTags::new();
    tags.insert("make", "SONY".to_string());
    assert!(exif_text::text_to_render(&config, &tags).is_none());
    assert!(exif_text::text_to_render(&config, &ExifTags::new()).is_none());
}

#[test]
fn text_to_render_none_for_empty_exif() {
    let config = exif_text::ExifTextConfig { enabled: true, ..Default::default() };
    assert!(exif_text::text_to_render(&config, &ExifTags::new()).is_none());
}

#[test]
fn text_to_render_empty_custom_text_is_none() {
    let config = exif_text::ExifTextConfig {
        enabled: true,
        custom_text: Some(String::new()),
        ..Default::default()
    };
    let mut tags = ExifTags::new();
    tags.insert("make", "SONY".to_string());
    assert!(exif_text::text_to_render(&config, &tags).is_none());
}

#[test]
fn text_to_render_custom_text_ignores_exif() {
    let config = exif_text::ExifTextConfig {
        enabled: true,
        custom_text: Some("© Photographer".to_string()),
        ..Default::default()
    };
    assert_eq!(exif_text::text_to_render(&config, &ExifTags::new()).as_deref(), Some("© Photographer"));
    let mut tags = ExifTags::new();
    tags.insert("make", "SONY".to_string());
    assert_eq!(exif_text::text_to_render(&config, &tags).as_deref(), Some("© Photographer"));
}

#[test]
fn text_to_render_fills_template_from_exif() {
    let config = exif_text::ExifTextConfig {
        enabled: true,
        template: "{make} ISO {iso}".to_string(),
        ..Default::default()
    };
    let mut tags = ExifTags::new();
    tags.insert("make", "SONY".to_string());
    tags.insert("iso", "100".to_string());
    assert_eq!(exif_text::text_to_render(&config, &tags).as_deref(), Some("SONY ISO 100"));
}

#[test]
fn trim_removes_unicode_white_space_at_both_ends() {
    assert_eq!(trim("  a b \t\n"), "a b");
    assert_eq!(trim("\u{3000}照片\u{00A0}"), "照片");
    assert_eq!(trim(" \u{2028} "), "");
    assert_eq!(trim("x"), "x");
    assert_eq!(trim("\u{200B}x"), "\u{200B}x");
}
