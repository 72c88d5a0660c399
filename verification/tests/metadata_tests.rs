use image::codecs::jpeg::JpegEncoder;
use image::{ImageEncoder, RgbImage};
use img_parts::jpeg::Jpeg;
use img_parts::{Bytes, ImageEXIF, ImageICC};
use watermark_studio::exif_text::parse_exif;
use watermark_studio::metadata::{extract, extract_checked, inject, inject_checked, Metadata};

fn make_test_jpeg(exif: Option<Vec<u8>>, icc: Option<Vec<u8>>) -> Vec<u8> {
    let img = RgbImage::from_pixel(50, 50, image::Rgb([120, 120, 120]));
    let mut base = Vec::new();
    JpegEncoder::new_with_quality(&mut base, 95)
        .write_image(img.as_raw(), img.width(), img.height(), image::ExtendedColorType::Rgb8)
        .unwrap();
    let mut jpeg = Jpeg::from_bytes(Bytes::from(base)).unwrap();
    if let Some(e) = exif {
        jpeg.set_exif(Some(Bytes::from(e)));
    }
    if let Some(i) = icc {
        jpeg.set_icc_profile(Some(Bytes::from(i)));
    }
    let mut out = Vec::new();
    jpeg.encoder().write_to(&mut out).unwrap();
    out
}

fn dummy_exif() -> Vec<u8> {
    let mut buf = Vec::new();
    buf.extend_from_slice(b"Exif\0\0");
    buf.extend_from_slice(&[0x49, 0x49, 0x2A, 0x00, 0x08, 0x00, 0x00, 0x00]);
    buf.extend_from_slice(&[0x01, 0x00]);
    buf.extend_from_slice(&[
        0x0E, 0x01, 0x02, 0x00, 0x05, 0x00, 0x00, 0x00, b'T', b'E', b'S', b'T', 0x00,
    ]);
    buf.extend_from_slice(&[0x00, 0x00, 0x00, 0x00]);
    buf
}

fn dummy_icc() -> Vec<u8> {
    b"ICC_TEST_PROFILE_BYTES_SIMULATION_1234567890".to_vec()
}

#[test]
fn extract_from_bare_jpeg_returns_empty() {
    let bare = make_test_jpeg(None, None);
    let m = extract(&bare).unwrap();
    assert!(!m.has_any());
}

#[test]
fn extract_exif_roundtrip() {
    let src = make_test_jpeg(Some(dummy_exif()), None);
    let m = extract(&src).unwrap();
    assert!(m.exif.is_some());
    assert!(m.icc.is_none());
    let exif_bytes = m.exif.as_ref().unwrap();
    assert!(exif_bytes.windows(4).any(|w| w == b"TEST"), "the EXIF block keeps its TEST marker");
}

#[test]
fn extract_icc_roundtrip() {
    let src = make_test_jpeg(None, Some(dummy_icc()));
    let m = extract(&src).unwrap();
    assert!(m.icc.is_some());
    let icc_bytes = m.icc.as_ref().unwrap();
    assert!(icc_bytes.windows(8).any(|w| w == b"ICC_TEST"), "the profile keeps its ICC_TEST marker");
}

#[test]
fn inject_preserves_exif_bytes() {
    let src = make_test_jpeg(Some(dummy_exif()), None);
    let meta = extract(&src).unwrap();
    let bare = make_test_jpeg(None, None);
    let with_meta = inject(bare, &meta).unwrap();
    let recovered = extract(&with_meta).unwrap();
    assert_eq!(recovered.exif, meta.exif, "the EXIF bytes come back unchanged");
}

#[test]
fn inject_preserves_icc_bytes() {
    let src = make_test_jpeg(None, Some(dummy_icc()));
    let meta = extract(&src).unwrap();
    let bare = make_test_jpeg(None, None);
    let with_meta = inject(bare, &meta).unwrap();
    let recovered = extract(&with_meta).unwrap();
    assert_eq!(recovered.icc, meta.icc, "the ICC bytes come back unchanged");
}

#[test]
fn inject_preserves_both_exif_and_icc() {
    let src = make_test_jpeg(Some(dummy_exif()), Some(dummy_icc()));
    let meta = extract(&src).unwrap();
    assert!(meta.exif.is_some() && meta.icc.is_some());
    let bare = make_test_jpeg(None, None);
    let with_meta = inject(bare, &meta).unwrap();
    let recovered = extract(&with_meta).unwrap();
    assert_eq!(recovered.exif, meta.exif);
    assert_eq!(recovered.icc, meta.icc);
}

#[test]
fn inject_empty_metadata_is_noop() {
    let bare = make_test_jpeg(None, None);
    let expected = bare.clone();
    let out = inject(bare, &Metadata::empty()).unwrap();
    assert_eq!(out, expected);
}

#[test]
fn roundtrip_inject_extract_parse() {
    let src = make_test_jpeg(Some(dummy_exif()), None);
    let meta = extract(&src).unwrap();
    assert!(meta.exif.is_some(), "the EXIF block is found");
    let parsed = parse_exif(meta.exif.as_ref().unwrap());
    let tags = parsed.tags;
    assert!(!tags.contains_key("make") || tags.get("make").unwrap() != "");
}

#[test]
fn extract_rejects_non_jpeg() {
    assert!(extract(b"not a jpeg at all").is_err());
    assert!(matches!(
        extract_checked(b"\x89PNG\r\n"),
        Some(Err(watermark_studio::error::WatermarkError::JpegParts(_)))
    ));
}

#[test]
fn inject_into_non_jpeg_fails() {
    let meta = Metadata { exif: Some(b"II*\0".to_vec()), icc: None };
    assert!(matches!(
        inject(b"garbage".to_vec(), &meta),
        Err(watermark_studio::error::WatermarkError::JpegParts(_))
    ));
}

#[test]
fn inject_replaces_existing_metadata() {
    let src = make_test_jpeg(Some(dummy_exif()), Some(dummy_icc()));
    let meta = Metadata { exif: Some(b"II*\0NEW".to_vec()), icc: Some(b"OTHER_PROFILE".to_vec()) };
    let out = inject(src, &meta).unwrap();
    let back = extract(&out).unwrap();
    assert_eq!(back.exif, meta.exif);
    assert_eq!(back.icc, meta.icc);
}

#[test]
fn checked_variants_agree_on_ordinary_input() {
    let src = make_test_jpeg(Some(dummy_exif()), Some(dummy_icc()));
    let meta = extract_checked(&src).unwrap().unwrap();
    let bare = make_test_jpeg(None, None);
    let out = inject_checked(bare.clone(), &meta).unwrap().unwrap();
    assert_eq!(out, inject(bare, &meta).unwrap());
}

#[test]
fn checked_inject_refuses_short_jpeg() {
    // SOI, one APP0 segment and a scan: fewer than three segments around the
    // insertion point, where img_parts would panic.
    let tiny = vec![0xFF, 0xD8, 0xFF, 0xE0, 0x00, 0x02, 0xFF, 0xDA, 0x00, 0x02, 0x01, 0x02];
    let meta = Metadata { exif: Some(b"II*\0".to_vec()), icc: None };
    assert!(inject_checked(tiny, &meta).is_none());
}

#[test]
fn large_icc_profile_spans_segments() {
    let profile: Vec<u8> = (0..140_000u32).map(|i| (i % 251) as u8).collect();
    let meta = Metadata { exif: None, icc: Some(profile.clone()) };
    let bare = make_test_jpeg(None, None);
    let out = inject(bare, &meta).unwrap();
    let back = extract(&out).unwrap();
    assert_eq!(back.icc, Some(profile));
}

#[test]
fn parse_exif_of_unreadable_block_is_empty() {
    let p = parse_exif(&[]);
    assert!(p.tags.is_empty());
    assert!(p.fnumber.is_none() && p.focal.is_none() && p.exposure.is_none());
    assert!(parse_exif(b"Exif\0\0garbage").tags.is_empty());
}

#[test]
fn parse_exif_marker_is_optional() {
    let block = dummy_exif();
    let with = parse_exif(&block);
    let without = parse_exif(&block[6..]);
    assert_eq!(with.tags.is_empty(), without.tags.is_empty());
    assert_eq!(with.fnumber, without.fnumber);
}
