use image::codecs::jpeg::JpegEncoder;
use image::{ImageEncoder, Rgb, RgbImage, Rgba, RgbaImage};
use img_parts::jpeg::Jpeg;
use img_parts::{Bytes, ImageEXIF, ImageICC};
use watermark_studio::batch::{encode_final, export_bytes, maybe_resize, ItemResult};
use watermark_studio::canvas_expand::{fit_scaled, pad_centered};
use watermark_studio::codec::{decode_image, decode_rgb, encode_jpeg, overlay, resize_rgba};
use watermark_studio::commands::{check_batch_inputs, encode_thumbnail, ping, summarize};
use watermark_studio::error::WatermarkError;
use watermark_studio::export::{ExportOptions, OutputFormat};
use watermark_studio::frame::{draw_separator, frame_canvas};
use watermark_studio::metadata::{extract, Metadata};
use watermark_studio::pixels::{apply_tint, drop_alpha, RgbBuffer, RgbaBuffer};
use watermark_studio::position::{GridPosition, WatermarkConfig};
use watermark_studio::watermark::{composite, decode_watermark, encode_with_metadata};

fn make_jpeg(w: u32, h: u32, color: Rgb<u8>) -> Vec<u8> {
    let img = RgbImage::from_pixel(w, h, color);
    let mut buf = Vec::new();
    JpegEncoder::new_with_quality(&mut buf, 95)
        .write_image(img.as_raw(), img.width(), img.height(), image::ExtendedColorType::Rgb8)
        .unwrap();
    buf
}

fn make_png(w: u32, h: u32, color: Rgba<u8>) -> Vec<u8> {
    let img = RgbaImage::from_pixel(w, h, color);
    let mut buf = Vec::new();
    image::codecs::png::PngEncoder::new(&mut buf)
        .write_image(img.as_raw(), img.width(), img.height(), image::ExtendedColorType::Rgba8)
        .unwrap();
    buf
}

fn rgba(w: u32, h: u32, px: [u8; 4]) -> RgbaBuffer {
    let mut data = Vec::new();
    for _ in 0..(w * h) {
        data.extend_from_slice(&px);
    }
    RgbaBuffer::from_raw(w, h, data).unwrap()
}

fn cfg(pos: GridPosition, size: f32, opacity: f32) -> WatermarkConfig {
    WatermarkConfig {
        position: pos,
        size_ratio_bits: size.to_bits(),
        opacity_bits: opacity.to_bits(),
        margin_x: 0,
        margin_y: 0,
        landscape_override: None,
        tint: None,
        exif_text: None,
        frame: None,
        canvas_ratio: None,
    }
}

/// The signature pipeline as the application runs it: the steps that scale
/// by a ratio are done here in floating point, the rest by the library.
fn run_pipeline(src: &[u8], wm_png: &[u8], c: &WatermarkConfig) -> Vec<u8> {
    let meta = extract(src).unwrap_or_else(|_| Metadata::empty());
    let base = decode_image(src).unwrap();
    let raw = decode_watermark(wm_png).unwrap();
    let (iw, ih) = base.dimensions();
    let size = f32::from_bits(c.size_ratio_bits);
    let tw = ((iw.min(ih) as f32 * size).round() as u32).max(1);
    let (ow, oh) = raw.dimensions();
    let th = (((oh as f32) * (tw as f32) / (ow as f32)).round() as u32).max(1);
    let mut wm = resize_rgba(&raw, tw, th);
    if let Some(rgb) = c.tint {
        wm = apply_tint(wm, rgb);
    }
    let opacity = f32::from_bits(c.opacity_bits);
    if (opacity - 1.0).abs() >= f32::EPSILON {
        let (w, h) = wm.dimensions();
        let mut data = wm.into_raw();
        for p in data.chunks_mut(4) {
            p[3] = ((p[3] as f32) * opacity.clamp(0.0, 1.0)).round().clamp(0.0, 255.0) as u8;
        }
        wm = RgbaBuffer::from_raw(w, h, data).unwrap();
    }
    let composed = composite(base, &wm, c).unwrap();
    encode_with_metadata(&composed, &meta).unwrap().unwrap()
}

#[test]
fn tint_replaces_rgb_preserves_alpha() {
    let wm = rgba(4, 4, [255, 255, 255, 200]);
    let out = apply_tint(wm, [200, 50, 30]);
    assert_eq!(out.get_pixel(0, 0), [200, 50, 30, 200]);
}

#[test]
fn tint_skips_transparent_pixels() {
    let wm = RgbaBuffer::from_raw(2, 1, vec![255, 255, 255, 255, 0, 0, 0, 0]).unwrap();
    let out = apply_tint(wm, [255, 0, 0]);
    assert_eq!(out.get_pixel(0, 0), [255, 0, 0, 255]);
    assert_eq!(out.get_pixel(1, 0), [0, 0, 0, 0]);
}

#[test]
fn watermark_placed_at_top_left() {
    let base = make_jpeg(200, 200, Rgb([255, 255, 255]));
    let wm_src = make_png(40, 40, Rgba([255, 0, 0, 255]));
    let out = run_pipeline(&base, &wm_src, &cfg(GridPosition::TopLeft, 0.2, 1.0));
    let decoded = image::load_from_memory(&out).unwrap().to_rgb8();
    let p = decoded.get_pixel(5, 5);
    assert!(p[0] > 200 && p[1] < 60 && p[2] < 60, "(5,5) should be red, got {:?}", p);
    let p = decoded.get_pixel(150, 150);
    assert!(p[0] > 240 && p[1] > 240 && p[2] > 240, "(150,150) should be white, got {:?}", p);
}

#[test]
fn watermark_placed_at_bottom_right() {
    let base = make_jpeg(200, 200, Rgb([255, 255, 255]));
    let wm_src = make_png(40, 40, Rgba([0, 0, 255, 255]));
    let out = run_pipeline(&base, &wm_src, &cfg(GridPosition::BottomRight, 0.2, 1.0));
    let decoded = image::load_from_memory(&out).unwrap().to_rgb8();
    let p = decoded.get_pixel(195, 195);
    assert!(p[2] > 200 && p[0] < 60 && p[1] < 60, "(195,195) should be blue, got {:?}", p);
    let p = decoded.get_pixel(10, 10);
    assert!(p[0] > 240 && p[1] > 240 && p[2] > 240, "(10,10) should be white, got {:?}", p);
}

#[test]
fn output_is_valid_jpeg() {
    let base = make_jpeg(300, 200, Rgb([100, 150, 200]));
    let wm = make_png(50, 50, Rgba([0, 0, 0, 255]));
    let out = run_pipeline(&base, &wm, &cfg(GridPosition::Center, 0.15, 0.8));
    let decoded = image::load_from_memory(&out).unwrap();
    assert_eq!((decoded.width(), decoded.height()), (300, 200));
}

#[test]
fn end_to_end_preserves_exif_and_icc() {
    let bare = make_jpeg(300, 200, Rgb([100, 150, 200]));
    let src_exif: &[u8] = &[
        0x45, 0x78, 0x69, 0x66, 0x00, 0x00, 0x49, 0x49, 0x2A, 0x00, 0x08, 0x00, 0x00, 0x00, 0x01,
        0x00, 0x0E, 0x01, 0x02, 0x00, 0x05, 0x00, 0x00, 0x00, b'P', b'H', b'O', b'T', 0x00, 0x00,
        0x00, 0x00, 0x00,
    ];
    let src_icc: &[u8] = b"FAKE_ICC_PROFILE_FOR_TEST";
    let mut jpeg = Jpeg::from_bytes(Bytes::from(bare)).unwrap();
    jpeg.set_exif(Some(Bytes::from(src_exif.to_vec())));
    jpeg.set_icc_profile(Some(Bytes::from(src_icc.to_vec())));
    let mut src_with_meta = Vec::new();
    jpeg.encoder().write_to(&mut src_with_meta).unwrap();

    let wm = make_png(30, 30, Rgba([255, 0, 0, 200]));
    let output = run_pipeline(&src_with_meta, &wm, &cfg(GridPosition::BottomRight, 0.1, 0.8));

    let recovered = extract(&output).unwrap();
    assert!(recovered.exif.is_some(), "the output keeps the EXIF block");
    assert!(recovered.icc.is_some(), "the output keeps the ICC profile");
    assert!(recovered.exif.as_ref().unwrap().windows(4).any(|w| w == b"PHOT"));
    assert_eq!(&recovered.icc.as_ref().unwrap()[..], src_icc);
    let decoded = image::load_from_memory(&output).unwrap();
    assert_eq!((decoded.width(), decoded.height()), (300, 200));
}

#[test]
fn watermark_with_tint_shows_tint_color() {
    let base = make_jpeg(100, 100, Rgb([255, 255, 255]));
    let wm = make_png(30, 30, Rgba([255, 255, 255, 255]));
    let mut c = cfg(GridPosition::TopLeft, 0.3, 1.0);
    c.tint = Some([255, 0, 0]);
    let out = run_pipeline(&base, &wm, &c);
    let decoded = image::load_from_memory(&out).unwrap().to_rgb8();
    let p = decoded.get_pixel(5, 5);
    assert!(p[0] > 200 && p[1] < 60 && p[2] < 60, "a white signature tinted red shows red, got {:?}", p);
}

#[test]
fn composite_rejects_oversized_watermark() {
    let base = rgba(10, 10, [0, 0, 0, 255]);
    let wm = rgba(11, 5, [255, 0, 0, 255]);
    match composite(base, &wm, &cfg(GridPosition::Center, 0.2, 1.0)) {
        Err(WatermarkError::WatermarkTooLarge { img_w, img_h, wm_w, wm_h }) => {
            assert_eq!((img_w, img_h, wm_w, wm_h), (10, 10, 11, 5));
        }
        other => panic!("unexpected {:?}", other.map(|b| b.dimensions())),
    }
}

#[test]
fn composite_transparent_pixels_leave_photo() {
    let base = rgba(4, 4, [10, 20, 30, 255]);
    let wm = RgbaBuffer::from_raw(2, 1, vec![255, 0, 0, 255, 0, 255, 0, 0]).unwrap();
    let out = composite(base, &wm, &cfg(GridPosition::TopLeft, 0.2, 1.0)).unwrap();
    assert_eq!(out.get_pixel(0, 0), [255, 0, 0]);
    assert_eq!(out.get_pixel(1, 0), [10, 20, 30]);
    assert_eq!(out.get_pixel(3, 3), [10, 20, 30]);
}

#[test]
fn overlay_half_alpha_blends() {
    let base = rgba(1, 1, [0, 0, 0, 255]);
    let top = rgba(1, 1, [255, 255, 255, 128]);
    let out = overlay(base, &top, 0, 0);
    let p = out.get_pixel(0, 0);
    assert!(p[0] > 100 && p[0] < 160, "a half-transparent white on black is grey, got {:?}", p);
    assert!(p[3] >= 254);
}

#[test]
fn drop_alpha_keeps_colors() {
    let img = RgbaBuffer::from_raw(2, 1, vec![1, 2, 3, 4, 5, 6, 7, 8]).unwrap();
    let out = drop_alpha(&img);
    assert_eq!(out.into_raw(), vec![1, 2, 3, 5, 6, 7]);
}

#[test]
fn decode_watermark_rejects_garbage() {
    assert!(matches!(decode_watermark(b"nope"), Err(WatermarkError::Image(_))));
}

#[test]
fn decode_image_reads_size() {
    let png = make_png(7, 3, Rgba([1, 2, 3, 4]));
    let img = decode_image(&png).unwrap();
    assert_eq!(img.dimensions(), (7, 3));
    assert_eq!(img.get_pixel(6, 2), [1, 2, 3, 4]);
    let rgb = decode_rgb(&png).unwrap();
    assert_eq!(rgb.get_pixel(0, 0), [1, 2, 3]);
}

#[test]
fn resize_rgba_changes_size() {
    let img = rgba(8, 4, [9, 9, 9, 255]);
    let out = resize_rgba(&img, 4, 2);
    assert_eq!(out.dimensions(), (4, 2));
    let same = resize_rgba(&img, 8, 4);
    assert_eq!(same.as_raw(), img.as_raw());
}

#[test]
fn encode_jpeg_refuses_empty_image() {
    let img = RgbBuffer::from_raw(0, 0, Vec::new()).unwrap();
    assert!(matches!(encode_jpeg(&img, 90), Err(WatermarkError::Image(_))));
}

#[test]
fn png_output_format() {
    let img = RgbBuffer::from_pixel(200, 150, [100, 100, 100]);
    let opts = ExportOptions { format: OutputFormat::Png, ..Default::default() };
    let bytes = export_bytes(&img, &Metadata::empty(), &opts).unwrap().unwrap();
    assert_eq!(image::guess_format(&bytes).unwrap(), image::ImageFormat::Png);
    let decoded = image::load_from_memory(&bytes).unwrap().to_rgb8();
    assert_eq!(decoded.dimensions(), (200, 150));
    assert_eq!(decoded.get_pixel(10, 10).0, [100, 100, 100]);
}

#[test]
fn webp_output_format() {
    let img = RgbBuffer::from_pixel(200, 150, [100, 100, 100]);
    let opts = ExportOptions { format: OutputFormat::Webp, quality: 80, ..Default::default() };
    let bytes = encode_final(&img, &opts).unwrap();
    assert_eq!(image::guess_format(&bytes).unwrap(), image::ImageFormat::WebP);
    let decoded = image::load_from_memory(&bytes).unwrap().to_rgb8();
    assert_eq!(decoded.get_pixel(10, 10).0, [100, 100, 100]);
}

#[test]
fn resize_with_long_side_limit() {
    let img = RgbBuffer::from_pixel(6000, 4000, [100, 100, 100]);
    let out = maybe_resize(&img, Some(2048)).unwrap();
    assert_eq!(out.width(), 2048);
    assert_eq!(out.height(), 1365);
}

#[test]
fn resize_not_needed_within_limit() {
    let img = RgbBuffer::from_pixel(300, 200, [1, 1, 1]);
    assert!(maybe_resize(&img, Some(300)).is_none());
    assert!(maybe_resize(&img, None).is_none());
    assert!(maybe_resize(&img, Some(0)).is_none());
    let tall = maybe_resize(&RgbBuffer::from_pixel(10, 1000, [1, 1, 1]), Some(100)).unwrap();
    assert_eq!(tall.dimensions(), (1, 100));
}

#[test]
fn export_jpeg_writes_metadata_back() {
    let img = RgbBuffer::from_pixel(64, 48, [50, 60, 70]);
    let meta = Metadata { exif: Some(b"II*\0EXIFDATA".to_vec()), icc: Some(b"PROFILE".to_vec()) };
    let opts = ExportOptions::default();
    let bytes = export_bytes(&img, &meta, &opts).unwrap().unwrap();
    let back = extract(&bytes).unwrap();
    assert_eq!(back.exif, meta.exif);
    assert_eq!(back.icc, meta.icc);
}

#[test]
fn encoded_jpeg_is_plain_for_img_parts() {
    let img = RgbBuffer::from_pixel(9, 7, [10, 200, 30]);
    let bytes = encode_jpeg(&img, 80).unwrap();
    let jpeg = Jpeg::from_bytes(Bytes::from(bytes.clone())).unwrap();
    let segs = jpeg.segments();
    assert!(segs.len() >= 4);
    assert_eq!(segs.last().unwrap().marker(), 0xDA);
    assert!(segs.iter().all(|s| s.marker() != 0xE1 && s.marker() != 0xE2));
    let back = extract(&bytes).unwrap();
    assert!(back.exif.is_none());
    assert!(back.icc.is_none());
}

#[test]
fn export_refuses_exif_longer_than_one_segment() {
    let img = RgbBuffer::from_pixel(8, 8, [1, 2, 3]);
    let meta = Metadata { exif: Some(vec![0u8; 65528]), icc: None };
    assert!(export_bytes(&img, &meta, &ExportOptions::default()).is_none());
    assert!(encode_with_metadata(&img, &meta).is_none());
    let fits = Metadata { exif: Some(vec![7u8; 65527]), icc: None };
    let bytes = export_bytes(&img, &fits, &ExportOptions::default()).unwrap().unwrap();
    assert_eq!(extract(&bytes).unwrap().exif, fits.exif);
}

#[test]
fn export_options_defaults() {
    let o = ExportOptions::default();
    assert_eq!(o.quality, 95);
    assert_eq!(o.format, OutputFormat::Jpeg);
    assert!(o.max_long_side.is_none());
    assert!(o.target_size.is_none());
    assert_eq!(o.target_fill_color, [255, 255, 255]);
}

#[test]
fn expand_wide_image_adds_height() {
    let img = RgbBuffer::from_pixel(400, 200, [100, 100, 100]);
    let out = pad_centered(&img, 400, 400, [255, 255, 255]);
    assert_eq!(out.dimensions(), (400, 400));
    assert_eq!(out.get_pixel(0, 0), [255, 255, 255]);
    assert_eq!(out.get_pixel(200, 200), [100, 100, 100]);
}

#[test]
fn expand_tall_image_adds_width() {
    let img = RgbBuffer::from_pixel(200, 400, [50, 60, 70]);
    let out = pad_centered(&img, 400, 400, [255, 255, 255]);
    assert_eq!(out.dimensions(), (400, 400));
    assert_eq!(out.get_pixel(0, 0), [255, 255, 255]);
    assert_eq!(out.get_pixel(200, 200), [50, 60, 70]);
}

#[test]
fn expand_noop_when_ratio_already_matches() {
    let img = RgbBuffer::from_pixel(400, 400, [1, 2, 3]);
    let out = pad_centered(&img, 400, 400, [255, 255, 255]);
    assert_eq!(out.dimensions(), (400, 400));
    assert_eq!(out.as_raw(), img.as_raw());
}

#[test]
fn fit_to_exact_size_matches_target_dimensions() {
    let img = RgbBuffer::from_pixel(3000, 4000, [10, 20, 30]);
    let out = fit_scaled(&img, 1080, 1440, 1080, 1440, [255, 255, 255]);
    assert_eq!(out.dimensions(), (1080, 1440));
}

#[test]
fn fit_to_exact_size_pads_mismatched_ratio() {
    let img = RgbBuffer::from_pixel(4000, 3000, [10, 20, 30]);
    let out = fit_scaled(&img, 1080, 810, 1080, 1440, [255, 255, 255]);
    assert_eq!(out.dimensions(), (1080, 1440));
    assert_eq!(out.get_pixel(540, 5), [255, 255, 255]);
    assert_eq!(out.get_pixel(540, 720), [10, 20, 30]);
}

#[test]
fn frame_canvas_paints_border_and_keeps_photo() {
    let photo = RgbBuffer::from_pixel(80, 60, [100, 100, 100]);
    let mut out = frame_canvas(&photo, 5, 20, [255, 255, 255]);
    assert_eq!(out.dimensions(), (90, 85));
    assert_eq!(out.get_pixel(0, 0), [255, 255, 255]);
    assert_eq!(out.get_pixel(5, 5), [100, 100, 100]);
    assert_eq!(out.get_pixel(89, 84), [255, 255, 255]);
    draw_separator(&mut out, 5, 65, 2, [216, 216, 216]);
    assert_eq!(out.get_pixel(5, 65), [216, 216, 216]);
    assert_eq!(out.get_pixel(84, 66), [216, 216, 216]);
    assert_eq!(out.get_pixel(4, 65), [255, 255, 255]);
    assert_eq!(out.get_pixel(5, 67), [255, 255, 255]);
}

#[test]
fn ping_answers() {
    assert_eq!(ping(), "pong from Rust");
}

#[test]
fn batch_summary_counts() {
    let items = vec![
        ItemResult { input: "a".into(), output: Some("a.jpg".into()), error: None },
        ItemResult { input: "b".into(), output: None, error: Some("bad".into()) },
        ItemResult { input: "c".into(), output: Some("c.jpg".into()), error: None },
    ];
    let s = summarize(items);
    assert_eq!((s.total, s.success, s.failed), (3, 2, 1));
    assert_eq!(s.items[1].input, "b");
}

#[test]
fn batch_needs_inputs() {
    match check_batch_inputs(&Vec::new()) {
        Err(WatermarkError::InvalidParam(m)) => assert_eq!(m, "输入照片列表为空"),
        other => panic!("unexpected {:?}", other),
    }
    assert!(check_batch_inputs(&vec!["x.jpg".to_string()]).is_ok());
}

#[test]
fn thumbnail_is_small_jpeg() {
    let img = RgbBuffer::from_pixel(400, 300, [10, 200, 10]);
    let bytes = encode_thumbnail(&img, 40, 30).unwrap();
    let decoded = image::load_from_memory(&bytes).unwrap();
    assert_eq!((decoded.width(), decoded.height()), (40, 30));
}
