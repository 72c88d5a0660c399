use watermark_studio::error::WatermarkError;
use watermark_studio::position::{compute_position, is_landscape, scale_base, GridPosition, WatermarkConfig};

fn cfg(position: GridPosition, margin: u32) -> WatermarkConfig {
    WatermarkConfig {
        position,
        size_ratio_bits: 0.15f32.to_bits(),
        opacity_bits: 0.8f32.to_bits(),
        margin_x: margin,
        margin_y: margin,
        landscape_override: None,
        tint: None,
        exif_text: None,
        frame: None,
        canvas_ratio: None,
    }
}

#[test]
fn landscape_detection() {
    assert!(is_landscape(3000, 2000));
    assert!(is_landscape(1000, 1000));
    assert!(!is_landscape(2000, 3000));
}

#[test]
fn short_side_scale_base() {
    assert_eq!(scale_base(3000, 2000), 2000);
    assert_eq!(scale_base(2000, 3000), 2000);
    // The target width is the short side times the ratio, so it does not
    // depend on the orientation either.
    let width = |w: u32, h: u32| ((scale_base(w, h) as f32 * 0.15f32).round() as u32).max(1);
    assert_eq!(width(3000, 2000), width(2000, 3000));
}

#[test]
fn nine_grid_landscape_all_positions() {
    let (iw, ih) = (1000u32, 600u32);
    let (ww, wh) = (100u32, 50u32);
    let m = 20u32;
    let cases = [
        (GridPosition::TopLeft, (20, 20)),
        (GridPosition::TopCenter, (450, 20)),
        (GridPosition::TopRight, (880, 20)),
        (GridPosition::MiddleLeft, (20, 275)),
        (GridPosition::Center, (450, 275)),
        (GridPosition::MiddleRight, (880, 275)),
        (GridPosition::BottomLeft, (20, 530)),
        (GridPosition::BottomCenter, (450, 530)),
        (GridPosition::BottomRight, (880, 530)),
    ];
    for (pos, expected) in cases {
        let c = cfg(pos, m);
        let (x, y) = compute_position(iw, ih, ww, wh, &c).unwrap();
        assert_eq!((x, y), (expected.0 as i64, expected.1 as i64), "position {:?}", pos);
    }
}

#[test]
fn nine_grid_portrait_bottom_right() {
    let c = cfg(GridPosition::BottomRight, 30);
    let (x, y) = compute_position(2000, 3000, 300, 100, &c).unwrap();
    assert_eq!((x, y), (2000 - 300 - 30, 3000 - 100 - 30));
}

#[test]
fn landscape_override_applied() {
    let mut c = cfg(GridPosition::BottomRight, 20);
    c.landscape_override = Some(GridPosition::BottomLeft);
    let (x, _y) = compute_position(1000, 2000, 100, 50, &c).unwrap();
    assert_eq!(x, 1000 - 100 - 20);
    let (x, _y) = compute_position(2000, 1000, 100, 50, &c).unwrap();
    assert_eq!(x, 20);
}

#[test]
fn watermark_too_large_errors() {
    let c = cfg(GridPosition::Center, 0);
    let err = compute_position(100, 100, 200, 50, &c).unwrap_err();
    match err {
        WatermarkError::WatermarkTooLarge { .. } => {}
        _ => panic!("expected WatermarkTooLarge"),
    }
}

#[test]
fn too_large_error_carries_both_sizes() {
    let c = cfg(GridPosition::TopLeft, 0);
    match compute_position(100, 80, 60, 90, &c) {
        Err(WatermarkError::WatermarkTooLarge { img_w, img_h, wm_w, wm_h }) => {
            assert_eq!((img_w, img_h, wm_w, wm_h), (100, 80, 60, 90));
        }
        other => panic!("unexpected {:?}", other),
    }
}

#[test]
fn margins_larger_than_the_room_are_clamped() {
    // A 100 px margin on a 150 px photo with a 100 px watermark: the watermark
    // stays inside the photo.
    let c = cfg(GridPosition::BottomRight, 100);
    let (x, y) = compute_position(150, 150, 100, 100, &c).unwrap();
    assert!(x >= 0 && x + 100 <= 150);
    assert!(y >= 0 && y + 100 <= 150);
}

#[test]
fn watermark_as_large_as_photo_sits_at_origin() {
    let c = cfg(GridPosition::Center, 10);
    assert_eq!(compute_position(200, 100, 200, 100, &c).unwrap(), (0, 0));
}

#[test]
fn default_position_is_center() {
    assert_eq!(GridPosition::default(), GridPosition::Center);
}
