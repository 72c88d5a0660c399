use watermark_studio::commands::check_preset_name;
use watermark_studio::error::WatermarkError;
use watermark_studio::position::{GridPosition, WatermarkConfig};
use watermark_studio::preset::{delete, upsert, Preset};

fn sample(name: &str) -> Preset {
    Preset {
        name: name.to_string(),
        config: WatermarkConfig {
            position: GridPosition::BottomRight,
            size_ratio_bits: 0.15f32.to_bits(),
            opacity_bits: 0.8f32.to_bits(),
            margin_x: 30,
            margin_y: 30,
            landscape_override: None,
            tint: None,
            exif_text: None,
            frame: None,
            canvas_ratio: None,
        },
        watermark_path: Some("C:/sig.png".to_string()),
    }
}

#[test]
fn upsert_creates_and_updates() {
    let list = upsert(Vec::new(), sample("微博发图"));
    assert_eq!(list.len(), 1);
    assert_eq!(list[0].name, "微博发图");

    let mut updated = sample("微博发图");
    updated.config.size_ratio_bits = 0.25f32.to_bits();
    let list = upsert(list, updated);
    assert_eq!(list.len(), 1);
    assert!((f32::from_bits(list[0].config.size_ratio_bits) - 0.25).abs() < f32::EPSILON);
}

#[test]
fn upsert_multiple_and_persists() {
    let list = upsert(Vec::new(), sample("A"));
    let list = upsert(list, sample("B"));
    let list = upsert(list, sample("C"));
    assert_eq!(list.len(), 3);
    let names: Vec<&str> = list.iter().map(|p| p.name.as_str()).collect();
    assert_eq!(names, vec!["A", "B", "C"]);
}

#[test]
fn delete_removes_by_name() {
    let list = upsert(upsert(Vec::new(), sample("A")), sample("B"));
    let list = delete(list, "A");
    assert_eq!(list.len(), 1);
    assert_eq!(list[0].name, "B");
}

#[test]
fn delete_nonexistent_is_noop() {
    let list = upsert(Vec::new(), sample("A"));
    let list = delete(list, "不存在");
    assert_eq!(list.len(), 1);
}

#[test]
fn upsert_keeps_position_of_replaced_preset() {
    let list = upsert(upsert(upsert(Vec::new(), sample("A")), sample("B")), sample("C"));
    let mut b2 = sample("B");
    b2.config.margin_x = 7;
    let list = upsert(list, b2);
    let names: Vec<&str> = list.iter().map(|p| p.name.as_str()).collect();
    assert_eq!(names, vec!["A", "B", "C"]);
    assert_eq!(list[1].config.margin_x, 7);
}

#[test]
fn upsert_then_delete_removes_it() {
    let list = upsert(Vec::new(), sample("A"));
    let list = delete(upsert(list, sample("X")), "X");
    let names: Vec<&str> = list.iter().map(|p| p.name.as_str()).collect();
    assert_eq!(names, vec!["A"]);
}

#[test]
fn preset_name_must_not_be_blank() {
    assert!(check_preset_name("婚礼").is_ok());
    match check_preset_name("   ") {
        Err(WatermarkError::InvalidParam(m)) => assert_eq!(m, "预设名称不能为空"),
        other => panic!("unexpected {:?}", other),
    }
    assert!(check_preset_name("").is_err());
    assert!(check_preset_name("\t\u{3000}\n").is_err());
    assert!(check_preset_name(" a ").is_ok());
}
