use watermark_studio::watch::{is_watched_ext, poll_step, DedupState, WatchEventKind, DEDUP_COOLDOWN_MS};

#[test]
fn extension_filter_matches_known_image_types() {
    assert!(is_watched_ext("a.jpg"));
    assert!(is_watched_ext("A.JPG"));
    assert!(is_watched_ext("a.png"));
    assert!(is_watched_ext("a.tiff"));
    assert!(!is_watched_ext("a.xmp"));
    assert!(!is_watched_ext("a.tmp"));
    assert!(!is_watched_ext("noext"));
}

#[test]
fn extension_filter_other_cases() {
    assert!(is_watched_ext("/photos/2024/DSCF0001.JPEG"));
    assert!(is_watched_ext("x.webp"));
    assert!(is_watched_ext("x.Bmp"));
    assert!(is_watched_ext("x.tif"));
    assert!(!is_watched_ext(".jpg"));
    assert!(!is_watched_ext("dir.jpg/file"));
    assert!(!is_watched_ext("a.jpg.part"));
}

#[test]
fn dedup_blocks_while_active_and_during_cooldown() {
    let mut d = DedupState::default();
    let p = "/tmp/a.jpg";
    let now = 1_000_000u64;
    assert!(d.try_claim(p, now), "the first event claims the path");
    assert!(!d.try_claim(p, now + 10), "a path being processed is refused");
    d.mark_done(p, now + 20);
    assert!(!d.try_claim(p, now + 30), "a path finished a moment ago is refused");
}

#[test]
fn dedup_allows_after_cooldown_expires() {
    let mut d = DedupState::default();
    let p = "/tmp/b.jpg";
    let then = 1_000_000u64;
    d.try_claim(p, then);
    d.mark_done(p, then);
    // Sixty seconds later the cool-down is over.
    assert!(d.try_claim(p, then + 60_000), "after the cool-down the path may be processed again");
}

#[test]
fn dedup_cooldown_boundary() {
    let mut d = DedupState::new();
    d.try_claim("p.jpg", 0);
    d.mark_done("p.jpg", 100);
    assert!(!d.try_claim("p.jpg", 100 + DEDUP_COOLDOWN_MS - 1));
    assert!(d.try_claim("p.jpg", 100 + DEDUP_COOLDOWN_MS));
}

#[test]
fn dedup_paths_are_independent() {
    let mut d = DedupState::new();
    assert!(d.try_claim("a.jpg", 5));
    assert!(d.try_claim("b.jpg", 5));
    d.mark_done("a.jpg", 6);
    assert!(!d.try_claim("a.jpg", 7));
    assert!(!d.try_claim("b.jpg", 7));
}

#[test]
fn event_paths_claimed_in_order() {
    let mut d = DedupState::new();
    let paths = vec![
        "a.jpg".to_string(),
        "notes.txt".to_string(),
        "a.jpg".to_string(),
        "b.PNG".to_string(),
    ];
    let claimed = d.claim_event_paths(&paths, 10);
    assert_eq!(claimed, vec!["a.jpg".to_string(), "b.PNG".to_string()]);
    // The same event again finds both being processed.
    assert!(d.claim_event_paths(&paths, 11).is_empty());
}

#[test]
fn poll_step_needs_two_equal_sizes() {
    assert_eq!(poll_step(None, Some(10)), (false, Some(10)));
    assert_eq!(poll_step(Some(10), Some(25)), (false, Some(25)));
    assert_eq!(poll_step(Some(25), Some(25)), (true, Some(25)));
    assert_eq!(poll_step(Some(25), None), (false, Some(25)));
}

#[test]
fn extension_filter_follows_path_components() {
    assert!(is_watched_ext("photos.jpg/"));
    assert!(is_watched_ext("a\\.jpg"));
    assert!(is_watched_ext("C:\\photos\\DSCF0001.JPG"));
    assert!(!is_watched_ext("a.jpg\\c"));
    assert!(is_watched_ext("a.b/c.png"));
    assert!(is_watched_ext("dir/./x.PNG/."));
    assert!(is_watched_ext("dir//x.webp//"));
    assert!(!is_watched_ext("a.jpg/.."));
    assert!(!is_watched_ext(".jpg"));
    assert!(is_watched_ext("dir/.hidden.jpg"));
    assert!(!is_watched_ext("/"));
    assert!(!is_watched_ext("."));
    assert!(!is_watched_ext(""));
}

#[test]
fn claim_event_ignores_other_kinds() {
    let mut s = DedupState::new();
    let paths = vec!["a.jpg".to_string(), "b.txt".to_string(), "c.PNG".to_string()];
    assert!(s.claim_event(WatchEventKind::Other, &paths, 0).is_empty());
    assert_eq!(s.claim_event(WatchEventKind::Create, &paths, 0), vec!["a.jpg".to_string(), "c.PNG".to_string()]);
    assert!(s.claim_event(WatchEventKind::Modify, &paths, 10).is_empty());
    s.mark_done("a.jpg", 100);
    assert!(s.claim_event(WatchEventKind::Modify, &paths, 100 + DEDUP_COOLDOWN_MS - 1).is_empty());
    assert_eq!(s.claim_event(WatchEventKind::Modify, &paths, 100 + DEDUP_COOLDOWN_MS), vec!["a.jpg".to_string()]);
}
