use eleutheria_telos::clipboard::{
    content_hash, default_limit, downsample, entry_card, fetch_limit, image_hash, image_path,
    list_page, make_thumbnail, monitor_start, monitor_step, MonitorAction, MonitorEvent,
    MonitorState, PAGE,
};

fn s(x: &str) -> String {
    x.to_string()
}

#[test]
fn equal_texts_share_a_fingerprint() {
    assert_eq!(content_hash("hello"), content_hash(&s("hello")));
    assert_ne!(content_hash("hello"), content_hash("hello!"));
    assert_ne!(image_hash(2, 2, &[1, 2, 3]), image_hash(2, 3, &[1, 2, 3]));
    let mut big = vec![7u8; 300];
    let a = image_hash(1, 1, &big);
    big[299] = 8;
    assert_eq!(a, image_hash(1, 1, &big));
}

#[test]
fn monitor_records_each_copy_once() {
    let s0 = monitor_start(None);
    assert_eq!(s0, MonitorState { last_hash: 0, last_image_hash: 0 });
    let (s1, a1) = monitor_step(s0, MonitorEvent::Text(s("copied")));
    assert!(matches!(a1, MonitorAction::RecordText(ref t) if t == "copied"));
    let (s2, a2) = monitor_step(s1, MonitorEvent::Text(s("copied")));
    assert!(matches!(a2, MonitorAction::Skip));
    assert_eq!(s2, s1);
    let (_, a3) = monitor_step(s2, MonitorEvent::Text(s("")));
    assert!(matches!(a3, MonitorAction::Skip));
}

#[test]
fn suppressed_copies_are_not_recorded() {
    let s0 = monitor_start(Some("older"));
    assert_eq!(s0.last_hash, content_hash("older"));
    let (s1, _) = monitor_step(s0, MonitorEvent::Suppressed(content_hash("from app")));
    let (_, a) = monitor_step(s1, MonitorEvent::Text(s("from app")));
    assert!(matches!(a, MonitorAction::Skip));
}

#[test]
fn images_reset_the_text_fingerprint() {
    let s0 = monitor_start(Some("t"));
    let (s1, a1) = monitor_step(s0, MonitorEvent::Image(42));
    assert!(matches!(a1, MonitorAction::RecordImage));
    assert_eq!(s1, MonitorState { last_hash: 0, last_image_hash: 42 });
    let (_, a2) = monitor_step(s1, MonitorEvent::Image(42));
    assert!(matches!(a2, MonitorAction::Skip));
    let (_, a3) = monitor_step(s1, MonitorEvent::Text(s("t")));
    assert!(matches!(a3, MonitorAction::RecordText(_)));
}

#[test]
fn copied_image_paths() {
    assert_eq!(image_path("  /home/u/Pictures/shot.PNG \n"), Some(s("/home/u/Pictures/shot.PNG")));
    assert_eq!(image_path("file:///home/u/My%20Pics/a%28b%29.jpeg"), Some(s("/home/u/My Pics/a(b).jpeg")));
    assert_eq!(image_path("/home/u/notes.txt"), None);
    assert_eq!(image_path("/home/u/.png"), None);
    assert_eq!(image_path("just some text"), None);
}

#[test]
fn downsample_picks_nearest_pixels() {
    // 2x2 RGBA image, shrunk to 1x1: the top-left pixel.
    let px = vec![1, 2, 3, 4, 5, 6, 7, 8, 9, 10, 11, 12, 13, 14, 15, 16];
    assert_eq!(downsample(&px, 2, 2, 1, 1), vec![1, 2, 3, 4]);
    // 1x2 image widened to 2x2: each source pixel twice in its row.
    let px = vec![1, 1, 1, 1, 2, 2, 2, 2];
    assert_eq!(downsample(&px, 1, 2, 2, 2), vec![1, 1, 1, 1, 1, 1, 1, 1, 2, 2, 2, 2, 2, 2, 2, 2]);
    // Missing source bytes read as zero.
    assert_eq!(downsample(&[9, 9], 1, 1, 1, 1), vec![0, 0, 0, 0]);
}

#[test]
fn thumbnails_are_base64_png() {
    assert_eq!(make_thumbnail(&[], 0, 0, 1, 1), "");
    let px = vec![255u8; 4 * 4 * 4];
    let t = make_thumbnail(&px, 4, 4, 2, 2);
    assert!(t.starts_with("iVBORw0KGgo"), "a PNG signature in Base64, got {t}");
}

#[test]
fn paging_the_history() {
    assert_eq!(default_limit(), PAGE);
    assert_eq!(fetch_limit(20), 21);
    let p = list_page(20, 0, false, 21);
    assert!(p.has_more);
    assert_eq!(p.keep, 20);
    assert_eq!(p.next_offset, 20);
    let p = list_page(20, 40, true, 25);
    assert!(!p.has_more);
    assert_eq!(p.keep, 20);
    let p = list_page(20, 0, false, 3);
    assert!(!p.has_more);
    assert_eq!(p.keep, 3);
}

#[test]
fn history_cards() {
    let c = entry_card(1000, "c1", "a <b>", 1000 - 120, "text", None, true);
    assert_eq!(c.preview, "a &lt;b&gt;");
    assert_eq!(c.attr_content, "a &lt;b&gt;");
    assert!(!c.truncated);
    assert!(!c.is_image);
    assert!(c.pinned);
    assert_eq!(c.time_label, "2m ago");
    let c = entry_card(1000, "c2", "[image]", 1000, "image", Some(s("AAA")), false);
    assert!(c.is_image);
    assert_eq!(c.thumb, Some(s("AAA")));
    assert_eq!(c.attr_content, "");
}
