use qfinder::clipboard::{
    cap_clip_text, clip_file, clip_preview, file_clip_entry, file_url_path, image_clip_entry,
    should_store_text, text_clip_entry, ClipboardWatch, FAST_POLL_MS, SLOW_POLL_MS,
};
use qfinder::search::sort_chars;

#[test]
fn polling_slows_after_idle_polls_and_speeds_up_on_change() {
    let mut w = ClipboardWatch::new(5);
    assert_eq!(w.sleep_ms(), FAST_POLL_MS);
    for _ in 0..240 {
        assert!(!w.observe(5));
        assert_eq!(w.sleep_ms(), FAST_POLL_MS);
    }
    assert!(!w.observe(5));
    assert_eq!(w.sleep_ms(), SLOW_POLL_MS);
    assert!(!w.observe(5));
    assert_eq!(w.sleep_ms(), SLOW_POLL_MS);
    assert!(w.observe(6));
    assert_eq!(w.sleep_ms(), FAST_POLL_MS);
    assert_eq!(w.idle_polls(), 0);
    assert_eq!(w.last_change_count(), 6);
}

#[test]
fn file_urls_become_paths() {
    assert_eq!(file_url_path("file:///Users/me/My%20File.pdf"), "/Users/me/My File.pdf");
    assert_eq!(file_url_path("file://localhost/tmp/a.txt"), "/tmp/a.txt");
    assert_eq!(file_url_path("/plain/path"), "/plain/path");
    // bytes that are not UTF-8 after decoding: the path stays undecoded
    assert_eq!(file_url_path("file:///tmp/%FF.txt"), "/tmp/%FF.txt");
    assert_eq!(file_url_path("file:///tmp/%E2%9C%93"), "/tmp/\u{2713}");
}

#[test]
fn file_clip_records() {
    let e = file_clip_entry("file:///tmp/a%20b.txt");
    assert_eq!(e.path, "/tmp/a b.txt");
    assert_eq!(e.title, "\u{1F4C4} File: a b.txt");
    assert_eq!(e.fingerprint, sort_chars("a b.txt"));
}

#[test]
fn clip_names() {
    assert_eq!(
        clip_file("/d", 1700000000, ".png"),
        ("clip_1700000000.png".to_string(), "/d/clip_1700000000.png".to_string())
    );
    assert_eq!(clip_file("/d", -42, ".txt").0, "clip_-42.txt");
    assert_eq!(clip_file("/d", 0, ".txt").0, "clip_0.txt");
    assert_eq!(clip_file("/d", i64::MIN, ".txt").0, format!("clip_{}.txt", i64::MIN));
    let e = image_clip_entry("/v/clipboard", 12);
    assert_eq!(e.title, "clip_12.png");
    assert_eq!(e.path, "/v/clipboard/clip_12.png");
    assert_eq!(e.fingerprint, "");
}

#[test]
fn previews() {
    assert_eq!(clip_preview("short\ntext"), "short\ntext");
    let long = format!("{}\n{}", "a".repeat(30), "b".repeat(40));
    let expected = format!("{}...", &long[..60].replace('\n', " "));
    assert_eq!(clip_preview(&long), expected);
    let exact = "x".repeat(60);
    assert_eq!(clip_preview(&exact), exact);
    let wide = "é".repeat(40);
    assert_eq!(clip_preview(&wide), format!("{}...", "é".repeat(30)));
}

#[test]
fn capped_text() {
    assert_eq!(cap_clip_text("hello"), "hello");
    let big = "a".repeat(52428800 + 5);
    assert_eq!(cap_clip_text(&big).len(), 52428800);
}

#[test]
fn which_texts_are_stored() {
    assert!(!should_store_text("  \n\t", false));
    assert!(!should_store_text("x", true));
    assert!(should_store_text(" x ", false));
    assert!(!should_store_text("", false));
}

#[test]
fn text_clip_records() {
    let e = text_clip_entry("Hello\nWorld", "/v", 99);
    assert_eq!(e.title, "Hello\nWorld");
    assert_eq!(e.path, "/v/clip_99.txt");
    assert_eq!(e.fingerprint, sort_chars("Hello\nWorld"));
}
