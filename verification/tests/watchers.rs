use flashpaste::clip_watch::{
    clipboard_differs, enabled, poll_action, stage_text, synthetic_image_path, PollAction,
    StagedKind, POLL_INTERVAL_MS,
};
use flashpaste::inotify_watch::{
    is_image_extension, is_image_path, mime_for_extension, make_compressed_tmp_path, mime_for, mime_for_string, plan_compressed,
    screenshot_event_path, staged_screenshot, StagedBytes,
};
use flashpaste::pathname::file_name_of;

#[test]
fn image_paths_by_extension_any_case() {
    assert!(is_image_path("/s/shot.PNG"));
    assert!(is_image_path("x.jpeg"));
    assert!(is_image_path("x.Jpg"));
    assert!(!is_image_path("x.gif"));
    assert!(!is_image_path(".png"));
    assert!(!is_image_path("png"));
    assert!(is_image_path("/dir.png/"));
}

#[test]
fn mime_by_extension() {
    assert_eq!(mime_for("a.JPG"), "image/jpeg");
    assert_eq!(mime_for("a.jpeg"), "image/jpeg");
    assert_eq!(mime_for("a.png"), "image/png");
    assert_eq!(mime_for("a"), "image/png");
}

#[test]
fn unknown_mime_becomes_png() {
    assert_eq!(mime_for_string("image/webp"), "image/webp");
    assert_eq!(mime_for_string("image/jpeg"), "image/jpeg");
    assert_eq!(mime_for_string("image/gif"), "image/png");
    assert_eq!(mime_for_string(""), "image/png");
}

#[test]
fn compressed_copy_sits_next_to_original() {
    assert_eq!(
        make_compressed_tmp_path("/home/u/Pictures/Screenshots/screenshot.png", "image/webp"),
        "/home/u/Pictures/Screenshots/screenshot.png.fpc.webp"
    );
    assert_eq!(make_compressed_tmp_path("shot.png", "image/jpeg"), "shot.png.fpc.jpg");
    assert_eq!(make_compressed_tmp_path("/a/b.png", "image/gif"), "/a/b.png.fpc.png");
    assert_eq!(make_compressed_tmp_path("/", "image/png"), "/image.fpc.png");
}

#[test]
fn screenshot_events_filtered() {
    assert_eq!(screenshot_event_path("/s", "a.png").as_deref(), Some("/s/a.png"));
    assert_eq!(screenshot_event_path("/s", "b.JPG").as_deref(), Some("/s/b.JPG"));
    assert_eq!(screenshot_event_path("/s", "a.png.fpc.webp"), None);
    assert_eq!(screenshot_event_path("/s", "a.fpc.png"), None);
    assert_eq!(screenshot_event_path("/s", "a.txt"), None);
}

#[test]
fn compressed_copy_is_never_restaged() {
    for mime in ["image/png", "image/jpeg", "image/webp", "image/avif"] {
        let tmp = make_compressed_tmp_path("/s/Screenshot.png", mime);
        let name = file_name_of(&tmp).unwrap();
        assert_eq!(screenshot_event_path("/s", &name), None);
    }
}

#[test]
fn compression_plan_by_mime() {
    let plan = plan_compressed("/s/a.png", "image/webp");
    assert_eq!(plan.write_copy_to.as_deref(), Some("/s/a.png.fpc.webp"));
    assert_eq!(plan.mime, "image/webp");
    let plan = plan_compressed("/s/a.png", "image/png");
    assert_eq!(plan.write_copy_to, None);
    assert_eq!(plan.mime, "image/png");
    let plan = plan_compressed("/s/a.png", "image/jpeg");
    assert_eq!(plan.write_copy_to, None);
    assert_eq!(plan.mime, "image/jpeg");
    let plan = plan_compressed("/s/a.png", "image/x-odd");
    assert_eq!(plan.write_copy_to.as_deref(), Some("/s/a.png.fpc.png"));
    assert_eq!(plan.mime, "image/png");
}

#[test]
fn watch_flag_truthy_values() {
    assert!(enabled(Some("1")));
    assert!(enabled(Some(" TRUE ")));
    assert!(enabled(Some("Yes")));
    assert!(enabled(Some("on\n")));
    assert!(!enabled(Some("no")));
    assert!(!enabled(Some("")));
    assert!(!enabled(Some("10")));
    assert!(!enabled(None));
}

#[test]
fn fresh_content_differs_unless_same_kind_and_bytes() {
    assert!(!clipboard_differs(Some(StagedKind::Image), b"abc", StagedKind::Image, b"abc"));
    assert!(clipboard_differs(Some(StagedKind::Text), b"abc", StagedKind::Image, b"abc"));
    assert!(clipboard_differs(None, b"", StagedKind::Text, b""));
    assert!(clipboard_differs(Some(StagedKind::Text), b"abc", StagedKind::Text, b"abd"));
    assert!(clipboard_differs(Some(StagedKind::Text), b"ab", StagedKind::Text, b"abc"));
}

#[test]
fn staging_the_same_bytes_settles() {
    let bytes = b"copied text".to_vec();
    assert!(clipboard_differs(None, &[], StagedKind::Text, &bytes));
    assert!(!clipboard_differs(Some(StagedKind::Text), &bytes, StagedKind::Text, &bytes));
}

#[test]
fn synthetic_path_by_mime() {
    assert_eq!(
        synthetic_image_path(Some("/home/u/Pictures/Screenshots"), "image/jpeg"),
        "/home/u/Pictures/Screenshots/flashpaste-clip-live.jpg"
    );
    assert_eq!(
        synthetic_image_path(Some("/d"), "image/webp"),
        "/d/flashpaste-clip-live.webp"
    );
    assert_eq!(synthetic_image_path(None, "image/gif"), "/tmp/flashpaste-clip-live.png");
}

#[test]
fn poll_interval_matches_probe_throttle() {
    assert_eq!(POLL_INTERVAL_MS, 250);
}

#[test]
fn lowercase_extension_decisions() {
    assert!(is_image_extension("png"));
    assert!(is_image_extension("jpeg"));
    assert!(!is_image_extension("PNG"));
    assert!(!is_image_extension("webp"));
    assert_eq!(mime_for_extension(Some("jpg")), "image/jpeg");
    assert_eq!(mime_for_extension(Some("png")), "image/png");
    assert_eq!(mime_for_extension(None), "image/png");
}

#[test]
fn offered_image_wins_over_text() {
    let png = b"\x89PNG-bytes".to_vec();
    assert_eq!(
        poll_action(Some((&png, "image/png")), Some(StagedKind::Text), b"hello", Some("/d")),
        PollAction::StageImage { path: "/d/flashpaste-clip-live.png".to_string() }
    );
    assert_eq!(
        poll_action(Some((&png, "image/jpeg")), None, &[], None),
        PollAction::StageImage { path: "/tmp/flashpaste-clip-live.jpg".to_string() }
    );
    assert_eq!(
        poll_action(Some((&png, "image/png")), Some(StagedKind::Image), &png, Some("/d")),
        PollAction::Unchanged
    );
    assert_eq!(poll_action(None, Some(StagedKind::Image), &png, Some("/d")), PollAction::ProbeText);
}

#[test]
fn text_staged_only_when_it_differs() {
    assert!(stage_text(Some(b"new"), None, &[]));
    assert!(stage_text(Some(b"same"), Some(StagedKind::Image), b"same"));
    assert!(!stage_text(Some(b"same"), Some(StagedKind::Text), b"same"));
    assert!(!stage_text(None, None, &[]));
}

#[test]
fn compressed_copy_keeps_parent_and_differs() {
    for (orig, mime) in [
        ("/home/u/Pictures/Screenshots/a.png", "image/webp"),
        ("/a/./b.png", "image/jpeg"),
        ("rel/dir/c.jpg", "image/png"),
        ("d.png", "image/webp"),
        ("/x/y.png/", "image/webp"),
    ] {
        let copy = make_compressed_tmp_path(orig, mime);
        assert_ne!(copy, orig);
        assert_eq!(std::path::Path::new(&copy).parent(), std::path::Path::new(orig).parent());
    }
}

#[test]
fn staged_screenshot_fallbacks() {
    let p = "/s/shot.png";
    let s = staged_screenshot(p, Some("image/png"), false, false).unwrap();
    assert_eq!((s.path.as_str(), s.mime, s.bytes), (p, "image/png", StagedBytes::Compressor));
    let s = staged_screenshot(p, Some("image/webp"), true, false).unwrap();
    assert_eq!(
        (s.path.as_str(), s.mime, s.bytes),
        ("/s/shot.png.fpc.webp", "image/webp", StagedBytes::Compressor)
    );
    // The copy could not be written: the compressed bytes are served from the original path.
    let s = staged_screenshot(p, Some("image/webp"), false, false).unwrap();
    assert_eq!((s.path.as_str(), s.mime, s.bytes), (p, "image/webp", StagedBytes::Compressor));
    // Compression failed: the original file under its extension's MIME type.
    let s = staged_screenshot("/s/a.JPG", None, false, true).unwrap();
    assert_eq!((s.path.as_str(), s.mime, s.bytes), ("/s/a.JPG", "image/jpeg", StagedBytes::OriginalFile));
    // ... and nothing when it cannot be read either.
    assert!(staged_screenshot(p, None, false, false).is_none());
}
