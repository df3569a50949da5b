use flashpaste::clipboard_policy::{contains_image_mime, decide_has_image, is_blank, HasImagePolicy};
use flashpaste::paste::{
    blob_img_label, choose_image_route, collapse_blank_lines, decode_html_entities,
    extract_blob_domain, html_to_plaintext, image_as_path_enabled, looks_like_html,
    path_paste_line, payload_name, sanitize_clipboard_text, tmux_text_paste_args, AgentKind,
    ImageRoute,
};

#[test]
fn image_mime_tokens() {
    assert!(contains_image_mime("image/png"));
    assert!(contains_image_mime("text/plain,image/jpeg"));
    assert!(contains_image_mime("a\timage/x"));
    assert!(contains_image_mime("a\u{a0}image/x"));
    assert!(!contains_image_mime("x-image/png"));
    assert!(!contains_image_mime("image"));
    assert!(!contains_image_mime(""));
}

#[test]
fn blank_means_only_whitespace() {
    assert!(is_blank(""));
    assert!(is_blank(" \n\t\u{3000}"));
    assert!(!is_blank(" a "));
}

#[test]
fn x11_ignored_whenever_wayland_answers() {
    let a = decide_has_image("image/png", "", "");
    let b = decide_has_image("image/png", "", "image/png");
    assert_eq!(a.has_image, b.has_image);
    assert!(a.has_image);
    let c = decide_has_image(" ", "hello", "image/png");
    assert!(!c.has_image);
    assert_eq!(c.policy, HasImagePolicy::WaylandAuthoritativeStaleX11Ignored);
    let d = decide_has_image("  ", "\n", "text/plain");
    assert_eq!(d.policy, HasImagePolicy::X11FallbackWaylandSilent);
    assert!(!d.has_image);
}

#[test]
fn tag_openers() {
    assert!(!looks_like_html("x < 5"));
    assert!(!looks_like_html("a<1"));
    assert!(!looks_like_html("<"));
    assert!(looks_like_html("</p>"));
    assert!(looks_like_html("x<b"));
}

#[test]
fn unclosed_tag_kept_literally() {
    let input = b"a <b";
    assert!(matches!(
        sanitize_clipboard_text(input),
        std::borrow::Cow::Borrowed(_)
    ));
    assert_eq!(html_to_plaintext("x <b>y <i"), "x y <i");
}

#[test]
fn changed_output_is_owned() {
    let out = sanitize_clipboard_text(b"<b>x</b>");
    assert!(matches!(out, std::borrow::Cow::Owned(_)));
    assert_eq!(out.as_ref(), b"x");
}

#[test]
fn paragraphs_and_uppercase_tags() {
    assert_eq!(html_to_plaintext("<p>a</p><p>b</p>"), "a\nb");
    assert_eq!(html_to_plaintext("a<BR>b< br />c"), "a\nb\nc");
    assert_eq!(html_to_plaintext("<li>one<li>two</li>"), "one\ntwo");
}

#[test]
fn entities_decoded_once() {
    assert_eq!(decode_html_entities("&amp;lt;".to_string()), "&lt;");
    assert_eq!(decode_html_entities("&amp;quot;".to_string()), "&quot;");
    assert_eq!(decode_html_entities("&amp;amp;".to_string()), "&amp;");
    assert_eq!(html_to_plaintext("<p>&amp;lt;b&amp;gt;</p>"), "&lt;b&gt;");
    assert_eq!(decode_html_entities("plain".to_string()), "plain");
    assert_eq!(decode_html_entities("a &mdash; b&hellip;".to_string()), "a — b…");
    assert_eq!(decode_html_entities("&laquo;x&raquo; &#39;&quot;".to_string()), "«x» '\"");
    assert_eq!(decode_html_entities("&euro;".to_string()), "&euro;");
}

#[test]
fn blank_lines_collapse_to_two() {
    assert_eq!(collapse_blank_lines("a\n\n\n\nb".to_string()), "a\n\nb");
    assert_eq!(collapse_blank_lines("  x  ".to_string()), "x");
    assert_eq!(
        collapse_blank_lines("\n\n\n\nx\n\n\n\n\ny \n".to_string()),
        "x\n\ny"
    );
    assert_eq!(collapse_blank_lines(" \n ".to_string()), "");
}

#[test]
fn blob_domains() {
    assert_eq!(
        extract_blob_domain("img src=\"blob:http://example.org/x\"").as_deref(),
        Some("example.org")
    );
    assert_eq!(
        extract_blob_domain("img src='blob:www.site.io'").as_deref(),
        Some("site.io")
    );
    assert_eq!(extract_blob_domain("img src=\"blob:\""), None);
    assert_eq!(extract_blob_domain("img src=x"), None);
    assert_eq!(blob_img_label("img src=\"blob:\""), "[image]");
    assert_eq!(
        blob_img_label("img src=\"blob:https://www.facebook.com/a\""),
        "[facebook.com image]"
    );
}

#[test]
fn image_routes() {
    assert_eq!(choose_image_route(true, AgentKind::ClaudeCode), ImageRoute::AsPath);
    assert_eq!(choose_image_route(true, AgentKind::Codex), ImageRoute::AsPath);
    assert_eq!(choose_image_route(false, AgentKind::ClaudeCode), ImageRoute::CtrlV);
    assert_eq!(choose_image_route(true, AgentKind::Aider), ImageRoute::AiderAdapter);
    assert_eq!(choose_image_route(false, AgentKind::Aider), ImageRoute::AiderAdapter);
    assert_eq!(choose_image_route(true, AgentKind::Other), ImageRoute::CtrlV);
}

#[test]
fn image_as_path_flag() {
    assert!(image_as_path_enabled(Some("ON")));
    assert!(!image_as_path_enabled(Some("off")));
    assert!(!image_as_path_enabled(None));
}

#[test]
fn path_line_ends_with_space() {
    assert_eq!(path_paste_line(b"/tmp/x.png"), b"/tmp/x.png ".to_vec());
    assert_eq!(path_paste_line(b""), b" ".to_vec());
}

#[test]
fn payload_names() {
    assert_eq!(payload_name("/s/Screenshot from 2024-01-01.png"), "2024-01-01.png");
    assert_eq!(payload_name("/s/Screenshot from Screenshot from x.png"), "x.png");
    assert_eq!(payload_name("/s/shot.png"), "shot.png");
    assert_eq!(payload_name("/"), "<no-name>");
}

#[test]
fn tmux_arguments_for_text_paste() {
    assert_eq!(
        tmux_text_paste_args("%4"),
        vec![
            "load-buffer", "-b", "fp_text", "-", ";", "paste-buffer", "-p", "-b", "fp_text",
            "-t", "%4",
        ]
    );
}
