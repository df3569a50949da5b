use flashpaste::paste::sanitize_clipboard_text;

#[test]
fn plain_text_borrowed_unchanged() {
    let input = b"just plain text with no tags";
    assert!(matches!(
        sanitize_clipboard_text(input),
        std::borrow::Cow::Borrowed(_)
    ));
}

#[test]
fn less_than_in_code_not_treated_as_html() {
    // `<` followed by a digit or space is not a tag opener.
    let input = b"if x < 5 and y > 3 then z";
    let out = sanitize_clipboard_text(input);
    assert_eq!(out.as_ref(), input);
}

#[test]
fn non_utf8_bytes_passed_through() {
    let input: &[u8] = &[0xff, 0xfe, b'<', b'i', b'm', b'g'];
    let out = sanitize_clipboard_text(input);
    assert_eq!(out.as_ref(), input);
}

#[test]
fn blob_img_replaced_with_domain_label() {
    let input = b"check this <img src=\"blob:https://www.facebook.com/c4a1d5d6\"/> nice";
    let out = sanitize_clipboard_text(input);
    assert_eq!(
        std::str::from_utf8(out.as_ref()).unwrap(),
        "check this [facebook.com image] nice"
    );
}

#[test]
fn multiple_blob_imgs_all_replaced() {
    let input = b"a <img src=\"blob:https://www.facebook.com/aaa\"/> b <img src=\"blob:https://www.facebook.com/bbb\"/> c";
    let out = sanitize_clipboard_text(input);
    assert_eq!(
        std::str::from_utf8(out.as_ref()).unwrap(),
        "a [facebook.com image] b [facebook.com image] c"
    );
}

#[test]
fn regular_img_tag_stripped() {
    // A non-blob <img> has no meaning outside the browser — strip it.
    let input = b"before <img src=\"https://example.com/x.jpg\"/> after";
    let out = sanitize_clipboard_text(input);
    assert_eq!(std::str::from_utf8(out.as_ref()).unwrap(), "before  after");
}

#[test]
fn span_and_inline_tags_stripped() {
    let input = b"<span class=\"price\"><b>1 800 \xe2\x82\xac</b></span>";
    let out = sanitize_clipboard_text(input);
    assert_eq!(std::str::from_utf8(out.as_ref()).unwrap(), "1 800 €");
}

#[test]
fn br_becomes_newline() {
    let input = b"line one<br/>line two<br />line three";
    let out = sanitize_clipboard_text(input);
    assert_eq!(
        std::str::from_utf8(out.as_ref()).unwrap(),
        "line one\nline two\nline three"
    );
}

#[test]
fn block_elements_add_newlines() {
    let input = b"<div>first</div><div>second</div>";
    let out = sanitize_clipboard_text(input);
    assert_eq!(
        std::str::from_utf8(out.as_ref()).unwrap(),
        "first\nsecond"
    );
}

#[test]
fn html_entities_decoded() {
    // Entities only appear inside HTML; the surrounding tag triggers the
    // HTML path, which then decodes them.
    let input = b"<p>price &amp; quality &lt;= great &gt; average&nbsp;yes</p>";
    let out = sanitize_clipboard_text(input);
    assert_eq!(
        std::str::from_utf8(out.as_ref()).unwrap(),
        "price & quality <= great > average yes"
    );
}

#[test]
fn facebook_product_page_roundtrip() {
    // Realistic slice of what Facebook copies for a product listing.
    let input = b"<div><span>Lateral Raise</span><br/><img src=\"blob:https://www.facebook.com/uuid\"/><p>261 kg &amp; 1 800 &euro;</p></div>";
    let out = sanitize_clipboard_text(input);
    let s = std::str::from_utf8(out.as_ref()).unwrap();
    assert!(s.contains("Lateral Raise"));
    assert!(s.contains("[facebook.com image]"));
    assert!(s.contains("261 kg & 1 800"));
    assert!(!s.contains("<"));
    assert!(!s.contains("blob:"));
}
