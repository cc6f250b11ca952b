use alfred_vue_docs::text::{chars_of, decode_html_text, legacy_numeric_reference, truncate};

#[test]
fn truncate_keeps_values_that_fit() {
    assert_eq!(truncate("short", 75), "short");
    assert_eq!(truncate("abcde", 5), "abcde");
    assert_eq!(truncate("", 0), "");
}

#[test]
fn truncate_cuts_long_values_with_ellipsis() {
    assert_eq!(truncate("abcdefgh", 6), "abc...");
    assert_eq!(truncate("🦀🦀🦀🦀🦀", 4), "🦀...");
    assert_eq!(truncate("abcdef", 2), "...");
    assert_eq!(truncate("abcdef", 3), "...");
}

#[test]
fn numeric_references_decode_only_when_terminated_and_lowercase() {
    assert_eq!(decode_html_text("&#38;"), "&");
    assert_eq!(decode_html_text("&#x26;"), "&");
    assert_eq!(decode_html_text("&#X26;"), "&#X26;");
    assert_eq!(decode_html_text("&#38"), "&#38");
    assert_eq!(decode_html_text("&#xD800;"), "&#xD800;");
    assert_eq!(decode_html_text("&#99999999999;"), "&#99999999999;");
    assert_eq!(decode_html_text("&#x1F980;"), "🦀");
}

#[test]
fn stretches_between_references_are_unescaped() {
    assert_eq!(decode_html_text("a &amp; b"), "a & b");
    assert_eq!(decode_html_text("&lt;&#38;&gt;"), "<&>");
    assert_eq!(decode_html_text("&#;"), "&#;");
    assert_eq!(decode_html_text("x &#X26; &copy"), "x &#X26; ©");
}

#[test]
fn text_without_ampersand_is_unchanged() {
    assert_eq!(decode_html_text("Guide > Components 🦀"), "Guide > Components 🦀");
    assert_eq!(decode_html_text(""), "");
}

#[test]
fn legacy_reference_positions() {
    let text = chars_of("ab&#38;cd");
    assert_eq!(legacy_numeric_reference(&text, 2), Some((7, Some('&'))));
    let text = chars_of("&#x41");
    assert_eq!(legacy_numeric_reference(&text, 0), Some((5, None)));
    let text = chars_of("&#X41;");
    assert_eq!(legacy_numeric_reference(&text, 0), Some((6, None)));
    let text = chars_of("&#x;");
    assert_eq!(legacy_numeric_reference(&text, 0), None);
    let text = chars_of("&#");
    assert_eq!(legacy_numeric_reference(&text, 0), None);
}
