use sqe_core::items::common::{
    escape_attr, escape_html, js_literal_for_key, js_string_from, to_js_string,
};

#[test]
fn escape_html_basic() {
    let raw = "<a & '\">";
    let out = escape_html(raw);
    assert!(out.contains("&lt;") && out.contains("&amp;") && out.contains("&quot;"));
}

#[test]
fn to_js_string_escapes() {
    let raw = "hello \" world </script>\nnew";
    let js = to_js_string(raw);
    // must be a quoted JS string
    assert!(js.starts_with('"') && js.ends_with('"'));
    // must not contain a raw </script>
    assert!(!js.contains("</script>"));
    // basic escaped newline should appear
    assert!(js.contains("\\n"));
}

#[test]
fn escape_html_exact() {
    assert_eq!(escape_html("<a & '\">"), "&lt;a &amp; &#x27;&quot;&gt;");
    assert_eq!(escape_html(""), "");
    assert_eq!(escape_html("plain text"), "plain text");
    assert_eq!(escape_html("&amp;"), "&amp;amp;");
    assert_eq!(escape_attr("a\"b"), "a&quot;b");
}

#[test]
fn to_js_string_exact() {
    assert_eq!(to_js_string("a"), "\"a\"");
    assert_eq!(to_js_string(""), "\"\"");
    assert_eq!(
        to_js_string("hello \" world </script>\nnew"),
        "\"hello \\\" world <\\/script>\\nnew\""
    );
    assert_eq!(to_js_string("back\\slash\ttab"), "\"back\\\\slash\\ttab\"");
    assert_eq!(to_js_string("\u{1}\u{1f}\u{7f}é"), "\"\\u0001\\u001f\u{7f}é\"");
    assert_eq!(js_literal_for_key("0_1"), "\"0_1\"");
}

#[test]
fn js_string_from_neutralizes_the_encoded_literal() {
    assert_eq!(js_string_from("ignored", Ok("\"x</script>y\"".to_string())), "\"x<\\/script>y\"");
    assert_eq!(js_string_from("ignored", Ok("\"plain\"".to_string())), "\"plain\"");
}

#[test]
fn js_string_from_makes_a_literal_by_hand_where_encoding_failed() {
    let failed = || serde_json::from_str::<u8>("x").unwrap_err();
    assert_eq!(js_string_from("a", Err(failed())), "\"a\"");
    assert_eq!(
        js_string_from("a\"b\\c\nd\te\r</script>", Err(failed())),
        "\"a\\\"b\\\\c\\nd\\te\\r<\\/script>\""
    );
}

#[test]
fn to_js_string_agrees_with_the_encoder() {
    for s in ["", "a", "\"", "\\", "</script>", "<\\/script>", "\u{0}\u{8}\u{b}\u{c}\u{1f} ", "é⚠\u{10ffff}", "line\r\nbreak"] {
        let expected = serde_json::to_string(s).unwrap().replace("</script>", "<\\/script>");
        assert_eq!(to_js_string(s), expected);
        assert!(!to_js_string(s).contains("</script>"));
    }
}

// Reads `literal` as a script reads a string literal and says whether it is
// one: it opens with a double quote and the first double quote that is not
// escaped is its last character.
fn is_string_literal(literal: &str) -> bool {
    let chars: Vec<char> = literal.chars().collect();
    if chars.len() < 2 || chars[0] != '"' {
        return false;
    }
    let mut escaped = false;
    for (i, c) in chars.iter().enumerate().skip(1) {
        if escaped {
            escaped = false;
        } else if *c == '\\' {
            escaped = true;
        } else if *c == '"' {
            return i == chars.len() - 1;
        }
    }
    false
}

#[test]
fn to_js_string_gives_a_string_literal() {
    for s in [
        "",
        "\"",
        "\\",
        "\\\"",
        "a\"b\\c",
        "ends with a backslash \\",
        "</script>",
        "\\</script>\"",
        "<\\/script>",
        "line\nbreak\r\ttab",
        "\u{0}\u{1f}",
        "é⚠",
    ] {
        let literal = to_js_string(s);
        assert!(is_string_literal(&literal), "{:?} gave {:?}", s, literal);
        assert!(!literal.contains('\n') && !literal.contains('\r'));
        let failed = serde_json::from_str::<u8>("x").unwrap_err();
        let by_hand = js_string_from(s, Err(failed));
        assert!(is_string_literal(&by_hand), "{:?} gave {:?}", s, by_hand);
    }
    assert!(!is_string_literal("\"a\"b\""));
    assert!(!is_string_literal("\"a\\\""));
}
