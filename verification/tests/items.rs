use sqe_core::items::choice::{return_choice, Choice};
use sqe_core::items::qrcode::{return_qrcode, QrFailure};
use sqe_core::items::{Css, Function, Html, Insert, Js};

#[test]
fn insert_parse_trims() {
    assert_eq!(Insert::parse("  Hi \n").text, "Hi");
    assert_eq!(Insert::parse("Hello\nWorld").text, "Hello\nWorld");
    assert_eq!(Insert::parse(" \t ").text, "");
    assert_eq!(Insert::from_chars(&" a b ".chars().collect()).text, "a b");
}

#[test]
fn insert_renders_lines_with_explicit_breaks() {
    let node = Insert::parse("Hello\nWorld");
    let (html, js) = node.render_html();
    assert_eq!(html, "<div class=\"text-block\">Hello<br/>\nWorld</div>");
    assert_eq!(js, None);
}

#[test]
fn insert_escapes_markup() {
    let node = Insert::parse(" <b> & \"q\" \n 'x' ");
    let (html, _) = node.render_html();
    assert_eq!(
        html,
        "<div class=\"text-block\">&lt;b&gt; &amp; &quot;q&quot; <br/>\n &#x27;x&#x27;</div>"
    );
    let inner = &html["<div class=\"text-block\">".len()..html.len() - "</div>".len()];
    let text_only = inner.replace("<br/>\n", "");
    assert!(!text_only.contains('<'));
    assert!(!text_only.contains('>'));
    assert!(!text_only.contains('"'));
    assert!(!text_only.contains('\''));
    for (i, _) in text_only.match_indices('&') {
        let rest = &text_only[i..];
        assert!(
            rest.starts_with("&amp;")
                || rest.starts_with("&lt;")
                || rest.starts_with("&gt;")
                || rest.starts_with("&quot;")
                || rest.starts_with("&#x27;")
        );
    }
}

#[test]
fn insert_of_empty_text_is_an_empty_block() {
    let (html, _) = Insert::parse("").render_html();
    assert_eq!(html, "<div class=\"text-block\"></div>");
}

#[test]
fn insert_with_carriage_returns_and_blank_lines() {
    let node = Insert { text: "a\r\n\r\nb\n".to_string() };
    let (html, _) = node.render_html();
    assert_eq!(html, "<div class=\"text-block\">a<br/>\n<br/>\nb</div>");
}

#[test]
fn html_passes_through() {
    let node = Html::parse("\n  <b class=\"x\">bold & raw</b>  \n");
    assert_eq!(node.html, "<b class=\"x\">bold & raw</b>");
    assert_eq!(node.render_html(), ("<b class=\"x\">bold & raw</b>".to_string(), None));
}

#[test]
fn css_is_wrapped_in_a_style_container() {
    let node = Css::parse("  h1 { color: red; }\n");
    assert_eq!(node.css, "h1 { color: red; }");
    assert_eq!(node.render_html(), ("<style>\nh1 { color: red; }\n</style>".to_string(), None));
}

#[test]
fn js_is_the_script_fragment() {
    let node = Js::parse("\n  console.log('<hi>');\n");
    assert_eq!(node.script, "console.log('<hi>');");
    assert_eq!(node.render_html(), (String::new(), Some("console.log('<hi>');".to_string())));
}

#[test]
fn function_is_the_script_fragment() {
    let node = Function::parse("  return 1 + 1;  ");
    assert_eq!(node.script, "return 1 + 1;");
    assert_eq!(node.render_html(), (String::new(), Some("return 1 + 1;".to_string())));
    let same = sqe_core::items::qrcode::Function::parse("  return 1 + 1;  ");
    assert_eq!(same, node);
}

#[test]
fn return_choice_reads_prompt_and_options() {
    let c = return_choice("  Pick one \n\n  Red\n Blue >> b \n");
    assert_eq!(
        c,
        Choice {
            question: "Pick one".to_string(),
            options: vec!["Red".to_string(), "Blue >> b".to_string()],
        }
    );
}

#[test]
fn return_choice_without_content() {
    let c = return_choice(" \n\t\n");
    assert_eq!(c.question, "⚠ no question found");
    assert!(c.options.is_empty());
    let only = return_choice("Only the prompt");
    assert_eq!(only.question, "Only the prompt");
    assert!(only.options.is_empty());
}

#[test]
fn return_qrcode_draws_the_code() {
    let address = "https://maibloom.github.io/docs";
    let picture = return_qrcode(address).unwrap();
    let expected = qrcode::QrCode::new(address)
        .unwrap()
        .render::<qrcode::render::unicode::Dense1x2>()
        .module_dimensions(2, 1)
        .build();
    assert_eq!(picture, expected);
    assert_ne!(picture, address);
    assert!(picture.contains('█'));
    let widths: Vec<usize> = picture.lines().map(|l| l.chars().count()).collect();
    assert!(widths.len() > 10);
    assert!(widths.iter().all(|w| *w == widths[0]));
    // another address gives another picture
    assert_ne!(return_qrcode("https://example.org").unwrap(), picture);
}

#[test]
fn return_qrcode_fails_for_too_much_data() {
    let long = "x".repeat(8000);
    assert_eq!(return_qrcode(&long), Err(QrFailure::DataTooLong));
}

#[test]
fn qr_failure_in_words() {
    assert_eq!(QrFailure::DataTooLong.message(), "data too long");
    assert_eq!(QrFailure::InvalidVersion.message(), "invalid version");
    assert_eq!(QrFailure::UnsupportedCharacterSet.message(), "unsupported character set");
    assert_eq!(QrFailure::InvalidEciDesignator.message(), "invalid ECI designator");
    assert_eq!(QrFailure::InvalidCharacter.message(), "invalid character");
}
