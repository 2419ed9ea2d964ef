use sqe_core::scan::read_block_chars;
use sqe_core::text::lines::lines_of;
use sqe_core::transcompiler::{read_brace_block, ErrorKind};

fn strings(v: &[&str]) -> Vec<String> {
    v.iter().map(|s| s.to_string()).collect()
}

fn chars(s: &str) -> Vec<char> {
    s.chars().collect()
}

fn text(v: &Vec<char>) -> String {
    v.iter().collect()
}

#[test]
fn brace_inside_double_quotes_does_not_nest() {
    // the body `"{"` closes at the first brace outside the quotes
    let r = read_brace_block(&strings(&[]), 0, "\"{\"}");
    assert_eq!(r, Ok(("\"{\"".to_string(), 0)));
}

#[test]
fn brace_inside_single_quotes_and_backticks_does_not_nest() {
    assert_eq!(read_brace_block(&strings(&[]), 0, "'}' x }"), Ok(("'}' x ".to_string(), 0)));
    assert_eq!(read_brace_block(&strings(&[]), 0, "`{{` }"), Ok(("`{{` ".to_string(), 0)));
}

#[test]
fn escaped_quote_does_not_toggle_quote_mode() {
    // the escaped quotes stay inside the string, so the brace between them
    // does not count, and the block ends at the brace after the real quote
    let first = " say \"a \\\"still inside\\\" } b\" }";
    let r = read_brace_block(&strings(&[]), 0, first);
    assert_eq!(r, Ok((" say \"a \\\"still inside\\\" } b\" ".to_string(), 0)));
}

#[test]
fn escaped_brace_is_copied_and_does_not_count() {
    assert_eq!(read_brace_block(&strings(&[]), 0, "a \\} b }"), Ok(("a \\} b ".to_string(), 0)));
    assert_eq!(read_brace_block(&strings(&[]), 0, "a \\{ b }"), Ok(("a \\{ b ".to_string(), 0)));
}

#[test]
fn other_quote_kinds_inside_a_quote_are_plain_characters() {
    assert_eq!(
        read_brace_block(&strings(&[]), 0, "\"it's {\" }"),
        Ok(("\"it's {\" ".to_string(), 0))
    );
}

#[test]
fn nested_braces_are_kept() {
    let r = read_brace_block(&strings(&[]), 0, " if (x) { y = {a: 1}; } } trailing");
    assert_eq!(r, Ok((" if (x) { y = {a: 1}; } ".to_string(), 0)));
}

#[test]
fn inline_block_reads_no_line() {
    let lines = strings(&["next line }"]);
    assert_eq!(read_brace_block(&lines, 0, " Hi }"), Ok((" Hi ".to_string(), 0)));
}

#[test]
fn block_over_several_lines_gets_line_feeds() {
    let lines = strings(&["insert {", "  Hello", "", "  World", "}", "after"]);
    let r = read_brace_block(&lines, 1, "");
    assert_eq!(r, Ok(("  Hello\n\n  World\n".to_string(), 5)));
}

#[test]
fn first_fragment_is_followed_by_a_line_feed() {
    let lines = strings(&["b", "c } rest is dropped", "d"]);
    let r = read_brace_block(&lines, 0, " a");
    assert_eq!(r, Ok((" a\nb\nc ".to_string(), 2)));
}

#[test]
fn text_after_the_closing_brace_is_dropped() {
    let lines = strings(&["x", "} insert { lost }", "kept"]);
    assert_eq!(read_brace_block(&lines, 0, ""), Ok(("x\n".to_string(), 2)));
}

#[test]
fn quote_mode_goes_on_over_lines() {
    let lines = strings(&["const s = `line one {", "line two }`;", "}"]);
    let r = read_brace_block(&lines, 0, "");
    assert_eq!(r, Ok(("const s = `line one {\nline two }`;\n".to_string(), 3)));
}

#[test]
fn escape_at_the_end_of_a_line_reaches_the_next_line() {
    // the line feed between the lines is added, not read: the backslash
    // escapes the brace that starts the next line
    let lines = strings(&["a \\", "} b", "}"]);
    assert_eq!(read_brace_block(&lines, 0, ""), Ok(("a \\\n} b\n".to_string(), 3)));
}

#[test]
fn unterminated_block_fails() {
    assert_eq!(read_brace_block(&strings(&[]), 0, ""), Err(ErrorKind::UnterminatedBlock));
    assert_eq!(read_brace_block(&strings(&[]), 0, " a { b }"), Err(ErrorKind::UnterminatedBlock));
    let lines = strings(&["\"}\"", "'}'", "{ }"]);
    assert_eq!(read_brace_block(&lines, 0, ""), Err(ErrorKind::UnterminatedBlock));
    assert_eq!(read_brace_block(&lines, 3, ""), Err(ErrorKind::UnterminatedBlock));
    assert_eq!(read_brace_block(&lines, 7, ""), Err(ErrorKind::UnterminatedBlock));
}

#[test]
fn start_past_the_lines_still_reads_the_first_fragment() {
    let lines = strings(&["}"]);
    assert_eq!(read_brace_block(&lines, 5, " x }"), Ok((" x ".to_string(), 5)));
}

#[test]
fn empty_block() {
    assert_eq!(read_brace_block(&strings(&[]), 0, "}"), Ok((String::new(), 0)));
    assert_eq!(read_brace_block(&strings(&["}"]), 0, ""), Ok((String::new(), 1)));
}

#[test]
fn read_block_chars_agrees_with_read_brace_block() {
    let lines = strings(&["  Hello {", "  }", " \"}\" World", "} x", "after"]);
    let ls = lines_of(&lines);
    assert_eq!(ls.len(), 5);
    let r = read_block_chars(&ls, 0, &chars(" start"));
    let (block, next) = r.unwrap();
    assert_eq!(text(&block), " start\n  Hello {\n  }\n \"}\" World\n");
    assert_eq!(next, 4);
    assert_eq!(
        read_brace_block(&lines, 0, " start"),
        Ok((" start\n  Hello {\n  }\n \"}\" World\n".to_string(), 4))
    );
}
