use sqe_core::items::{Choose, Css, Html, Insert, Js};
use sqe_core::read_block;
use sqe_core::transcompiler::{
    classify, compile, compile_chars, compile_source, first_token_of, parse_block, CompileError,
    Directive, Entry, ErrorKind, Question,
};

fn strings(v: &[&str]) -> Vec<String> {
    v.iter().map(|s| s.to_string()).collect()
}

fn insert(text: &str) -> Question {
    Question::Insert(Insert { text: text.to_string() })
}

fn page(title: &str, content: Vec<Question>) -> Entry {
    Entry::Page { title: title.to_string(), content }
}

fn asked(id: Option<&str>, question: &str, options: &[(&str, &str)]) -> Question {
    Question::Choose(Choose {
        id: id.map(String::from),
        question: question.to_string(),
        options: options.iter().map(|(a, b)| (a.to_string(), b.to_string())).collect(),
        addons: Vec::new(),
        script_lines: Vec::new(),
    })
}

#[test]
fn empty_source_gives_no_entries() {
    assert_eq!(compile_source(""), Ok(Vec::new()));
    assert_eq!(compile(&strings(&[])), Ok(Vec::new()));
    assert_eq!(compile_source("\n   \n// only a comment\nsomething unknown\n"), Ok(Vec::new()));
}

#[test]
fn content_before_the_first_page_directive_gets_its_title() {
    let ast = compile_source("insert { early }\n@p \"Intro\"\ninsert { later }").unwrap();
    assert_eq!(ast, vec![page("Intro", vec![insert("early"), insert("later")])]);
}

#[test]
fn content_without_any_page_directive_stands_on_an_untitled_page() {
    let ast = compile_source("insert { a }\nhtml { <i>b</i> }").unwrap();
    assert_eq!(
        ast,
        vec![page(
            "untitled",
            vec![insert("a"), Question::Html(Html { html: "<i>b</i>".to_string() })]
        )]
    );
}

#[test]
fn page_directive_closes_a_titled_page() {
    let ast = compile_source("@p One\ninsert { a }\n@p \"Two\"\n@p Three\ninsert b").unwrap();
    assert_eq!(
        ast,
        vec![
            page("One", vec![insert("a")]),
            page("Two", Vec::new()),
            page("Three", vec![insert("b")])
        ]
    );
}

#[test]
fn page_directive_without_title_opens_an_untitled_page_that_the_next_one_names() {
    let ast = compile_source("@p\ninsert { a }\n@p \"Named\"").unwrap();
    assert_eq!(ast, vec![page("Named", vec![insert("a")])]);
    let two = compile_source("@p\n@p").unwrap();
    assert_eq!(two, vec![page("untitled", Vec::new())]);
}

#[test]
fn title_directive_in_its_forms() {
    let ast = compile_source(
        "title \"Demo\"\n  title Plain Words  \ntitle\ntitle \"open\ntitle \"a\" b \"c\"\ntitle\"tight\"",
    )
    .unwrap();
    assert_eq!(
        ast,
        vec![
            Entry::DocTitle("Demo".to_string()),
            Entry::DocTitle("Plain Words".to_string()),
            Entry::DocTitle("untitled".to_string()),
            Entry::DocTitle("open".to_string()),
            Entry::DocTitle("a".to_string()),
            Entry::DocTitle("tight".to_string()),
        ]
    );
}

#[test]
fn title_entry_comes_before_the_page_that_is_still_open() {
    let ast = compile_source("@p A\ninsert x\ntitle T\ninsert y").unwrap();
    assert_eq!(
        ast,
        vec![Entry::DocTitle("T".to_string()), page("A", vec![insert("x"), insert("y")])]
    );
}

#[test]
fn import_records_the_quoted_path() {
    let ast = compile_source("import \"lib/common.sqe\"\nimport nothing\nimport \"open").unwrap();
    assert_eq!(
        ast,
        vec![
            Entry::Import { path: "lib/common.sqe".to_string() },
            Entry::Import { path: String::new() },
            Entry::Import { path: "open".to_string() },
        ]
    );
}

#[test]
fn insert_in_its_forms() {
    let ast =
        compile_source("insert { inline }\ninsert {\n  over\n  lines\n}\ninsert   some   words  \ninsert")
            .unwrap();
    assert_eq!(
        ast,
        vec![page("untitled", vec![insert("inline"), insert("over\n  lines"), insert("some words")])]
    );
}

#[test]
fn insert_alone_opens_no_page() {
    assert_eq!(compile_source("insert\ninsert   "), Ok(Vec::new()));
}

#[test]
fn insert_block_keeps_braces_in_quotes() {
    let ast = compile_source("insert { say \"}\" and '{' }").unwrap();
    assert_eq!(ast, vec![page("untitled", vec![insert("say \"}\" and '{'")])]);
}

#[test]
fn choice_with_and_without_identifier() {
    let ast = compile_source(
        "choice { Pick\nA\nB }\nchoice color {\nWhich?\nRed >> r\n}\nchoice size extra { S\nL >> l }",
    )
    .unwrap();
    assert_eq!(
        ast,
        vec![page(
            "untitled",
            vec![
                asked(None, "Pick", &[("A", "0"), ("B", "1")]),
                asked(Some("color"), "Which?", &[("Red", "r")]),
                asked(Some("size"), "S", &[("L", "l")]),
            ]
        )]
    );
}

#[test]
fn choice_without_brace_on_its_line_reads_the_next_lines() {
    let ast = compile_source("choice mood\nHow?\nGood\n}\ninsert after").unwrap();
    assert_eq!(
        ast,
        vec![page("untitled", vec![asked(Some("mood"), "How?", &[("Good", "0")]), insert("after")])]
    );
}

#[test]
fn raw_blocks() {
    let ast = compile_source(
        "@p Raw\nhtml {\n<div class=\"x\">{ }</div>\n}\ncss { a { color: red; } }\njs {\n  if (a) { b(\"}\"); }\n}",
    )
    .unwrap();
    assert_eq!(
        ast,
        vec![page(
            "Raw",
            vec![
                Question::Html(Html { html: "<div class=\"x\">{ }</div>".to_string() }),
                Question::Css(Css { css: "a { color: red; }".to_string() }),
                Question::Js(Js { script: "if (a) { b(\"}\"); }".to_string() }),
            ]
        )]
    );
}

#[test]
fn text_after_the_closing_brace_is_lost() {
    let ast = compile_source("insert { a } insert { b }\ninsert { c }").unwrap();
    assert_eq!(ast, vec![page("untitled", vec![insert("a"), insert("c")])]);
}

#[test]
fn leading_whitespace_does_not_hide_a_directive() {
    let ast = compile_source("   @p  \"Indented\"  \n\t insert { x }").unwrap();
    assert_eq!(ast, vec![page("Indented", vec![insert("x")])]);
}

#[test]
fn unterminated_block_names_the_line_that_opened_it() {
    assert_eq!(
        compile_source("insert {\nnever closed"),
        Err(CompileError { kind: ErrorKind::UnterminatedBlock, line: 1 })
    );
    assert_eq!(
        compile_source("title T\n@p A\ninsert { fine }\n\njs { if (x) {\n}\n"),
        Err(CompileError { kind: ErrorKind::UnterminatedBlock, line: 5 })
    );
    assert_eq!(
        compile_source("choice"),
        Err(CompileError { kind: ErrorKind::UnterminatedBlock, line: 1 })
    );
    assert_eq!(
        compile_source("html { \"}\" "),
        Err(CompileError { kind: ErrorKind::UnterminatedBlock, line: 1 })
    );
}

#[test]
fn error_message_names_kind_and_line() {
    let e = compile_source("\n\ncss {").unwrap_err();
    assert_eq!(e.kind, ErrorKind::UnterminatedBlock);
    assert_eq!(e.line, 3);
    assert_eq!(e.message(), "unterminated brace block opened on line 3");
    let far = CompileError { kind: ErrorKind::UnterminatedBlock, line: 120 };
    assert_eq!(far.message(), "unterminated brace block opened on line 120");
}

#[test]
fn compile_on_lines_agrees_with_compile_on_text() {
    let source = "title \"Demo\"\r\n@p \"P1\"\r\ninsert { Hi }\r\nchoice { Pick\r\nA\r\nB }\r\n";
    let lines: Vec<String> = source.lines().map(String::from).collect();
    let from_lines = compile(&lines).unwrap();
    let from_text = compile_source(source).unwrap();
    assert_eq!(from_lines, from_text);
    let as_chars: Vec<Vec<char>> = lines.iter().map(|l| l.chars().collect()).collect();
    assert_eq!(compile_chars(&as_chars).unwrap(), from_text);
    assert_eq!(
        from_text,
        vec![
            Entry::DocTitle("Demo".to_string()),
            page("P1", vec![insert("Hi"), asked(None, "Pick", &[("A", "0"), ("B", "1")])]),
        ]
    );
}

#[test]
fn classify_goes_by_the_first_token() {
    let of = |s: &str| classify(&s.chars().collect());
    assert_eq!(of(""), Directive::Skip);
    assert_eq!(of("// title"), Directive::Skip);
    assert_eq!(of("//title"), Directive::Skip);
    assert_eq!(of("title x"), Directive::Title);
    assert_eq!(of("title"), Directive::Title);
    assert_eq!(of("title\"A\""), Directive::Title);
    assert_eq!(of("title\tx"), Directive::Title);
    assert_eq!(of("@p"), Directive::Page);
    assert_eq!(of("@p \"Intro\""), Directive::Page);
    assert_eq!(of("import \"x\""), Directive::Import);
    assert_eq!(of("insert"), Directive::Insert);
    assert_eq!(of("insert{ x }"), Directive::Insert);
    assert_eq!(of("choice {"), Directive::Choice);
    assert_eq!(of("choice{"), Directive::Choice);
    assert_eq!(of("html{"), Directive::Html);
    assert_eq!(of("js {"), Directive::Js);
    assert_eq!(of("css {"), Directive::Css);
    // a keyword with more letters behind it is another token
    assert_eq!(of("titles X"), Directive::Skip);
    assert_eq!(of("titled"), Directive::Skip);
    assert_eq!(of("@page Intro"), Directive::Skip);
    assert_eq!(of("importer \"x\""), Directive::Skip);
    assert_eq!(of("insertion { x }"), Directive::Skip);
    assert_eq!(of("choices {"), Directive::Skip);
    assert_eq!(of("htmlx {"), Directive::Skip);
    assert_eq!(of("json {"), Directive::Skip);
    assert_eq!(of("cssfoo {"), Directive::Skip);
    assert_eq!(of("Title"), Directive::Skip);
    assert_eq!(of("f { x }"), Directive::Skip);
    assert_eq!(of("}"), Directive::Skip);
    assert_eq!(of("{ title"), Directive::Skip);
    assert_eq!(of("\"title\""), Directive::Skip);
}

#[test]
fn first_token_ends_at_whitespace_brace_or_quote() {
    let of = |s: &str| -> String { first_token_of(&s.chars().collect()).iter().collect() };
    assert_eq!(of(""), "");
    assert_eq!(of("title"), "title");
    assert_eq!(of("title x"), "title");
    assert_eq!(of("title\u{a0}x"), "title");
    assert_eq!(of("html{ x }"), "html");
    assert_eq!(of("title\"A\""), "title");
    assert_eq!(of("titles X"), "titles");
    assert_eq!(of("{x"), "");
    assert_eq!(of(" x"), "");
    assert_eq!(of("a}b'c`d"), "a}b'c`d");
}

#[test]
fn line_whose_first_token_is_no_keyword_is_ignored() {
    assert_eq!(compile_source("titles X"), Ok(Vec::new()));
    assert_eq!(compile_source("@page Intro"), Ok(Vec::new()));
    assert_eq!(compile_source("importer \"x\""), Ok(Vec::new()));
    assert_eq!(compile_source("insertion { x }"), Ok(Vec::new()));
    assert_eq!(compile_source("choices {"), Ok(Vec::new()));
    assert_eq!(compile_source("htmlx {"), Ok(Vec::new()));
    // an unknown line opens no block, so nothing is left open
    assert_eq!(compile_source("json {"), Ok(Vec::new()));
    assert_eq!(compile_source("cssfoo {"), Ok(Vec::new()));
    let ast = compile_source("@p A\ntitles X\ninsert x\njson {\ninsertion\ninsert y").unwrap();
    assert_eq!(ast, vec![page("A", vec![insert("x"), insert("y")])]);
}

#[test]
fn keyword_may_stand_directly_before_brace_or_quote() {
    let ast = compile_source("title\"Demo\"\n@p\"One\"\ninsert{ a }\nhtml{<hr>}\ncss{b{}}\njs{go()}\nchoice{ Q\nA }")
        .unwrap();
    assert_eq!(
        ast,
        vec![
            Entry::DocTitle("Demo".to_string()),
            page(
                "One",
                vec![
                    insert("a"),
                    Question::Html(Html { html: "<hr>".to_string() }),
                    Question::Css(Css { css: "b{}".to_string() }),
                    Question::Js(Js { script: "go()".to_string() }),
                    asked(None, "Q", &[("A", "0")]),
                ]
            ),
        ]
    );
}

#[test]
fn parse_block_with_marker_keeps_what_stands_before_it() {
    let lines = strings(&["one", "  two", "three END four", "five"]);
    assert_eq!(parse_block(&lines, 0, "END"), ("one\n  two\nthree \n".to_string(), 3));
    assert_eq!(parse_block(&lines, 1, "END"), ("  two\nthree \n".to_string(), 3));
    assert_eq!(parse_block(&lines, 3, "END"), ("five\n".to_string(), 4));
    assert_eq!(parse_block(&lines, 4, "END"), (String::new(), 4));
    assert_eq!(parse_block(&lines, 9, "END"), (String::new(), 9));
}

#[test]
fn parse_block_with_marker_drops_a_blank_start_of_the_last_line() {
    let lines = strings(&["one", "   }", "two"]);
    assert_eq!(parse_block(&lines, 0, "}"), ("one\n".to_string(), 2));
    let at_start = strings(&["} rest", "two"]);
    assert_eq!(parse_block(&at_start, 0, "}"), (String::new(), 1));
}

#[test]
fn parse_block_with_tag_stops_before_the_line_with_the_tag() {
    let lines = strings(&["one", "  two", "three } four", "five"]);
    assert_eq!(read_block::parse_block(&lines, 0, "}"), ("one\n  two\n".to_string(), 3));
    assert_eq!(read_block::parse_block(&lines, 2, "}"), (String::new(), 3));
    assert_eq!(read_block::parse_block(&lines, 3, "}"), ("five\n".to_string(), 4));
    assert_eq!(read_block::parse_block(&lines, 4, "}"), (String::new(), 4));
}

#[test]
fn parse_block_with_an_empty_marker_stops_at_once() {
    let lines = strings(&["one", "two"]);
    assert_eq!(parse_block(&lines, 0, ""), (String::new(), 1));
    assert_eq!(read_block::parse_block(&lines, 0, ""), (String::new(), 1));
}
