use sqe_core::transcompiler_old::{compile, Addon, Button, Node, Text};

fn strings(v: &[&str]) -> Vec<String> {
    v.iter().map(|s| s.to_string()).collect()
}

#[test]
fn first_parser_reports_first_words_blocks_and_warnings() {
    let lines = strings(&[
        "title Demo",
        "",
        "insert {",
        "  hidden",
        "}",
        "insert some words",
        "insert",
        "choice {",
        "  Pick",
        "  A",
        "} tail",
        "choice",
        "   ",
        "other stuff",
    ]);
    assert_eq!(
        compile(&lines),
        vec![
            "title",
            "Warning: 'insert' command without content on line 5",
            "  Pick\n  A\n",
            "Warning: 'choice' command without block on line 7",
            "other",
        ]
    );
}

#[test]
fn first_parser_reads_a_block_to_the_end_when_nothing_closes_it() {
    let lines = strings(&["choice {", "a", "b"]);
    assert_eq!(compile(&lines), vec!["a\nb\n"]);
    assert_eq!(compile(&strings(&["insert { x }", "y } z", "insertion"])), vec!["insertion"]);
    assert_eq!(compile(&strings(&[])), Vec::<String>::new());
}

#[test]
fn node_types_hold_their_fields() {
    let node = Node::Choice {
        text: vec![Text { content: "Pick".to_string() }],
        options: vec![Button { label: "A".to_string(), value: 1 }],
        addons: vec![Addon { content: "note".to_string(), code: "run()".to_string() }],
    };
    assert_eq!(node.clone(), node);
    assert_ne!(node, Node::Insert { text: Vec::new() });
}
