use sqe_core::text::convert::{chars_of, push_all, push_str, same_chars, slice_of, text_of};
use sqe_core::text::lines::{join_from, split_lines, split_words};
use sqe_core::text::number::{decimal_chars, digit_char};
use sqe_core::text::rewrite::replace_chars;
use sqe_core::text::search::{
    find_in, has_prefix, has_prefix_str, last_position_of, occurs_at, position_of,
};
use sqe_core::text::space::{is_space_char, trim_bounds, trim_chars};

fn chars(s: &str) -> Vec<char> {
    s.chars().collect()
}

fn text(v: &Vec<char>) -> String {
    v.iter().collect()
}

fn texts(v: &Vec<Vec<char>>) -> Vec<String> {
    v.iter().map(text).collect()
}

fn samples() -> Vec<&'static str> {
    vec![
        "",
        " ",
        "a",
        "  a  ",
        "\t\n a b \r\n",
        "a\nb",
        "a\n",
        "a\r\n",
        "a\r",
        "\n",
        "\n\n",
        "\r\n\r\n",
        "a\n\nb",
        "a\r\nb\rc\n",
        "one two  three",
        "  lead and trail  ",
        "\u{a0}nbsp\u{a0}",
        "\u{2003}em space\u{3000}",
        "\u{85}next line\u{2028}\u{2029}",
        "\u{200b}zero width is no space\u{200b}",
        "héllo ⚠ wörld",
        "x{y}z",
        "Red >> r",
        "a>>b>>c",
        "</script></script>",
        "<</script>",
        "aaa",
    ]
}

#[test]
fn chars_of_and_text_of_are_inverse() {
    for s in samples() {
        assert_eq!(chars_of(s), chars(s));
        assert_eq!(text_of(&chars(s)), s);
    }
}

#[test]
fn push_all_and_push_str_append() {
    let mut out = chars("ab");
    push_all(&mut out, &chars("cd"));
    push_str(&mut out, "é⚠");
    assert_eq!(text(&out), "abcdé⚠");
    push_all(&mut out, &Vec::new());
    push_str(&mut out, "");
    assert_eq!(text(&out), "abcdé⚠");
}

#[test]
fn slice_of_cuts_by_characters() {
    let v = chars("héllo");
    assert_eq!(text(&slice_of(&v, 1, 3)), "él");
    assert_eq!(text(&slice_of(&v, 0, 5)), "héllo");
    assert_eq!(text(&slice_of(&v, 2, 2)), "");
}

#[test]
fn same_chars_compares_texts() {
    assert!(same_chars(&chars("untitled"), &chars("untitled")));
    assert!(!same_chars(&chars("untitled"), &chars("untitle")));
    assert!(!same_chars(&chars("untitled"), &chars("untitleD")));
    assert!(same_chars(&chars(""), &chars("")));
}

#[test]
fn is_space_char_agrees_with_std() {
    let mut n: u32 = 0;
    while n <= 0x3100 {
        if let Some(c) = char::from_u32(n) {
            assert_eq!(is_space_char(c), c.is_whitespace(), "U+{:04X}", n);
        }
        n += 1;
    }
    assert!(!is_space_char('\u{feff}'));
    assert!(!is_space_char('\u{10ffff}'));
}

#[test]
fn trim_chars_agrees_with_std() {
    for s in samples() {
        assert_eq!(text(&trim_chars(&chars(s))), s.trim(), "{:?}", s);
    }
}

#[test]
fn trim_bounds_gives_the_trimmed_range() {
    assert_eq!(trim_bounds(&chars("  ab ")), (2, 4));
    assert_eq!(trim_bounds(&chars("ab")), (0, 2));
    assert_eq!(trim_bounds(&chars("   ")), (3, 3));
    assert_eq!(trim_bounds(&chars("")), (0, 0));
}

#[test]
fn split_lines_agrees_with_std() {
    for s in samples() {
        let expected: Vec<String> = s.lines().map(String::from).collect();
        assert_eq!(texts(&split_lines(&chars(s))), expected, "{:?}", s);
    }
}

#[test]
fn split_lines_edge_cases() {
    assert_eq!(texts(&split_lines(&chars(""))), Vec::<String>::new());
    assert_eq!(texts(&split_lines(&chars("\n"))), vec![""]);
    assert_eq!(texts(&split_lines(&chars("a\n\nb"))), vec!["a", "", "b"]);
    assert_eq!(texts(&split_lines(&chars("a\r\nb\r"))), vec!["a", "b\r"]);
    assert_eq!(texts(&split_lines(&chars("a\r\r\n"))), vec!["a\r"]);
}

#[test]
fn split_words_agrees_with_std() {
    for s in samples() {
        let expected: Vec<String> = s.split_whitespace().map(String::from).collect();
        assert_eq!(texts(&split_words(&chars(s))), expected, "{:?}", s);
    }
}

#[test]
fn join_from_agrees_with_std() {
    let parts = vec![chars("insert"), chars("some"), chars("plain"), chars("words")];
    assert_eq!(text(&join_from(&parts, 1, &chars(" "))), "some plain words");
    assert_eq!(text(&join_from(&parts, 0, &chars(", "))), "insert, some, plain, words");
    assert_eq!(text(&join_from(&parts, 3, &chars(" "))), "words");
    assert_eq!(text(&join_from(&parts, 4, &chars(" "))), "");
    assert_eq!(text(&join_from(&Vec::new(), 0, &chars(" "))), "");
}

#[test]
fn decimal_chars_agrees_with_std() {
    for n in [0usize, 1, 9, 10, 11, 99, 100, 12345, 4294967295, usize::MAX] {
        assert_eq!(text(&decimal_chars(n)), n.to_string());
    }
    assert_eq!(digit_char(0), '0');
    assert_eq!(digit_char(9), '9');
}

#[test]
fn position_of_agrees_with_std() {
    for s in samples() {
        for c in ['{', '"', '\n', 'a', '>', '⚠'] {
            let first = s.chars().position(|x| x == c).unwrap_or(s.chars().count());
            assert_eq!(position_of(&chars(s), c), first, "{:?} {:?}", s, c);
            let all: Vec<char> = s.chars().collect();
            let last = all.iter().rposition(|x| *x == c);
            assert_eq!(last_position_of(&chars(s), c), last, "{:?} {:?}", s, c);
        }
    }
}

#[test]
fn find_in_agrees_with_std() {
    for s in samples() {
        for p in ["", ">>", "a", "aa", "</script>", "\n", "}", "two", "⚠ w"] {
            let expected = s.find(p).map(|byte| s[..byte].chars().count());
            assert_eq!(find_in(&chars(s), &chars(p)), expected, "{:?} {:?}", s, p);
            assert_eq!(has_prefix(&chars(s), &chars(p)), s.starts_with(p));
            assert_eq!(has_prefix_str(&chars(s), p), s.starts_with(p));
        }
    }
}

#[test]
fn occurs_at_checks_one_position() {
    let v = chars("a>>b>>c");
    assert!(occurs_at(&v, &chars(">>"), 1));
    assert!(occurs_at(&v, &chars(">>"), 4));
    assert!(!occurs_at(&v, &chars(">>"), 0));
    assert!(!occurs_at(&v, &chars(">>"), 6));
    assert!(!occurs_at(&v, &chars(">>"), 7));
    assert!(!occurs_at(&v, &chars(">>"), 100));
    assert!(occurs_at(&v, &chars(""), 7));
    assert!(!occurs_at(&v, &chars(""), 8));
}

#[test]
fn replace_chars_agrees_with_std() {
    for s in samples() {
        for (p, r) in [
            ("</script>", "<\\/script>"),
            ("aa", "b"),
            ("a", "aa"),
            (">>", ""),
            ("\n", "<br/>"),
        ] {
            assert_eq!(
                text(&replace_chars(&chars(s), &chars(p), &chars(r))),
                s.replace(p, r),
                "{:?} {:?} {:?}",
                s,
                p,
                r
            );
        }
    }
}

#[test]
fn replace_chars_leaves_text_alone_for_an_empty_pattern() {
    assert_eq!(text(&replace_chars(&chars("abc"), &chars(""), &chars("x"))), "abc");
}
