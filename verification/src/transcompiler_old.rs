//! The first parser: its node types, and what it reports for a source.
//!
//! It goes by the first word of each line. An `insert` or `choice` line with
//! an opening brace reads the lines after it up to the first one with a
//! closing brace; every other line stands for itself.

use vstd::prelude::*;
use crate::read_block::{lemma_tagged_block_used, parse_block, tagged_block};
use crate::text::convert::{chars_of, push_all, push_str, same_chars, text_of};
use crate::text::lines::{lemma_strings_push, split_words, strings, texts, words};
use crate::text::number::{decimal, decimal_chars};
use crate::text::search::{has_char, position_of};

verus! {

/// The word that starts inserted text.
pub const INSERT_WORD: &'static str = "insert";

/// The word that starts a choice.
pub const CHOICE_WORD: &'static str = "choice";

/// What ends a block.
pub const BLOCK_END: &'static str = "}";

/// The warning for an `insert` without content; the count of the line
/// follows.
pub const INSERT_WARNING: &'static str = "Warning: 'insert' command without content on line ";

/// The warning for a `choice` without block; the count of the line follows.
pub const CHOICE_WARNING: &'static str = "Warning: 'choice' command without block on line ";

/// A piece of text.
#[derive(Debug, Clone, PartialEq, Eq)]
pub struct Text {
    pub content: String,
}

/// A button with the number it stands for.
#[derive(Debug, Clone, PartialEq, Eq)]
pub struct Button {
    pub label: String,
    pub value: i32,
}

/// An add-on: what it shows and the code behind it.
#[derive(Debug, Clone, PartialEq, Eq)]
pub struct Addon {
    pub content: String,
    pub code: String,
}

/// A node of a document.
#[derive(Debug, Clone, PartialEq, Eq)]
pub enum Node {
    Insert { text: Vec<Text> },
    Choice { text: Vec<Text>, options: Vec<Button>, addons: Vec<Addon> },
}

/// What the parser reports for `lines[pos..]`, where `count` is the number
/// of the line at `pos` among the lines that were judged: a block counts as
/// part of the line that opened it.
///
/// A line without words reports nothing. An `insert` line reports a warning
/// where it has neither a brace nor a second word. A `choice` line reports
/// its block, or a warning where it has no brace. Any other line reports its
/// first word.
pub open spec fn report_from(lines: Seq<Seq<char>>, pos: int, count: nat) -> Seq<Seq<char>>
    decreases lines.len() - pos,
{
    if pos < 0 || pos >= lines.len() {
        Seq::empty()
    } else {
        let line = lines[pos];
        let ws = words(line);
        let block = tagged_block(lines, pos + 1, BLOCK_END@);
        proof {
            lemma_tagged_block_used(lines, pos + 1, BLOCK_END@);
        }
        if ws.len() == 0 {
            report_from(lines, pos + 1, count + 1)
        } else if ws[0] == INSERT_WORD@ {
            if has_char(line, '{') {
                report_from(lines, pos + 1 + block.used, count + 1)
            } else if ws.len() > 1 {
                report_from(lines, pos + 1, count + 1)
            } else {
                seq![INSERT_WARNING@ + decimal(count)] + report_from(lines, pos + 1, count + 1)
            }
        } else if ws[0] == CHOICE_WORD@ {
            if has_char(line, '{') {
                seq![block.text] + report_from(lines, pos + 1 + block.used, count + 1)
            } else {
                seq![CHOICE_WARNING@ + decimal(count)] + report_from(lines, pos + 1, count + 1)
            }
        } else {
            seq![ws[0]] + report_from(lines, pos + 1, count + 1)
        }
    }
}

/// What the parser reports for the lines of a source.
pub open spec fn report(lines: Seq<Seq<char>>) -> Seq<Seq<char>> {
    report_from(lines, 0, 1)
}

/// The warning `head` for the line with the count `count`.
fn warning(head: &str, count: usize) -> (r: String)
    ensures
        r@ == head@ + decimal(count as nat),
{
    let mut out: Vec<char> = Vec::new();
    push_str(&mut out, head);
    push_all(&mut out, &decimal_chars(count));
    text_of(&out)
}

/// Goes through the lines of a source as the first parser does and gives
/// what it reports, in order.
pub fn compile(lines: &Vec<String>) -> (out: Vec<String>)
    ensures
        strings(out@) == report(strings(lines@)),
{
    let ghost ls = strings(lines@);
    let mut out: Vec<String> = Vec::new();
    let mut pos: usize = 0;
    let mut seen: usize = 0;
    assert(strings(out@) =~= Seq::<Seq<char>>::empty());
    assert(Seq::<Seq<char>>::empty() + report(ls) =~= report(ls));
    while pos < lines.len()
        invariant
            pos <= lines.len(),
            seen <= pos,
            ls == strings(lines@),
            strings(out@) + report_from(ls, pos as int, (seen + 1) as nat) == report(ls),
        decreases lines.len() - pos,
    {
        let line = chars_of(lines[pos].as_str());
        assert(ls[pos as int] == line@);
        let ws = split_words(&line);
        let braced = position_of(&line, '{') < line.len();
        let ghost before = strings(out@);
        let ghost block = tagged_block(ls, pos + 1, BLOCK_END@);
        proof {
            lemma_tagged_block_used(ls, pos + 1, BLOCK_END@);
        }
        let count: usize = seen + 1;
        let mut next: usize = pos + 1;
        if ws.len() == 0 {
        } else if same_chars(&ws[0], &chars_of(INSERT_WORD)) {
            assert(texts(ws@)[0] == ws@[0]@);
            if braced {
                let (_, after) = parse_block(lines, pos + 1, BLOCK_END);
                next = after;
            } else if ws.len() > 1 {
            } else {
                let w = warning(INSERT_WARNING, count);
                proof {
                    lemma_strings_push(out@, w);
                    let tail = report_from(ls, pos + 1, (count + 1) as nat);
                    assert(before.push(w@) + tail =~= before + (seq![w@] + tail));
                }
                out.push(w);
            }
        } else if same_chars(&ws[0], &chars_of(CHOICE_WORD)) {
            assert(texts(ws@)[0] == ws@[0]@);
            if braced {
                let (text, after) = parse_block(lines, pos + 1, BLOCK_END);
                next = after;
                proof {
                    lemma_strings_push(out@, text);
                    let tail = report_from(ls, pos + 1 + block.used, (count + 1) as nat);
                    assert(before.push(text@) + tail =~= before + (seq![text@] + tail));
                }
                out.push(text);
            } else {
                let w = warning(CHOICE_WARNING, count);
                proof {
                    lemma_strings_push(out@, w);
                    let tail = report_from(ls, pos + 1, (count + 1) as nat);
                    assert(before.push(w@) + tail =~= before + (seq![w@] + tail));
                }
                out.push(w);
            }
        } else {
            assert(texts(ws@)[0] == ws@[0]@);
            let w = text_of(&ws[0]);
            proof {
                lemma_strings_push(out@, w);
                let tail = report_from(ls, pos + 1, (count + 1) as nat);
                assert(before.push(w@) + tail =~= before + (seq![w@] + tail));
            }
            out.push(w);
        }
        pos = next;
        seen = seen + 1;
    }
    assert(strings(out@) + Seq::<Seq<char>>::empty() =~= strings(out@));
    out
}

} // verus!
