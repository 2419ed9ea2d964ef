//! Inserted text.

use vstd::prelude::*;
use crate::items::common::{escape_html_chars, html_text};
use crate::text::convert::{chars_of, push_all, push_str, text_of};
use crate::text::lines::{join, join_from, lemma_texts_push, lines, split_lines, texts};
use crate::text::space::{trim, trim_chars};

verus! {

/// What opens a text block.
pub const TEXT_BLOCK_OPEN: &'static str = "<div class=\"text-block\">";

/// What closes a text block.
pub const TEXT_BLOCK_CLOSE: &'static str = "</div>";

/// The explicit line break between two lines of a text block.
pub const LINE_BREAK: &'static str = "<br/>\n";

/// A block of plain text shown on a page.
#[derive(Debug, Clone, PartialEq, Eq)]
pub struct Insert {
    pub text: String,
}

impl View for Insert {
    type V = Seq<char>;

    open spec fn view(&self) -> Seq<char> {
        self.text@
    }
}

/// Each of `ls` as HTML text.
pub open spec fn html_lines(ls: Seq<Seq<char>>) -> Seq<Seq<char>> {
    ls.map_values(|l: Seq<char>| html_text(l))
}

/// The text block for `text`: its lines as HTML text, joined by explicit line
/// breaks.
pub open spec fn insert_html(text: Seq<char>) -> Seq<char> {
    TEXT_BLOCK_OPEN@ + join(html_lines(lines(text)), LINE_BREAK@) + TEXT_BLOCK_CLOSE@
}

impl Insert {
    /// The inserted text of a block: the block without surrounding whitespace.
    pub fn parse(block: &str) -> (r: Self)
        ensures
            r@ == trim(block@),
    {
        let v = chars_of(block);
        Insert::from_chars(&v)
    }

    /// The inserted text of a block given as characters.
    pub fn from_chars(block: &Vec<char>) -> (r: Self)
        ensures
            r@ == trim(block@),
    {
        let t = trim_chars(block);
        Insert { text: text_of(&t) }
    }

    /// The HTML fragment for this text, and no script.
    pub fn render_html(&self) -> (r: (String, Option<String>))
        ensures
            r.0@ == insert_html(self@),
            r.1 is None,
    {
        let v = chars_of(self.text.as_str());
        let ls = split_lines(&v);
        let mut escaped: Vec<Vec<char>> = Vec::new();
        let mut i: usize = 0;
        assert(texts(escaped@) =~= html_lines(texts(ls@).take(0)));
        while i < ls.len()
            invariant
                i <= ls.len(),
                texts(escaped@) == html_lines(texts(ls@).take(i as int)),
            decreases ls.len() - i,
        {
            let e = escape_html_chars(&ls[i]);
            proof {
                lemma_texts_push(escaped@, e);
                assert(html_lines(texts(ls@).take(i + 1)) =~= html_lines(
                    texts(ls@).take(i as int),
                ).push(e@));
            }
            escaped.push(e);
            i += 1;
        }
        assert(texts(ls@).take(ls.len() as int) =~= texts(ls@));
        let sep = chars_of(LINE_BREAK);
        let joined = join_from(&escaped, 0, &sep);
        assert(texts(escaped@).skip(0) =~= texts(escaped@));
        let mut out: Vec<char> = Vec::new();
        push_str(&mut out, TEXT_BLOCK_OPEN);
        push_all(&mut out, &joined);
        push_str(&mut out, TEXT_BLOCK_CLOSE);
        assert(out@ =~= insert_html(self@));
        (text_of(&out), None)
    }
}

} // verus!
