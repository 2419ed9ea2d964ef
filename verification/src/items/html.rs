//! Raw markup.

use vstd::prelude::*;
use crate::text::convert::{chars_of, text_of};
use crate::text::space::{trim, trim_chars};

verus! {

/// A block of markup passed through as it is.
#[derive(Debug, Clone, PartialEq, Eq)]
pub struct Html {
    pub html: String,
}

impl View for Html {
    type V = Seq<char>;

    open spec fn view(&self) -> Seq<char> {
        self.html@
    }
}

impl Html {
    /// The markup of a block: the block without surrounding whitespace.
    pub fn parse(block: &str) -> (r: Self)
        ensures
            r@ == trim(block@),
    {
        let v = chars_of(block);
        Html::from_chars(&v)
    }

    /// The markup of a block given as characters.
    pub fn from_chars(block: &Vec<char>) -> (r: Self)
        ensures
            r@ == trim(block@),
    {
        let t = trim_chars(block);
        Html { html: text_of(&t) }
    }

    /// The markup itself, unescaped, and no script.
    pub fn render_html(&self) -> (r: (String, Option<String>))
        ensures
            r.0@ == self@,
            r.1 is None,
    {
        (self.html.clone(), None)
    }
}

} // verus!
