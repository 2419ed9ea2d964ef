//! Raw style rules.

use vstd::prelude::*;
use crate::text::convert::{chars_of, push_str, text_of};
use crate::text::space::{trim, trim_chars};

verus! {

/// What opens a style container.
pub const STYLE_OPEN: &'static str = "<style>\n";

/// What closes a style container.
pub const STYLE_CLOSE: &'static str = "\n</style>";

/// A block of style rules passed through as it is.
#[derive(Debug, Clone, PartialEq, Eq)]
pub struct Css {
    pub css: String,
}

impl View for Css {
    type V = Seq<char>;

    open spec fn view(&self) -> Seq<char> {
        self.css@
    }
}

/// The style container around `css`.
pub open spec fn css_html(css: Seq<char>) -> Seq<char> {
    STYLE_OPEN@ + css + STYLE_CLOSE@
}

impl Css {
    /// The style rules of a block: the block without surrounding whitespace.
    pub fn parse(block: &str) -> (r: Self)
        ensures
            r@ == trim(block@),
    {
        let v = chars_of(block);
        Css::from_chars(&v)
    }

    /// The style rules of a block given as characters.
    pub fn from_chars(block: &Vec<char>) -> (r: Self)
        ensures
            r@ == trim(block@),
    {
        let t = trim_chars(block);
        Css { css: text_of(&t) }
    }

    /// The rules inside a style container, and no script.
    pub fn render_html(&self) -> (r: (String, Option<String>))
        ensures
            r.0@ == css_html(self@),
            r.1 is None,
    {
        let mut out: Vec<char> = Vec::new();
        push_str(&mut out, STYLE_OPEN);
        push_str(&mut out, self.css.as_str());
        push_str(&mut out, STYLE_CLOSE);
        assert(out@ =~= css_html(self@));
        (text_of(&out), None)
    }
}

} // verus!
