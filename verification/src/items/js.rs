//! Raw script.

use vstd::prelude::*;
use crate::text::convert::{chars_of, text_of};
use crate::text::space::{trim, trim_chars};

verus! {

/// A block of script that runs when its page is entered.
#[derive(Debug, Clone, PartialEq, Eq)]
pub struct Js {
    pub script: String,
}

impl View for Js {
    type V = Seq<char>;

    open spec fn view(&self) -> Seq<char> {
        self.script@
    }
}

impl Js {
    /// The script of a block: the block without surrounding whitespace.
    pub fn parse(block: &str) -> (r: Self)
        ensures
            r@ == trim(block@),
    {
        let v = chars_of(block);
        Js::from_chars(&v)
    }

    /// The script of a block given as characters.
    pub fn from_chars(block: &Vec<char>) -> (r: Self)
        ensures
            r@ == trim(block@),
    {
        let t = trim_chars(block);
        Js { script: text_of(&t) }
    }

    /// No markup, and the script itself as the script fragment.
    pub fn render_html(&self) -> (r: (String, Option<String>))
        ensures
            r.0@ == Seq::<char>::empty(),
            r.1 matches Some(js) && js@ == self@,
    {
        (String::new(), Some(self.script.clone()))
    }
}

} // verus!
