//! Plain lists of choices.

use vstd::prelude::*;
use crate::items::choose_item::{content_lines, content_of, NO_QUESTION};
use crate::text::convert::{chars_of, text_of};
use crate::text::lines::{lemma_strings_push, lines, split_lines, strings, texts};

verus! {

/// A prompt with the choices offered for it.
#[derive(Debug, Clone, PartialEq, Eq)]
pub struct Choice {
    pub question: String,
    pub options: Vec<String>,
}

/// What a `Choice` holds, as plain texts.
pub struct ChoiceView {
    pub question: Seq<char>,
    pub options: Seq<Seq<char>>,
}

impl View for Choice {
    type V = ChoiceView;

    open spec fn view(&self) -> ChoiceView {
        ChoiceView { question: self.question@, options: strings(self.options@) }
    }
}

/// The choice that `block` describes: its first content line is the prompt,
/// the content lines after it are the options. A block without content lines
/// gets a fixed prompt and no options.
pub open spec fn choice_of(block: Seq<char>) -> ChoiceView {
    let ls = content_lines(lines(block));
    if ls.len() == 0 {
        ChoiceView { question: NO_QUESTION@, options: Seq::empty() }
    } else {
        ChoiceView { question: ls[0], options: ls.drop_first() }
    }
}

/// Reads the choice that `block` describes.
pub fn return_choice(block: &str) -> (r: Choice)
    ensures
        r@ == choice_of(block@),
{
    let v = chars_of(block);
    let ls = split_lines(&v);
    let content = content_of(&ls);
    let ghost all = texts(content@);
    let mut options: Vec<String> = Vec::new();
    assert(strings(options@) =~= Seq::<Seq<char>>::empty());
    if content.len() == 0 {
        return Choice { question: String::from_str(NO_QUESTION), options };
    }
    let question = text_of(&content[0]);
    let mut i: usize = 1;
    assert(all.drop_first().take(0) =~= Seq::<Seq<char>>::empty());
    while i < content.len()
        invariant
            1 <= i <= content.len(),
            all == texts(content@),
            strings(options@) == all.drop_first().take(i - 1),
        decreases content.len() - i,
    {
        let t = text_of(&content[i]);
        proof {
            lemma_strings_push(options@, t);
            assert(all.drop_first().take(i as int) =~= all.drop_first().take(i - 1).push(t@));
        }
        options.push(t);
        i += 1;
    }
    assert(all.drop_first().take(content.len() - 1) =~= all.drop_first());
    Choice { question, options }
}

} // verus!
