//! Single-answer questions.
//!
//! The first content line of a block is the prompt. The lines after it are
//! read by a small machine with three modes: option lines, the lines of an
//! `.addons` block, and the lines of a script that spans several lines.

use vstd::prelude::*;
use crate::items::common::{escape_html_chars, html_text, js_literal, js_literal_for_key};
use crate::text::convert::{chars_of, push_all, push_str, same_chars, slice_of, text_of};
use crate::text::lines::{
    lemma_strings_push, lemma_texts_push, lines, split_lines, strings, texts,
};
use crate::text::number::{decimal, decimal_chars};
use crate::text::search::{
    contains, find, find_in, has_prefix_str, index_of, last_index_of, last_position_of,
    position_of, starts_with,
};
use crate::text::space::{trim, trim_chars};

verus! {

/// The prompt of a block that has no content line.
pub const NO_QUESTION: &'static str = "⚠ no question found";

/// What starts the block of add-ons.
pub const ADDONS_MARK: &'static str = ".addons";

/// What starts a script inside the add-ons.
pub const SCRIPT_MARK: &'static str = ".script";

/// The line that ends the block of add-ons.
pub const ADDONS_END: &'static str = "]";

/// What stands between an option's label and its value.
pub const ARROW: &'static str = ">>";

/// A single-answer question with labelled options.
#[derive(Debug, Clone, PartialEq, Eq)]
pub struct Choose {
    /// The key of the answer, when the source names one.
    pub id: Option<String>,
    /// The prompt.
    pub question: String,
    /// The options as pairs of label and value, in source order.
    pub options: Vec<(String, String)>,
    /// The literal lines of the add-ons block.
    pub addons: Vec<String>,
    /// The script lines of the add-ons block, in source order.
    pub script_lines: Vec<String>,
}

/// What a `Choose` holds, as plain texts.
pub struct ChooseView {
    pub id: Option<Seq<char>>,
    pub question: Seq<char>,
    pub options: Seq<(Seq<char>, Seq<char>)>,
    pub addons: Seq<Seq<char>>,
    pub script_lines: Seq<Seq<char>>,
}

/// The texts of a sequence of pairs of strings.
pub open spec fn pairs(v: Seq<(String, String)>) -> Seq<(Seq<char>, Seq<char>)> {
    v.map_values(|p: (String, String)| (p.0@, p.1@))
}

/// The text of an optional string.
pub open spec fn optional(s: Option<String>) -> Option<Seq<char>> {
    match s {
        Some(t) => Some(t@),
        None => None,
    }
}

impl View for Choose {
    type V = ChooseView;

    open spec fn view(&self) -> ChooseView {
        ChooseView {
            id: optional(self.id),
            question: self.question@,
            options: pairs(self.options@),
            addons: strings(self.addons@),
            script_lines: strings(self.script_lines@),
        }
    }
}

/// What the lines after the prompt are read as.
#[derive(Debug, Clone, Copy, PartialEq, Eq, Structural)]
pub enum Mode {
    /// Option lines.
    Options,
    /// Lines of the add-ons block.
    Addons,
    /// Lines of a script that was opened on an earlier line.
    Script,
}

/// What has been read of a block after its prompt.
pub struct Reading {
    pub mode: Mode,
    pub options: Seq<(Seq<char>, Seq<char>)>,
    pub addons: Seq<Seq<char>>,
    pub script_lines: Seq<Seq<char>>,
    /// The value that the next option without one of its own gets.
    pub auto: nat,
}

/// Nothing read yet.
pub open spec fn reading_start() -> Reading {
    Reading {
        mode: Mode::Options,
        options: Seq::empty(),
        addons: Seq::empty(),
        script_lines: Seq::empty(),
        auto: 0,
    }
}

/// `r` with the script text `s` added, unless `s` is empty.
pub open spec fn with_script(r: Reading, s: Seq<char>) -> Reading {
    if s.len() == 0 {
        r
    } else {
        Reading { script_lines: r.script_lines.push(s), ..r }
    }
}

/// The option that `line` stands for: label and value around the first `>>`,
/// or the whole line with the next automatic value.
pub open spec fn read_option(r: Reading, line: Seq<char>) -> Reading {
    let k = find(line, ARROW@);
    if k >= 0 {
        Reading {
            options: r.options.push((trim(line.take(k)), trim(line.skip(k + ARROW@.len())))),
            ..r
        }
    } else {
        Reading { options: r.options.push((line, decimal(r.auto))), auto: r.auto + 1, ..r }
    }
}

/// A `.script` line of the add-ons block. With a `]` after its first `[` the
/// script is what stands between that `[` and the last `]`. With a `[` that
/// is not closed on the line the script starts after it and goes on in the
/// next lines. Without a `[` the line is ignored.
pub open spec fn read_script_start(r: Reading, line: Seq<char>) -> Reading {
    let open = index_of(line, '[');
    let close = last_index_of(line, ']');
    if open < line.len() && close > open {
        with_script(r, trim(line.subrange(open + 1, close)))
    } else if open < line.len() {
        Reading { mode: Mode::Script, ..with_script(r, trim(line.skip(open + 1))) }
    } else {
        r
    }
}

/// Reads one content line.
pub open spec fn feed(r: Reading, line: Seq<char>) -> Reading {
    match r.mode {
        Mode::Options => {
            if starts_with(line, ADDONS_MARK@) {
                Reading { mode: Mode::Addons, ..r }
            } else {
                read_option(r, line)
            }
        },
        Mode::Addons => {
            if line == ADDONS_END@ {
                Reading { mode: Mode::Options, ..r }
            } else if starts_with(line, SCRIPT_MARK@) {
                read_script_start(r, line)
            } else {
                Reading { addons: r.addons.push(line), ..r }
            }
        },
        Mode::Script => {
            let close = index_of(line, ']');
            if close < line.len() {
                Reading { mode: Mode::Addons, ..with_script(r, trim(line.take(close))) }
            } else {
                Reading { script_lines: r.script_lines.push(line), ..r }
            }
        },
    }
}

/// Reads content lines one after the other.
pub open spec fn feed_all(r: Reading, ls: Seq<Seq<char>>) -> Reading
    decreases ls.len(),
{
    if ls.len() == 0 {
        r
    } else {
        feed(feed_all(r, ls.drop_last()), ls.last())
    }
}

/// The content lines among `ls`: each line trimmed, the blank ones left out.
pub open spec fn content_lines(ls: Seq<Seq<char>>) -> Seq<Seq<char>> {
    ls.map_values(|l: Seq<char>| trim(l)).filter(|l: Seq<char>| l.len() > 0)
}

/// The content lines of one more line.
pub proof fn lemma_content_lines_push(ls: Seq<Seq<char>>, l: Seq<char>)
    ensures
        content_lines(ls.push(l)) == if trim(l).len() > 0 {
            content_lines(ls).push(trim(l))
        } else {
            content_lines(ls)
        },
{
    reveal(Seq::filter);
    let trimmed = ls.push(l).map_values(|l: Seq<char>| trim(l));
    assert(trimmed.drop_last() =~= ls.map_values(|l: Seq<char>| trim(l)));
    assert(trimmed.last() == trim(l));
}

/// The question that the block `block` describes, under the key `id`.
pub open spec fn choose_of(block: Seq<char>, id: Option<Seq<char>>) -> ChooseView {
    let ls = content_lines(lines(block));
    let r = feed_all(
        reading_start(),
        if ls.len() == 0 {
            ls
        } else {
            ls.drop_first()
        },
    );
    ChooseView {
        id,
        question: if ls.len() == 0 {
            NO_QUESTION@
        } else {
            ls[0]
        },
        options: r.options,
        addons: r.addons,
        script_lines: r.script_lines,
    }
}

/// The options that a run of plain option lines gives: each line is a label,
/// and the values count up from `start` in decimal notation.
pub open spec fn counted(ls: Seq<Seq<char>>, start: nat) -> Seq<(Seq<char>, Seq<char>)> {
    Seq::new(ls.len(), |i: int| (ls[i], decimal((start + i) as nat)))
}

/// Whether `line` is a plain option line: it neither opens the add-ons block
/// nor holds a `>>`.
pub open spec fn is_plain_option(line: Seq<char>) -> bool {
    !starts_with(line, ADDONS_MARK@) && !contains(line, ARROW@)
}

/// Options without values of their own get the values `0`, `1`, `2`, ... in
/// source order.
pub proof fn lemma_automatic_values(ls: Seq<Seq<char>>)
    requires
        forall|i: int| 0 <= i < ls.len() ==> is_plain_option(#[trigger] ls[i]),
    ensures
        feed_all(reading_start(), ls) == (Reading {
            options: counted(ls, 0),
            auto: ls.len(),
            ..reading_start()
        }),
    decreases ls.len(),
{
    if ls.len() == 0 {
        assert(counted(ls, 0) =~= Seq::empty());
    } else {
        let head = ls.drop_last();
        assert forall|i: int| 0 <= i < head.len() implies is_plain_option(#[trigger] head[i]) by {
            assert(head[i] == ls[i]);
        }
        lemma_automatic_values(head);
        assert(is_plain_option(ls[ls.len() - 1]));
        assert(counted(head, 0).push((ls.last(), decimal(head.len()))) =~= counted(ls, 0));
    }
}

/// Options with values of their own keep them: a line `label >> value` gives
/// the pair of the trimmed label and the trimmed value, and uses up no
/// automatic value.
pub proof fn lemma_explicit_value(r: Reading, line: Seq<char>)
    requires
        r.mode == Mode::Options,
        !starts_with(line, ADDONS_MARK@),
        contains(line, ARROW@),
    ensures
        feed(r, line).options == r.options.push(
            (
                trim(line.take(find(line, ARROW@))),
                trim(line.skip(find(line, ARROW@) + ARROW@.len())),
            ),
        ),
        feed(r, line).auto == r.auto,
        feed(r, line).mode == Mode::Options,
{
}

/// What opens the group of a question; the name of the group follows.
pub const GROUP_OPEN: &'static str = "<fieldset class=\"question\" data-q=\"";

/// What stands between the name of the group and the prompt.
pub const LEGEND_OPEN: &'static str = "\"><legend>";

/// What closes the prompt.
pub const LEGEND_CLOSE: &'static str = "</legend>";

/// What closes the group.
pub const GROUP_CLOSE: &'static str = "</fieldset>";

/// What opens an option; the identifier of its input follows.
pub const INPUT_OPEN: &'static str = "<div><input type=\"radio\" id=\"";

/// What stands between the identifier of an input and the name of its group.
pub const INPUT_NAME: &'static str = "\" name=\"";

/// What stands between the name of the group and the value of the option.
pub const INPUT_VALUE: &'static str = "\" data-sqe-value=\"";

/// What stands between the value of the option and the identifier that the
/// label points to.
pub const LABEL_FOR: &'static str = "\"> <label for=\"";

/// What stands between that identifier and the text of the label.
pub const LABEL_OPEN: &'static str = "\">";

/// What closes an option.
pub const LABEL_CLOSE: &'static str = "</label></div>";

/// The script that registers the answer: from its start to the name of the
/// group.
pub const WIRE_HEAD: &'static str = "(function() {\n  if (!window.SQE_ANSWERS) window.SQE_ANSWERS = {};\n  const inputs = document.querySelectorAll(\"input[name='";

/// The script that registers the answer: from the name of the group to the
/// key under which the answer is stored. The value is stored as a number
/// when its text is not empty and reads as a finite number, as text
/// otherwise.
pub const WIRE_STORE: &'static str = "']\");\n  inputs.forEach(i => {\n    i.addEventListener('change', function(e) {\n      const raw = this.dataset.sqeValue;\n      const num = Number(raw);\n      const val = (Number.isFinite(num) && raw !== '') ? num : raw;\n      window.SQE_ANSWERS[";

/// The script that registers the answer: from the key to the key in the
/// notification.
pub const WIRE_NOTIFY: &'static str = "] = val;\n      document.dispatchEvent(new CustomEvent('sqe:answer', { detail: { id: ";

/// The script that registers the answer: its end.
pub const WIRE_TAIL: &'static str = ", value: val } }));\n    });\n  });\n}());";

/// What stands before the script lines that the source attached.
pub const USER_SCRIPT_HEAD: &'static str = "\n// user .script lines for this question\n";

/// The name of the group of question `q` on page `page`, where `q` is the
/// position of the question among all the questions of its page, from zero.
pub open spec fn group_name(page: nat, q: nat) -> Seq<char> {
    seq!['p'] + decimal(page) + seq!['_', 'q'] + decimal(q)
}

/// The identifier of the input of option `i` in the group `name`.
pub open spec fn input_id(name: Seq<char>, i: nat) -> Seq<char> {
    name + seq!['_', 'o', 'p', 't'] + decimal(i)
}

/// The markup of option `i` of the group `name`: one exclusive-choice input
/// that carries the value, and its label.
pub open spec fn option_html(name: Seq<char>, i: nat, label: Seq<char>, value: Seq<char>) -> Seq<
    char,
> {
    INPUT_OPEN@ + html_text(input_id(name, i)) + INPUT_NAME@ + html_text(name) + INPUT_VALUE@
        + html_text(value) + LABEL_FOR@ + html_text(input_id(name, i)) + LABEL_OPEN@ + html_text(
        label,
    ) + LABEL_CLOSE@
}

/// The markup of the options, in order.
pub open spec fn options_html(name: Seq<char>, options: Seq<(Seq<char>, Seq<char>)>) -> Seq<char>
    decreases options.len(),
{
    if options.len() == 0 {
        Seq::empty()
    } else {
        options_html(name, options.drop_last()) + option_html(
            name,
            (options.len() - 1) as nat,
            options.last().0,
            options.last().1,
        )
    }
}

/// The markup of the question as number `q` on page `page`.
pub open spec fn choose_html(c: ChooseView, page: nat, q: nat) -> Seq<char> {
    GROUP_OPEN@ + html_text(group_name(page, q)) + LEGEND_OPEN@ + html_text(c.question)
        + LEGEND_CLOSE@ + options_html(group_name(page, q), c.options) + GROUP_CLOSE@
}

/// The key under which the answer is stored: the identifier of the question
/// where it has a non-empty one, else the index of the page and the position
/// of the question in the page, joined by `_`.
pub open spec fn store_key(c: ChooseView, page: nat, q: nat) -> Seq<char> {
    match c.id {
        Some(s) => if s.len() > 0 {
            s
        } else {
            decimal(page) + seq!['_'] + decimal(q)
        },
        None => decimal(page) + seq!['_'] + decimal(q),
    }
}

/// The lines of `ls`, each followed by a line feed.
pub open spec fn script_text(ls: Seq<Seq<char>>) -> Seq<char>
    decreases ls.len(),
{
    if ls.len() == 0 {
        Seq::empty()
    } else {
        script_text(ls.drop_last()) + ls.last().push('\n')
    }
}

/// The script lines of the source as they follow the registering script.
pub open spec fn user_script(ls: Seq<Seq<char>>) -> Seq<char> {
    if ls.len() == 0 {
        Seq::empty()
    } else {
        USER_SCRIPT_HEAD@ + script_text(ls)
    }
}

/// The script of the question as number `q` on page `page`: it registers the
/// answer under the key, then the script lines of the source follow.
pub open spec fn choose_script(c: ChooseView, page: nat, q: nat) -> Seq<char> {
    WIRE_HEAD@ + group_name(page, q) + WIRE_STORE@ + js_literal(store_key(c, page, q))
        + WIRE_NOTIFY@ + js_literal(store_key(c, page, q)) + WIRE_TAIL@ + user_script(
        c.script_lines,
    )
}

/// The content lines of `ls`.
pub fn content_of(ls: &Vec<Vec<char>>) -> (out: Vec<Vec<char>>)
    ensures
        texts(out@) == content_lines(texts(ls@)),
{
    let mut out: Vec<Vec<char>> = Vec::new();
    let mut i: usize = 0;
    proof {
        reveal(Seq::filter);
        assert(texts(ls@).take(0) =~= Seq::<Seq<char>>::empty());
        assert(texts(ls@).take(0).map_values(|l: Seq<char>| trim(l)) =~= Seq::<Seq<char>>::empty());
        assert(texts(out@) =~= Seq::<Seq<char>>::empty());
    }
    while i < ls.len()
        invariant
            i <= ls.len(),
            texts(out@) == content_lines(texts(ls@).take(i as int)),
        decreases ls.len() - i,
    {
        let t = trim_chars(&ls[i]);
        proof {
            assert(texts(ls@).take(i + 1) =~= texts(ls@).take(i as int).push(ls@[i as int]@));
            lemma_content_lines_push(texts(ls@).take(i as int), ls@[i as int]@);
            lemma_texts_push(out@, t);
        }
        if t.len() > 0 {
            out.push(t);
        }
        i += 1;
    }
    assert(texts(ls@).take(ls.len() as int) =~= texts(ls@));
    out
}

/// The lines after the prompt while they are read.
struct Reader {
    mode: Mode,
    options: Vec<(String, String)>,
    addons: Vec<String>,
    script_lines: Vec<String>,
    auto: usize,
}

impl View for Reader {
    type V = Reading;

    closed spec fn view(&self) -> Reading {
        Reading {
            mode: self.mode,
            options: pairs(self.options@),
            addons: strings(self.addons@),
            script_lines: strings(self.script_lines@),
            auto: self.auto as nat,
        }
    }
}

/// The texts of one more pair of strings.
proof fn lemma_pairs_push(v: Seq<(String, String)>, a: String, b: String)
    ensures
        pairs(v.push((a, b))) == pairs(v).push((a@, b@)),
{
    assert(pairs(v.push((a, b))) =~= pairs(v).push((a@, b@)));
}

impl Reader {
    fn new() -> (r: Self)
        ensures
            r@ == reading_start(),
    {
        let r = Reader {
            mode: Mode::Options,
            options: Vec::new(),
            addons: Vec::new(),
            script_lines: Vec::new(),
            auto: 0,
        };
        assert(pairs(r.options@) =~= Seq::empty());
        assert(strings(r.addons@) =~= Seq::empty());
        assert(strings(r.script_lines@) =~= Seq::empty());
        r
    }

    fn add_script(&mut self, s: &Vec<char>)
        ensures
            final(self)@ == with_script(old(self)@, s@),
    {
        if s.len() > 0 {
            let t = text_of(s);
            proof {
                lemma_strings_push(self.script_lines@, t);
            }
            self.script_lines.push(t);
        }
    }

    fn add_option(&mut self, line: &Vec<char>)
        requires
            old(self).auto < usize::MAX,
        ensures
            final(self)@ == read_option(old(self)@, line@),
            final(self).auto <= old(self).auto + 1,
    {
        let arrow = chars_of(ARROW);
        match find_in(line, &arrow) {
            Some(k) => {
                let label = trim_chars(&slice_of(line, 0, k));
                let value = trim_chars(&slice_of(line, k + arrow.len(), line.len()));
                let a = text_of(&label);
                let b = text_of(&value);
                proof {
                    lemma_pairs_push(self.options@, a, b);
                    assert(line@.subrange(0, k as int) =~= line@.take(k as int));
                    assert(line@.subrange(k + arrow.len(), line.len() as int) =~= line@.skip(
                        k + ARROW@.len(),
                    ));
                }
                self.options.push((a, b));
            },
            None => {
                let a = text_of(line);
                let b = text_of(&decimal_chars(self.auto));
                proof {
                    lemma_pairs_push(self.options@, a, b);
                }
                self.options.push((a, b));
                self.auto = self.auto + 1;
            },
        }
    }

    fn start_script(&mut self, line: &Vec<char>)
        ensures
            final(self)@ == read_script_start(old(self)@, line@),
            final(self).auto == old(self).auto,
    {
        let open = position_of(line, '[');
        if open < line.len() {
            match last_position_of(line, ']') {
                Some(close) => {
                    if close > open {
                        let s = trim_chars(&slice_of(line, open + 1, close));
                        self.add_script(&s);
                        return ;
                    }
                },
                None => {},
            }
            let s = trim_chars(&slice_of(line, open + 1, line.len()));
            assert(line@.subrange(open + 1, line.len() as int) =~= line@.skip(open + 1));
            self.add_script(&s);
            self.mode = Mode::Script;
        }
    }

    fn feed_line(&mut self, line: &Vec<char>)
        requires
            old(self).auto < usize::MAX,
        ensures
            final(self)@ == feed(old(self)@, line@),
            final(self).auto <= old(self).auto + 1,
    {
        match self.mode {
            Mode::Options => {
                if has_prefix_str(line, ADDONS_MARK) {
                    self.mode = Mode::Addons;
                } else {
                    self.add_option(line);
                }
            },
            Mode::Addons => {
                let end = chars_of(ADDONS_END);
                if same_chars(line, &end) {
                    self.mode = Mode::Options;
                } else if has_prefix_str(line, SCRIPT_MARK) {
                    self.start_script(line);
                } else {
                    let t = text_of(line);
                    proof {
                        lemma_strings_push(self.addons@, t);
                    }
                    self.addons.push(t);
                }
            },
            Mode::Script => {
                let close = position_of(line, ']');
                if close < line.len() {
                    let s = trim_chars(&slice_of(line, 0, close));
                    assert(line@.subrange(0, close as int) =~= line@.take(close as int));
                    self.add_script(&s);
                    self.mode = Mode::Addons;
                } else {
                    let t = text_of(line);
                    proof {
                        lemma_strings_push(self.script_lines@, t);
                    }
                    self.script_lines.push(t);
                }
            },
        }
    }
}

impl Choose {
    /// Reads the question that `block` describes, under the key `id`.
    pub fn parse(block: &str, id: Option<String>) -> (r: Self)
        ensures
            r@ == choose_of(block@, optional(id)),
    {
        let v = chars_of(block);
        Choose::from_chars(&v, id)
    }

    /// Reads the question that `block`, given as characters, describes.
    pub fn from_chars(block: &Vec<char>, id: Option<String>) -> (r: Self)
        ensures
            r@ == choose_of(block@, optional(id)),
    {
        let ls = split_lines(block);
        let content = content_of(&ls);
        let ghost all = texts(content@);
        let question = if content.len() == 0 {
            String::from_str(NO_QUESTION)
        } else {
            text_of(&content[0])
        };
        let mut reader = Reader::new();
        if content.len() > 0 {
            let ghost rest = all.drop_first();
            let mut i: usize = 1;
            assert(rest.take(0) =~= Seq::<Seq<char>>::empty());
            while i < content.len()
                invariant
                    1 <= i <= content.len(),
                    all == texts(content@),
                    rest == all.drop_first(),
                    reader.auto < i,
                    reader@ == feed_all(reading_start(), rest.take(i - 1)),
                decreases content.len() - i,
            {
                proof {
                    let next = rest.take(i as int);
                    assert(next.drop_last() =~= rest.take(i - 1));
                    assert(next.last() == content@[i as int]@);
                }
                reader.feed_line(&content[i]);
                i += 1;
            }
            assert(rest.take(content.len() - 1) =~= rest);
        }
        Choose {
            id,
            question,
            options: reader.options,
            addons: reader.addons,
            script_lines: reader.script_lines,
        }
    }
}

/// The name of the group of question `q` on page `page`.
fn group_name_chars(page: usize, q: usize) -> (name: Vec<char>)
    ensures
        name@ == group_name(page as nat, q as nat),
{
    let mut name: Vec<char> = Vec::new();
    name.push('p');
    push_all(&mut name, &decimal_chars(page));
    name.push('_');
    name.push('q');
    push_all(&mut name, &decimal_chars(q));
    assert(name@ =~= group_name(page as nat, q as nat));
    name
}

/// The markup of option `i` of the group `name`.
fn option_html_chars(name: &Vec<char>, i: usize, label: &str, value: &str) -> (out: Vec<char>)
    ensures
        out@ == option_html(name@, i as nat, label@, value@),
{
    let mut id: Vec<char> = Vec::new();
    push_all(&mut id, name);
    id.push('_');
    id.push('o');
    id.push('p');
    id.push('t');
    push_all(&mut id, &decimal_chars(i));
    assert(id@ =~= input_id(name@, i as nat));
    let id_esc = escape_html_chars(&id);
    let mut out: Vec<char> = Vec::new();
    push_str(&mut out, INPUT_OPEN);
    push_all(&mut out, &id_esc);
    push_str(&mut out, INPUT_NAME);
    push_all(&mut out, &escape_html_chars(name));
    push_str(&mut out, INPUT_VALUE);
    push_all(&mut out, &escape_html_chars(&chars_of(value)));
    push_str(&mut out, LABEL_FOR);
    push_all(&mut out, &id_esc);
    push_str(&mut out, LABEL_OPEN);
    push_all(&mut out, &escape_html_chars(&chars_of(label)));
    push_str(&mut out, LABEL_CLOSE);
    assert(out@ =~= option_html(name@, i as nat, label@, value@));
    out
}

impl Choose {
    /// The key under which the answer is stored.
    pub fn key(&self, page_idx: usize, q_idx: usize) -> (k: String)
        ensures
            k@ == store_key(self@, page_idx as nat, q_idx as nat),
    {
        match &self.id {
            Some(s) => {
                if !s.as_str().is_empty() {
                    return s.clone();
                }
            },
            None => {},
        }
        let mut k: Vec<char> = Vec::new();
        push_all(&mut k, &decimal_chars(page_idx));
        k.push('_');
        push_all(&mut k, &decimal_chars(q_idx));
        assert(k@ =~= decimal(page_idx as nat) + seq!['_'] + decimal(q_idx as nat));
        text_of(&k)
    }

    /// The markup of the question.
    fn markup(&self, page_idx: usize, q_idx: usize) -> (out: Vec<char>)
        ensures
            out@ == choose_html(self@, page_idx as nat, q_idx as nat),
    {
        let name = group_name_chars(page_idx, q_idx);
        let mut out: Vec<char> = Vec::new();
        push_str(&mut out, GROUP_OPEN);
        push_all(&mut out, &escape_html_chars(&name));
        push_str(&mut out, LEGEND_OPEN);
        push_all(&mut out, &escape_html_chars(&chars_of(self.question.as_str())));
        push_str(&mut out, LEGEND_CLOSE);
        let ghost base = out@;
        let ghost all = pairs(self.options@);
        let mut i: usize = 0;
        assert(all.take(0) =~= Seq::<(Seq<char>, Seq<char>)>::empty());
        assert(base + Seq::<char>::empty() =~= base);
        while i < self.options.len()
            invariant
                i <= self.options.len(),
                all == pairs(self.options@),
                out@ == base + options_html(name@, all.take(i as int)),
            decreases self.options.len() - i,
        {
            let one = option_html_chars(
                &name,
                i,
                self.options[i].0.as_str(),
                self.options[i].1.as_str(),
            );
            proof {
                let next = all.take(i + 1);
                assert(next.drop_last() =~= all.take(i as int));
                assert(next.last() == all[i as int]);
                assert(base + options_html(name@, next) =~= base + options_html(
                    name@,
                    all.take(i as int),
                ) + one@);
            }
            push_all(&mut out, &one);
            i += 1;
        }
        assert(all.take(self.options.len() as int) =~= all);
        push_str(&mut out, GROUP_CLOSE);
        assert(out@ =~= choose_html(self@, page_idx as nat, q_idx as nat));
        out
    }

    /// The script lines of the source as they follow the registering script.
    fn attached_script(&self) -> (out: Vec<char>)
        ensures
            out@ == user_script(self@.script_lines),
    {
        let mut out: Vec<char> = Vec::new();
        if self.script_lines.len() == 0 {
            return out;
        }
        push_str(&mut out, USER_SCRIPT_HEAD);
        let ghost all = strings(self.script_lines@);
        let mut i: usize = 0;
        assert(all.take(0) =~= Seq::<Seq<char>>::empty());
        assert(USER_SCRIPT_HEAD@ + Seq::<char>::empty() =~= USER_SCRIPT_HEAD@);
        while i < self.script_lines.len()
            invariant
                i <= self.script_lines.len(),
                all == strings(self.script_lines@),
                out@ == USER_SCRIPT_HEAD@ + script_text(all.take(i as int)),
            decreases self.script_lines.len() - i,
        {
            let ghost before = out@;
            push_str(&mut out, self.script_lines[i].as_str());
            out.push('\n');
            proof {
                let next = all.take(i + 1);
                assert(next.drop_last() =~= all.take(i as int));
                assert(next.last() == all[i as int]);
                assert(out@ =~= before + all[i as int].push('\n'));
                assert(USER_SCRIPT_HEAD@ + script_text(next) =~= before + all[i as int].push(
                    '\n',
                ));
            }
            i += 1;
        }
        assert(all.take(self.script_lines.len() as int) =~= all);
        out
    }

    /// The markup of the question as number `q_idx` on page `page_idx`, and
    /// the script that registers its answer, followed by the script lines of
    /// the source.
    pub fn render_html(&self, page_idx: usize, q_idx: usize) -> (r: (String, Option<String>))
        ensures
            r.0@ == choose_html(self@, page_idx as nat, q_idx as nat),
            r.1 matches Some(js) && js@ == choose_script(self@, page_idx as nat, q_idx as nat),
    {
        let html = self.markup(page_idx, q_idx);
        let name = group_name_chars(page_idx, q_idx);
        let key = self.key(page_idx, q_idx);
        let literal = js_literal_for_key(key.as_str());
        let mut js: Vec<char> = Vec::new();
        push_str(&mut js, WIRE_HEAD);
        push_all(&mut js, &name);
        push_str(&mut js, WIRE_STORE);
        push_str(&mut js, literal.as_str());
        push_str(&mut js, WIRE_NOTIFY);
        push_str(&mut js, literal.as_str());
        push_str(&mut js, WIRE_TAIL);
        push_all(&mut js, &self.attached_script());
        assert(js@ =~= choose_script(self@, page_idx as nat, q_idx as nat));
        (text_of(&html), Some(text_of(&js)))
    }
}

} // verus!
