//! The directive parser: from source lines to the document model.
//!
//! Each line is judged by the first token of its trimmed text. Blank lines,
//! comments and lines whose first token is no keyword are skipped. `title` sets the title of the document,
//! `@p` opens or names a page, `import` records a path, and `insert`,
//! `choice`, `html`, `js` and `css` add a question to the page that is open,
//! opening an untitled one where none is. A block that is not closed when the
//! lines end fails the whole parse.

use vstd::prelude::*;
use crate::items::choose_item::{choose_of, optional, Choose, ChooseView};
use crate::items::css::Css;
use crate::items::html::Html;
use crate::items::insert::Insert;
use crate::items::js::Js;
use crate::scan::{after_open, lemma_read_block_used, read_block, read_block_chars, Block};
use crate::text::convert::{chars_of, push_all, push_str, same_chars, slice_of, text_of};
use crate::text::lines::{
    join, join_from, lines, lines_of, split_lines, split_words, strings, texts, words,
};
use crate::text::number::{decimal, decimal_chars};
use crate::text::search::{
    find, find_in, has_char, has_prefix_str, index_of, position_of, starts_with,
};
use crate::text::space::{is_space, is_space_char, trim, trim_chars};

verus! {

/// The title of a page that has not been given one.
pub const UNTITLED: &'static str = "untitled";

/// What a comment line starts with.
pub const COMMENT_MARK: &'static str = "//";

/// The keyword that sets the title of the document.
pub const TITLE_WORD: &'static str = "title";

/// The keyword that opens or names a page.
pub const PAGE_WORD: &'static str = "@p";

/// The keyword that records a path.
pub const IMPORT_WORD: &'static str = "import";

/// The keyword of inserted text.
pub const INSERT_WORD: &'static str = "insert";

/// The keyword of a single-answer question.
pub const CHOICE_WORD: &'static str = "choice";

/// The keyword of raw markup.
pub const HTML_WORD: &'static str = "html";

/// The keyword of raw script.
pub const JS_WORD: &'static str = "js";

/// The keyword of raw style rules.
pub const CSS_WORD: &'static str = "css";

/// What the words of a one-line `insert` are joined with.
pub const WORD_GAP: &'static str = " ";

/// What an error about a block that was not closed says before the line
/// number.
pub const UNTERMINATED_TEXT: &'static str = "unterminated brace block opened on line ";

/// One renderable unit of a page.
#[derive(Debug, Clone, PartialEq, Eq)]
pub enum Question {
    Choose(Choose),
    Insert(Insert),
    Html(Html),
    Js(Js),
    Css(Css),
}

/// One top-level unit of a document, in source order.
#[derive(Debug, Clone, PartialEq, Eq)]
pub enum Entry {
    /// A path named by an `import` line; the parser does not follow it.
    Import { path: String },
    /// The title of the whole document.
    DocTitle(String),
    /// A page with its questions in source order.
    Page { title: String, content: Vec<Question> },
}

/// What a `Question` holds, as plain texts.
pub enum QuestionView {
    Choose(ChooseView),
    Insert(Seq<char>),
    Html(Seq<char>),
    Js(Seq<char>),
    Css(Seq<char>),
}

/// What an `Entry` holds, as plain texts.
pub enum EntryView {
    Import { path: Seq<char> },
    DocTitle(Seq<char>),
    Page { title: Seq<char>, content: Seq<QuestionView> },
}

impl View for Question {
    type V = QuestionView;

    open spec fn view(&self) -> QuestionView {
        match self {
            Question::Choose(c) => QuestionView::Choose(c@),
            Question::Insert(i) => QuestionView::Insert(i@),
            Question::Html(h) => QuestionView::Html(h@),
            Question::Js(j) => QuestionView::Js(j@),
            Question::Css(c) => QuestionView::Css(c@),
        }
    }
}

/// The views of a sequence of questions.
pub open spec fn questions(v: Seq<Question>) -> Seq<QuestionView> {
    v.map_values(|q: Question| q@)
}

impl View for Entry {
    type V = EntryView;

    open spec fn view(&self) -> EntryView {
        match self {
            Entry::Import { path } => EntryView::Import { path: path@ },
            Entry::DocTitle(t) => EntryView::DocTitle(t@),
            Entry::Page { title, content } => EntryView::Page {
                title: title@,
                content: questions(content@),
            },
        }
    }
}

/// The views of a sequence of entries.
pub open spec fn entries(v: Seq<Entry>) -> Seq<EntryView> {
    v.map_values(|e: Entry| e@)
}

/// The kinds of failure of a parse.
#[derive(Debug, Clone, Copy, PartialEq, Eq, Structural)]
pub enum ErrorKind {
    /// The lines ended inside a block.
    UnterminatedBlock,
}

/// A failed parse: what went wrong, and where.
#[derive(Debug, Clone, Copy, PartialEq, Eq, Structural)]
pub struct CompileError {
    pub kind: ErrorKind,
    /// The number of the line that opened the block, counted from one.
    pub line: usize,
}

/// What a line asks for, judged by the first token of its trimmed text.
#[derive(Debug, Clone, Copy, PartialEq, Eq, Structural)]
pub enum Directive {
    /// Nothing: a blank line, a comment, or a line whose first token is no
    /// keyword.
    Skip,
    Title,
    Page,
    Import,
    Insert,
    Choice,
    Html,
    Js,
    Css,
}

/// Whether `c` ends a token: whitespace does, and so do the brace that opens
/// a block and the double quote that opens a quoted text.
pub open spec fn ends_token(c: char) -> bool {
    is_space(c) || c == '{' || c == '"'
}

/// The length of the first token of `s`: of its longest prefix that holds no
/// character that ends a token.
pub open spec fn token_len(s: Seq<char>) -> nat
    decreases s.len(),
{
    if s.len() > 0 && !ends_token(s[0]) {
        1 + token_len(s.drop_first())
    } else {
        0
    }
}

/// The first token of `s`.
pub open spec fn first_token(s: Seq<char>) -> Seq<char> {
    s.take(token_len(s) as int)
}

/// The directive of a trimmed line: that of the keyword which its first token
/// is. A line that starts a comment, and a line whose first token is no
/// keyword, asks for nothing.
pub open spec fn directive_of(line: Seq<char>) -> Directive {
    if line.len() == 0 || starts_with(line, COMMENT_MARK@) {
        Directive::Skip
    } else if first_token(line) == TITLE_WORD@ {
        Directive::Title
    } else if first_token(line) == PAGE_WORD@ {
        Directive::Page
    } else if first_token(line) == IMPORT_WORD@ {
        Directive::Import
    } else if first_token(line) == INSERT_WORD@ {
        Directive::Insert
    } else if first_token(line) == CHOICE_WORD@ {
        Directive::Choice
    } else if first_token(line) == HTML_WORD@ {
        Directive::Html
    } else if first_token(line) == JS_WORD@ {
        Directive::Js
    } else if first_token(line) == CSS_WORD@ {
        Directive::Css
    } else {
        Directive::Skip
    }
}

/// The first token is a prefix of the line, and the line goes on, if at all,
/// with a character that ends a token.
pub proof fn lemma_token_len(s: Seq<char>)
    ensures
        token_len(s) <= s.len(),
        forall|i: int| 0 <= i < token_len(s) ==> !ends_token(#[trigger] s[i]),
        token_len(s) < s.len() ==> ends_token(s[token_len(s) as int]),
    decreases s.len(),
{
    if s.len() > 0 && !ends_token(s[0]) {
        let t = s.drop_first();
        lemma_token_len(t);
        assert forall|i: int| 0 <= i < token_len(s) implies !ends_token(#[trigger] s[i]) by {
            if i > 0 {
                assert(s[i] == t[i - 1]);
            }
        }
        if token_len(s) < s.len() {
            assert(s[token_len(s) as int] == t[token_len(t) as int]);
        }
    }
}

/// A prefix length with the defining property is `token_len(s)`.
pub proof fn lemma_token_len_is(s: Seq<char>, k: int)
    requires
        0 <= k <= s.len(),
        forall|i: int| 0 <= i < k ==> !ends_token(#[trigger] s[i]),
        k < s.len() ==> ends_token(s[k]),
    ensures
        token_len(s) == k,
    decreases s.len(),
{
    if k > 0 {
        let t = s.drop_first();
        assert(!ends_token(s[0]));
        assert forall|i: int| 0 <= i < k - 1 implies !ends_token(#[trigger] t[i]) by {
            assert(t[i] == s[i + 1]);
        }
        lemma_token_len_is(t, k - 1);
    }
}

/// A line whose first token is `word` starts with `word`.
pub proof fn lemma_token_starts_line(line: Seq<char>, word: Seq<char>)
    requires
        first_token(line) == word,
    ensures
        starts_with(line, word),
{
    lemma_token_len(line);
}

/// A line whose first token is no keyword asks for nothing, whatever the
/// line starts with: `titles` is not `title`.
pub proof fn lemma_unknown_token_is_skipped(line: Seq<char>)
    requires
        first_token(line) != TITLE_WORD@,
        first_token(line) != PAGE_WORD@,
        first_token(line) != IMPORT_WORD@,
        first_token(line) != INSERT_WORD@,
        first_token(line) != CHOICE_WORD@,
        first_token(line) != HTML_WORD@,
        first_token(line) != JS_WORD@,
        first_token(line) != CSS_WORD@,
    ensures
        directive_of(line) == Directive::Skip,
{
}

/// The text between the first double quote of `s` and the next one, or the
/// end of `s` where no second one follows; nothing where `s` has no double
/// quote.
pub open spec fn between_quotes(s: Seq<char>) -> Seq<char> {
    let a = index_of(s, '"');
    if a >= s.len() {
        Seq::empty()
    } else {
        s.skip(a + 1).take(index_of(s.skip(a + 1), '"'))
    }
}

/// The title that the trimmed rest of a `title` or `@p` line gives: the
/// quoted text where the rest starts with a double quote, the rest itself
/// where it is not empty, and `untitled` otherwise.
pub open spec fn title_text(rest: Seq<char>) -> Seq<char> {
    if rest.len() > 0 && rest[0] == '"' {
        between_quotes(rest)
    } else if rest.len() > 0 {
        rest
    } else {
        UNTITLED@
    }
}

/// The identifier on a trimmed `choice` line: the second word before the
/// opening brace, if there is one.
pub open spec fn choice_id(line: Seq<char>) -> Option<Seq<char>> {
    let head = line.take(index_of(line, '{'));
    if words(head).len() >= 2 {
        Some(words(head)[1])
    } else {
        None
    }
}

/// The parser between two lines: the entries that are complete, and the page
/// that is open, with its title and its questions so far.
pub struct ParseState {
    pub entries: Seq<EntryView>,
    pub page: Option<(Seq<char>, Seq<QuestionView>)>,
}

/// The parser before the first line.
pub open spec fn parse_start() -> ParseState {
    ParseState { entries: Seq::empty(), page: None }
}

/// `st` with `q` added to the open page. Where no page is open, an untitled
/// one is opened for it.
pub open spec fn add_question(st: ParseState, q: QuestionView) -> ParseState {
    match st.page {
        Some((title, content)) => ParseState { page: Some((title, content.push(q))), ..st },
        None => ParseState { page: Some((UNTITLED@, seq![q])), ..st },
    }
}

/// `st` after a page directive with the title `title`. An open page that is
/// still untitled takes the title and keeps its questions. Any other open
/// page is complete, and a new empty page is opened.
pub open spec fn open_page(st: ParseState, title: Seq<char>) -> ParseState {
    match st.page {
        Some((current, content)) => if current == UNTITLED@ {
            ParseState { page: Some((title, content)), ..st }
        } else {
            ParseState {
                entries: st.entries.push(EntryView::Page { title: current, content }),
                page: Some((title, Seq::empty())),
            }
        },
        None => ParseState { page: Some((title, Seq::empty())), ..st },
    }
}

/// The entries at the end of the lines: the open page is complete.
pub open spec fn finish(st: ParseState) -> Seq<EntryView> {
    match st.page {
        Some((title, content)) => st.entries.push(EntryView::Page { title, content }),
        None => st.entries,
    }
}

/// `st` with the questions `qs` added in order.
pub open spec fn add_questions(st: ParseState, qs: Seq<QuestionView>) -> ParseState
    decreases qs.len(),
{
    if qs.len() == 0 {
        st
    } else {
        add_question(add_questions(st, qs.drop_last()), qs.last())
    }
}

/// Questions that come before any page directive open an untitled page, and
/// all of them stand on it.
pub proof fn lemma_questions_open_untitled(st: ParseState, qs: Seq<QuestionView>)
    requires
        st.page is None,
        qs.len() > 0,
    ensures
        add_questions(st, qs) == (ParseState { page: Some((UNTITLED@, qs)), ..st }),
    decreases qs.len(),
{
    if qs.len() == 1 {
        assert(qs.drop_last() =~= Seq::<QuestionView>::empty());
        assert(add_questions(st, qs.drop_last()) == st);
        assert(seq![qs.last()] =~= qs);
    } else {
        lemma_questions_open_untitled(st, qs.drop_last());
        assert(qs.drop_last().push(qs.last()) =~= qs);
    }
}

/// Questions that come before the first page directive end up on the page
/// that the directive names: there is one page with that title and all the
/// questions, and no untitled page beside it.
pub proof fn lemma_late_title_names_the_page(
    st: ParseState,
    qs: Seq<QuestionView>,
    title: Seq<char>,
)
    requires
        st.page is None,
        qs.len() > 0,
    ensures
        open_page(add_questions(st, qs), title) == (ParseState { page: Some((title, qs)), ..st }),
        finish(open_page(add_questions(st, qs), title)) == st.entries.push(
            EntryView::Page { title, content: qs },
        ),
{
    lemma_questions_open_untitled(st, qs);
}

/// The question that a block directive makes of the text of its block.
pub open spec fn block_question(d: Directive, line: Seq<char>, text: Seq<char>) -> QuestionView {
    match d {
        Directive::Choice => QuestionView::Choose(choose_of(text, choice_id(line))),
        Directive::Html => QuestionView::Html(trim(text)),
        Directive::Js => QuestionView::Js(trim(text)),
        Directive::Css => QuestionView::Css(trim(text)),
        _ => QuestionView::Insert(trim(text)),
    }
}

/// Whether the directive `d` on the line `raw` reads a block. `choice`,
/// `html`, `js` and `css` always do; `insert` does where the line holds an
/// opening brace.
pub open spec fn reads_block(d: Directive, raw: Seq<char>) -> bool {
    d == Directive::Choice || d == Directive::Html || d == Directive::Js || d == Directive::Css
        || (d == Directive::Insert && has_char(raw, '{'))
}

/// What one directive does.
pub struct Applied {
    /// The state after the directive.
    pub state: ParseState,
    /// How many lines after its own the directive read.
    pub used: nat,
}

/// What the directive on `lines[pos]` does in the state `st`; `None` where
/// its block is not closed.
pub open spec fn apply(lines: Seq<Seq<char>>, pos: int, st: ParseState) -> Option<Applied> {
    let raw = lines[pos];
    let line = trim(raw);
    let d = directive_of(line);
    if reads_block(d, raw) {
        match read_block(after_open(raw), lines, pos + 1) {
            None => None,
            Some(b) => Some(
                Applied { state: add_question(st, block_question(d, line, b.text)), used: b.used },
            ),
        }
    } else {
        Some(
            Applied {
                state: match d {
                    Directive::Title => ParseState {
                        entries: st.entries.push(
                            EntryView::DocTitle(title_text(trim(line.skip(TITLE_WORD@.len() as int)))),
                        ),
                        ..st
                    },
                    Directive::Page => open_page(
                        st,
                        title_text(trim(line.skip(PAGE_WORD@.len() as int))),
                    ),
                    Directive::Import => ParseState {
                        entries: st.entries.push(EntryView::Import { path: between_quotes(line) }),
                        ..st
                    },
                    Directive::Insert => if words(line).len() > 1 {
                        add_question(
                            st,
                            QuestionView::Insert(trim(join(words(line).skip(1), WORD_GAP@))),
                        )
                    } else {
                        st
                    },
                    _ => st,
                },
                used: 0,
            },
        )
    }
}

/// The error for a block that the line `pos` opened and nothing closed.
pub open spec fn unterminated_at(pos: int) -> CompileError {
    CompileError { kind: ErrorKind::UnterminatedBlock, line: (pos + 1) as usize }
}

/// The document that `lines[pos..]` give when read from the state `st`.
pub open spec fn parse_from(lines: Seq<Seq<char>>, pos: int, st: ParseState) -> Result<
    Seq<EntryView>,
    CompileError,
>
    decreases lines.len() - pos,
{
    if pos < 0 || pos >= lines.len() {
        Ok(finish(st))
    } else {
        match apply(lines, pos, st) {
            None => Err(unterminated_at(pos)),
            Some(a) => {
                proof {
                    if reads_block(directive_of(trim(lines[pos])), lines[pos]) {
                        lemma_read_block_used(after_open(lines[pos]), lines, pos + 1);
                    }
                }
                parse_from(lines, pos + 1 + a.used, a.state)
            },
        }
    }
}

/// The document that the source lines `lines` describe.
pub open spec fn parse(lines: Seq<Seq<char>>) -> Result<Seq<EntryView>, CompileError> {
    parse_from(lines, 0, parse_start())
}

/// Entries keep the order of the source: what is complete before a line stays
/// at the front of the document, unchanged, and later lines only add behind
/// it.
pub proof fn lemma_entries_keep_source_order(lines: Seq<Seq<char>>, pos: int, st: ParseState)
    requires
        0 <= pos,
        parse_from(lines, pos, st) is Ok,
    ensures
        parse_from(lines, pos, st) matches Ok(es) && st.entries.is_prefix_of(es),
    decreases lines.len() - pos,
{
    if pos < lines.len() {
        match apply(lines, pos, st) {
            None => {},
            Some(a) => {
                if reads_block(directive_of(trim(lines[pos])), lines[pos]) {
                    lemma_read_block_used(after_open(lines[pos]), lines, pos + 1);
                }
                lemma_entries_keep_source_order(lines, pos + 1 + a.used, a.state);
                assert(st.entries.is_prefix_of(a.state.entries));
            },
        }
    }
}

/// A parse fails only for a block that nothing closes. The error names a line
/// of the source; the directive on that line reads a block, and the lines end
/// before the block closes.
pub proof fn lemma_failure_is_an_open_block(lines: Seq<Seq<char>>, pos: int, st: ParseState)
    requires
        0 <= pos,
        lines.len() <= usize::MAX,
        parse_from(lines, pos, st) is Err,
    ensures
        parse_from(lines, pos, st) matches Err(e) && {
            &&& e.kind == ErrorKind::UnterminatedBlock
            &&& pos < e.line <= lines.len()
            &&& reads_block(directive_of(trim(lines[e.line - 1])), lines[e.line - 1])
            &&& read_block(after_open(lines[e.line - 1]), lines, e.line as int) is None
        },
    decreases lines.len() - pos,
{
    if pos < lines.len() {
        match apply(lines, pos, st) {
            None => {},
            Some(a) => {
                if reads_block(directive_of(trim(lines[pos])), lines[pos]) {
                    lemma_read_block_used(after_open(lines[pos]), lines, pos + 1);
                }
                lemma_failure_is_an_open_block(lines, pos + 1 + a.used, a.state);
            },
        }
    }
}

/// What an error says: its kind and the line it points at.
pub open spec fn error_text(e: CompileError) -> Seq<char> {
    UNTERMINATED_TEXT@ + decimal(e.line as nat)
}

impl CompileError {
    /// The error in words.
    pub fn message(&self) -> (r: String)
        ensures
            r@ == error_text(*self),
    {
        let mut out: Vec<char> = Vec::new();
        push_str(&mut out, UNTERMINATED_TEXT);
        push_all(&mut out, &decimal_chars(self.line));
        assert(out@ =~= error_text(*self));
        text_of(&out)
    }
}

/// The first token of `line`.
pub fn first_token_of(line: &Vec<char>) -> (token: Vec<char>)
    ensures
        token@ == first_token(line@),
{
    let mut n: usize = 0;
    while n < line.len() && !(is_space_char(line[n]) || line[n] == '{' || line[n] == '"')
        invariant
            n <= line.len(),
            forall|i: int| 0 <= i < n ==> !ends_token(#[trigger] line@[i]),
        decreases line.len() - n,
    {
        n += 1;
    }
    proof {
        lemma_token_len_is(line@, n as int);
    }
    let token = slice_of(line, 0, n);
    assert(token@ =~= line@.take(n as int));
    token
}

/// Whether `token` is the keyword `word`.
fn is_word(token: &Vec<char>, word: &str) -> (r: bool)
    ensures
        r == (token@ == word@),
{
    same_chars(token, &chars_of(word))
}

/// The directive of a trimmed line.
pub fn classify(line: &Vec<char>) -> (d: Directive)
    ensures
        d == directive_of(line@),
{
    if line.len() == 0 || has_prefix_str(line, COMMENT_MARK) {
        return Directive::Skip;
    }
    let token = first_token_of(line);
    if is_word(&token, TITLE_WORD) {
        Directive::Title
    } else if is_word(&token, PAGE_WORD) {
        Directive::Page
    } else if is_word(&token, IMPORT_WORD) {
        Directive::Import
    } else if is_word(&token, INSERT_WORD) {
        Directive::Insert
    } else if is_word(&token, CHOICE_WORD) {
        Directive::Choice
    } else if is_word(&token, HTML_WORD) {
        Directive::Html
    } else if is_word(&token, JS_WORD) {
        Directive::Js
    } else if is_word(&token, CSS_WORD) {
        Directive::Css
    } else {
        Directive::Skip
    }
}

/// The text between the first double quote of `s` and the next one.
fn quoted_part(s: &Vec<char>) -> (r: Vec<char>)
    ensures
        r@ == between_quotes(s@),
{
    let a = position_of(s, '"');
    if a >= s.len() {
        Vec::new()
    } else {
        let rest = slice_of(s, a + 1, s.len());
        assert(rest@ =~= s@.skip(a + 1));
        let b = position_of(&rest, '"');
        let r = slice_of(&rest, 0, b);
        assert(r@ =~= rest@.take(b as int));
        r
    }
}

/// The title that the rest of a `title` or `@p` line gives, where `line` is
/// the trimmed line and `word` its keyword.
fn title_after(line: &Vec<char>, word: &str) -> (r: String)
    requires
        first_token(line@) == word@,
    ensures
        r@ == title_text(trim(line@.skip(word@.len() as int))),
{
    proof {
        lemma_token_starts_line(line@, word@);
    }
    let n = chars_of(word).len();
    let tail = slice_of(line, n, line.len());
    assert(tail@ =~= line@.skip(word@.len() as int));
    let rest = trim_chars(&tail);
    if rest.len() > 0 && rest[0] == '"' {
        text_of(&quoted_part(&rest))
    } else if rest.len() > 0 {
        text_of(&rest)
    } else {
        String::from_str(UNTITLED)
    }
}

/// The identifier on a trimmed `choice` line.
fn choice_id_of(line: &Vec<char>) -> (r: Option<String>)
    ensures
        optional(r) == choice_id(line@),
{
    let k = position_of(line, '{');
    let head = slice_of(line, 0, k);
    assert(head@ =~= line@.take(k as int));
    let ws = split_words(&head);
    if ws.len() >= 2 {
        assert(texts(ws@)[1] == ws@[1]@);
        Some(text_of(&ws[1]))
    } else {
        None
    }
}

/// The text of `raw` after its first `{`.
fn after_open_of(raw: &Vec<char>) -> (r: Vec<char>)
    ensures
        r@ == after_open(raw@),
{
    let k = position_of(raw, '{');
    if k < raw.len() {
        let r = slice_of(raw, k + 1, raw.len());
        assert(r@ =~= raw@.skip(k + 1));
        r
    } else {
        Vec::new()
    }
}

/// The question that the block directive `d` makes of the text of its block.
fn question_of(d: Directive, line: &Vec<char>, text: &Vec<char>) -> (q: Question)
    ensures
        q@ == block_question(d, line@, text@),
{
    match d {
        Directive::Choice => Question::Choose(Choose::from_chars(text, choice_id_of(line))),
        Directive::Html => Question::Html(Html::from_chars(text)),
        Directive::Js => Question::Js(Js::from_chars(text)),
        Directive::Css => Question::Css(Css::from_chars(text)),
        _ => Question::Insert(Insert::from_chars(text)),
    }
}

/// The open page of the parser, as plain texts.
pub open spec fn page_view(page: Option<(String, Vec<Question>)>) -> Option<
    (Seq<char>, Seq<QuestionView>),
> {
    match page {
        Some((title, content)) => Some((title@, questions(content@))),
        None => None,
    }
}

/// The views of one more question.
proof fn lemma_questions_push(v: Seq<Question>, q: Question)
    ensures
        questions(v.push(q)) == questions(v).push(q@),
{
    assert(questions(v.push(q)) =~= questions(v).push(q@));
}

/// The views of one more entry.
proof fn lemma_entries_push(v: Seq<Entry>, e: Entry)
    ensures
        entries(v.push(e)) == entries(v).push(e@),
{
    assert(entries(v.push(e)) =~= entries(v).push(e@));
}

/// The parser while it reads.
struct Parser {
    entries: Vec<Entry>,
    page: Option<(String, Vec<Question>)>,
}

impl View for Parser {
    type V = ParseState;

    closed spec fn view(&self) -> ParseState {
        ParseState { entries: entries(self.entries@), page: page_view(self.page) }
    }
}

impl Parser {
    fn new() -> (p: Self)
        ensures
            p@ == parse_start(),
    {
        let p = Parser { entries: Vec::new(), page: None };
        assert(entries(p.entries@) =~= Seq::empty());
        p
    }

    fn add(self, q: Question) -> (p: Self)
        ensures
            p@ == add_question(self@, q@),
    {
        let Parser { entries, page } = self;
        match page {
            Some((title, mut content)) => {
                proof {
                    lemma_questions_push(content@, q);
                }
                content.push(q);
                Parser { entries, page: Some((title, content)) }
            },
            None => {
                let mut content: Vec<Question> = Vec::new();
                content.push(q);
                assert(questions(content@) =~= seq![q@]);
                Parser { entries, page: Some((String::from_str(UNTITLED), content)) }
            },
        }
    }

    fn record(self, e: Entry) -> (p: Self)
        ensures
            p@ == (ParseState { entries: self@.entries.push(e@), ..self@ }),
    {
        let Parser { mut entries, page } = self;
        proof {
            lemma_entries_push(entries@, e);
        }
        entries.push(e);
        Parser { entries, page }
    }

    fn open(self, title: String) -> (p: Self)
        ensures
            p@ == open_page(self@, title@),
    {
        let Parser { mut entries, page } = self;
        match page {
            Some((current, content)) => {
                if same_chars(&chars_of(current.as_str()), &chars_of(UNTITLED)) {
                    Parser { entries, page: Some((title, content)) }
                } else {
                    let done = Entry::Page { title: current, content };
                    proof {
                        lemma_entries_push(entries@, done);
                    }
                    entries.push(done);
                    let fresh: Vec<Question> = Vec::new();
                    assert(questions(fresh@) =~= Seq::empty());
                    Parser { entries, page: Some((title, fresh)) }
                }
            },
            None => {
                let fresh: Vec<Question> = Vec::new();
                assert(questions(fresh@) =~= Seq::empty());
                Parser { entries, page: Some((title, fresh)) }
            },
        }
    }

    fn finish(self) -> (ast: Vec<Entry>)
        ensures
            entries(ast@) == finish(self@),
    {
        let Parser { mut entries, page } = self;
        match page {
            Some((title, content)) => {
                let done = Entry::Page { title, content };
                proof {
                    lemma_entries_push(entries@, done);
                }
                entries.push(done);
            },
            None => {},
        }
        entries
    }
}

/// Reads a document from source lines given as characters.
pub fn compile_chars(lines: &Vec<Vec<char>>) -> (r: Result<Vec<Entry>, CompileError>)
    ensures
        match r {
            Ok(ast) => parse(texts(lines@)) == Ok::<Seq<EntryView>, CompileError>(entries(ast@)),
            Err(e) => parse(texts(lines@)) == Err::<Seq<EntryView>, CompileError>(e),
        },
{
    let ghost ls = texts(lines@);
    let mut parser = Parser::new();
    let mut pos: usize = 0;
    while pos < lines.len()
        invariant
            pos <= lines.len(),
            ls == texts(lines@),
            parse_from(ls, pos as int, parser@) == parse(ls),
        decreases lines.len() - pos,
    {
        let raw = &lines[pos];
        assert(ls[pos as int] == raw@);
        let line = trim_chars(raw);
        let d = classify(&line);
        let first = after_open_of(raw);
        let with_block = match d {
            Directive::Choice | Directive::Html | Directive::Js | Directive::Css => true,
            Directive::Insert => position_of(raw, '{') < raw.len(),
            _ => false,
        };
        assert(with_block == reads_block(d, raw@));
        if with_block {
            match read_block_chars(lines, pos + 1, &first) {
                None => {
                    return Err(CompileError { kind: ErrorKind::UnterminatedBlock, line: pos + 1 });
                },
                Some((text, next)) => {
                    let q = question_of(d, &line, &text);
                    parser = parser.add(q);
                    pos = next;
                },
            }
        } else {
            match d {
                Directive::Title => {
                    let t = title_after(&line, TITLE_WORD);
                    parser = parser.record(Entry::DocTitle(t));
                },
                Directive::Page => {
                    let t = title_after(&line, PAGE_WORD);
                    parser = parser.open(t);
                },
                Directive::Import => {
                    let path = text_of(&quoted_part(&line));
                    parser = parser.record(Entry::Import { path });
                },
                Directive::Insert => {
                    let ws = split_words(&line);
                    if ws.len() > 1 {
                        let gap = chars_of(WORD_GAP);
                        let text = join_from(&ws, 1, &gap);
                        parser = parser.add(Question::Insert(Insert::from_chars(&text)));
                    }
                },
                _ => {},
            }
            pos = pos + 1;
        }
    }
    Ok(parser.finish())
}

/// Reads a document from its source lines.
///
/// The result is the document that `parse` describes. It fails exactly when
/// a block is still open at the end of the lines, and then names the line
/// that opened it.
pub fn compile(lines: &Vec<String>) -> (r: Result<Vec<Entry>, CompileError>)
    ensures
        match r {
            Ok(ast) => parse(strings(lines@)) == Ok::<Seq<EntryView>, CompileError>(entries(ast@)),
            Err(e) => parse(strings(lines@)) == Err::<Seq<EntryView>, CompileError>(e),
        },
{
    let ls = lines_of(lines);
    compile_chars(&ls)
}

/// Reads a document from its source text.
pub fn compile_source(source: &str) -> (r: Result<Vec<Entry>, CompileError>)
    ensures
        match r {
            Ok(ast) => parse(lines(source@)) == Ok::<Seq<EntryView>, CompileError>(entries(ast@)),
            Err(e) => parse(lines(source@)) == Err::<Seq<EntryView>, CompileError>(e),
        },
{
    let v = chars_of(source);
    let ls = split_lines(&v);
    compile_chars(&ls)
}

/// The block that ends at the first line of `lines[pos..]` that holds
/// `marker`, and how many lines were read. Every line before that one is
/// followed by a line feed in the block; of the line with the marker, what
/// stands before the marker belongs to the block unless it is blank. Where no
/// line holds the marker, the block takes all the lines.
pub open spec fn marked_block(lines: Seq<Seq<char>>, pos: int, marker: Seq<char>) -> Block
    decreases lines.len() - pos,
{
    if pos < 0 || pos >= lines.len() {
        Block { text: Seq::empty(), used: 0 }
    } else if find(lines[pos], marker) >= 0 {
        let before = lines[pos].take(find(lines[pos], marker));
        Block {
            text: if trim(before).len() > 0 {
                before.push('\n')
            } else {
                Seq::empty()
            },
            used: 1,
        }
    } else {
        Block {
            text: lines[pos].push('\n') + marked_block(lines, pos + 1, marker).text,
            used: marked_block(lines, pos + 1, marker).used + 1,
        }
    }
}

/// Reads the block in `lines[start..]` that ends at the first line with
/// `closing_marker`. Gives the block and the index of the first line that was
/// not read.
pub fn parse_block(lines: &Vec<String>, start: usize, closing_marker: &str) -> (r: (String, usize))
    ensures
        r.0@ == marked_block(strings(lines@), start as int, closing_marker@).text,
        r.1 == start + marked_block(strings(lines@), start as int, closing_marker@).used,
{
    let ghost ls = strings(lines@);
    let marker = chars_of(closing_marker);
    let mut out: Vec<char> = Vec::new();
    let mut pos: usize = start;
    while pos < lines.len()
        invariant
            start <= pos,
            ls == strings(lines@),
            marker@ == closing_marker@,
            marked_block(ls, start as int, marker@).text == out@ + marked_block(
                ls,
                pos as int,
                marker@,
            ).text,
            marked_block(ls, start as int, marker@).used == (pos - start) + marked_block(
                ls,
                pos as int,
                marker@,
            ).used,
        decreases lines.len() - pos,
    {
        let line = chars_of(lines[pos].as_str());
        assert(ls[pos as int] == line@);
        let ghost before_out = out@;
        match find_in(&line, &marker) {
            Some(k) => {
                let before = slice_of(&line, 0, k);
                assert(before@ =~= line@.take(k as int));
                if trim_chars(&before).len() > 0 {
                    push_all(&mut out, &before);
                    out.push('\n');
                    assert(out@ =~= before_out + before@.push('\n'));
                } else {
                    assert(out@ =~= before_out + Seq::<char>::empty());
                }
                return (text_of(&out), pos + 1);
            },
            None => {
                push_all(&mut out, &line);
                out.push('\n');
                proof {
                    let tail = marked_block(ls, pos + 1, marker@).text;
                    assert(before_out + (line@.push('\n') + tail) =~= out@ + tail);
                }
            },
        }
        pos += 1;
    }
    assert(out@ + Seq::<char>::empty() =~= out@);
    (text_of(&out), pos)
}

/// Reads the block that starts with `first_after_open`, the text after the
/// opening brace on its line, and goes on in `lines[start..]`.
///
/// Gives the enclosed text, cut before the brace that closes the block, and
/// the index of the first line that was not read. Fails exactly when the
/// lines end before the block closes.
pub fn read_brace_block(lines: &Vec<String>, start: usize, first_after_open: &str) -> (r: Result<
    (String, usize),
    ErrorKind,
>)
    ensures
        match r {
            Ok((text, next)) => start <= next && read_block(
                first_after_open@,
                strings(lines@),
                start as int,
            ) == Some(Block { text: text@, used: (next - start) as nat }),
            Err(e) => e == ErrorKind::UnterminatedBlock && read_block(
                first_after_open@,
                strings(lines@),
                start as int,
            ) is None,
        },
{
    let ls = lines_of(lines);
    let first = chars_of(first_after_open);
    match read_block_chars(&ls, start, &first) {
        Some((text, next)) => Ok((text_of(&text), next)),
        None => Err(ErrorKind::UnterminatedBlock),
    }
}

} // verus!
