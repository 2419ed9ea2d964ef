//! The block reader: extracts the text enclosed by a pair of braces, honouring
//! quotes and escapes.
//!
//! Reading starts after the opening brace, at depth 1. A backslash makes the
//! next character literal. Outside an escape, a quote character opens or
//! closes its quote mode unless another mode is open. Braces count only
//! outside quotes; the brace that brings the depth to zero ends the block and
//! is not part of it. Every character before it is copied as it is.

use vstd::prelude::*;
use crate::text::lines::texts;
use crate::text::search::index_of;

verus! {

/// The quote mode of the scanner.
#[derive(Debug, Clone, Copy, PartialEq, Eq, Structural)]
pub enum Quote {
    /// Outside any quoted region.
    Outside,
    /// Inside `'...'`.
    Single,
    /// Inside `"..."`.
    Double,
    /// Inside `` `...` ``.
    Backtick,
}

/// The lexical state between two characters.
pub struct ScanState {
    /// Open braces, the one before the block included.
    pub depth: nat,
    /// The open quote mode.
    pub quote: Quote,
    /// Whether the character before was an unescaped backslash.
    pub escape: bool,
}

/// The state right after the opening brace.
pub open spec fn start_state() -> ScanState {
    ScanState { depth: 1, quote: Quote::Outside, escape: false }
}

/// The quote mode after an unescaped quote character of kind `q`.
pub open spec fn toggle(quote: Quote, q: Quote) -> Quote {
    if quote == q {
        Quote::Outside
    } else if quote == Quote::Outside {
        q
    } else {
        quote
    }
}

/// The state after reading `c`; `None` when `c` is the brace that closes the
/// block.
pub open spec fn step(st: ScanState, c: char) -> Option<ScanState> {
    if st.escape {
        Some(ScanState { escape: false, ..st })
    } else if c == '\\' {
        Some(ScanState { escape: true, ..st })
    } else if c == '\'' {
        Some(ScanState { quote: toggle(st.quote, Quote::Single), ..st })
    } else if c == '"' {
        Some(ScanState { quote: toggle(st.quote, Quote::Double), ..st })
    } else if c == '`' {
        Some(ScanState { quote: toggle(st.quote, Quote::Backtick), ..st })
    } else if st.quote != Quote::Outside {
        Some(st)
    } else if c == '{' {
        Some(ScanState { depth: st.depth + 1, ..st })
    } else if c == '}' {
        if st.depth <= 1 {
            None
        } else {
            Some(ScanState { depth: (st.depth - 1) as nat, ..st })
        }
    } else {
        Some(st)
    }
}

/// What reading one line gives.
pub struct LineScan {
    /// Whether the closing brace stands on the line.
    pub closed: bool,
    /// How many characters of the line belong to the block: those before the
    /// closing brace, or all of them.
    pub copied: nat,
    /// The state at the end of the line, where it did not close.
    pub state: ScanState,
}

/// Reads the characters of `line` from state `st`.
pub open spec fn scan_line(st: ScanState, line: Seq<char>) -> LineScan
    decreases line.len(),
{
    if line.len() == 0 {
        LineScan { closed: false, copied: 0, state: st }
    } else {
        match step(st, line[0]) {
            None => LineScan { closed: true, copied: 0, state: st },
            Some(next) => {
                let r = scan_line(next, line.drop_first());
                LineScan { copied: r.copied + 1, ..r }
            },
        }
    }
}

/// A block and how much was read to get it.
pub struct Block {
    /// The enclosed text.
    pub text: Seq<char>,
    /// How many of the lines were read, the one with the closing brace
    /// included.
    pub used: nat,
}

/// `b` with `head` in front of its text and `n` more lines read.
pub open spec fn prepend(head: Seq<char>, n: nat, b: Option<Block>) -> Option<Block> {
    match b {
        None => None,
        Some(b) => Some(Block { text: head + b.text, used: b.used + n }),
    }
}

/// Reads `lines[pos..]` from state `st` until the block closes. Every line
/// read in full is followed by a line feed in the block; the text after the
/// closing brace on its line is dropped. `None` when the lines end first.
pub open spec fn scan_lines(st: ScanState, lines: Seq<Seq<char>>, pos: int) -> Option<Block>
    decreases lines.len() - pos,
{
    if pos < 0 || pos >= lines.len() {
        None
    } else {
        let r = scan_line(st, lines[pos]);
        if r.closed {
            Some(Block { text: lines[pos].take(r.copied as int), used: 1 })
        } else {
            prepend(lines[pos].push('\n'), 1, scan_lines(r.state, lines, pos + 1))
        }
    }
}

/// The block that starts with `first`, the text after the opening brace on
/// its line, and goes on in `lines[pos..]`. An empty `first` is no line: the
/// block then starts with `lines[pos]`.
pub open spec fn read_block(first: Seq<char>, lines: Seq<Seq<char>>, pos: int) -> Option<Block> {
    if first.len() == 0 {
        scan_lines(start_state(), lines, pos)
    } else {
        let r = scan_line(start_state(), first);
        if r.closed {
            Some(Block { text: first.take(r.copied as int), used: 0 })
        } else {
            prepend(first.push('\n'), 0, scan_lines(r.state, lines, pos))
        }
    }
}

/// The text of `line` after its first `{`, or nothing where it has none.
pub open spec fn after_open(line: Seq<char>) -> Seq<char> {
    if index_of(line, '{') < line.len() {
        line.skip(index_of(line, '{') + 1)
    } else {
        Seq::empty()
    }
}

/// Reading a line copies at most the line, and never lowers the depth below
/// one while the block is open.
pub proof fn lemma_scan_line_bounds(st: ScanState, line: Seq<char>)
    requires
        st.depth >= 1,
    ensures
        scan_line(st, line).copied <= line.len(),
        scan_line(st, line).closed ==> scan_line(st, line).copied < line.len(),
        !scan_line(st, line).closed ==> scan_line(st, line).copied == line.len(),
        scan_line(st, line).state.depth >= 1,
    decreases line.len(),
{
    if line.len() > 0 {
        match step(st, line[0]) {
            None => {},
            Some(next) => {
                lemma_scan_line_bounds(next, line.drop_first());
            },
        }
    }
}

/// The line that closes a block holds the closing brace right after the
/// copied part, read outside quotes and escapes at depth one.
pub proof fn lemma_scan_line_close(st: ScanState, line: Seq<char>)
    requires
        scan_line(st, line).closed,
    ensures
        scan_line(st, line).copied < line.len(),
        line[scan_line(st, line).copied as int] == '}',
        scan_line(st, line).state.quote == Quote::Outside,
        !scan_line(st, line).state.escape,
        scan_line(st, line).state.depth <= 1,
    decreases line.len(),
{
    if line.len() > 0 {
        match step(st, line[0]) {
            None => {},
            Some(next) => {
                lemma_scan_line_close(next, line.drop_first());
                let r = scan_line(next, line.drop_first());
                assert(line.drop_first()[r.copied as int] == line[r.copied as int + 1]);
            },
        }
    }
}

/// A block never reads past the last line.
pub proof fn lemma_scan_lines_used(st: ScanState, lines: Seq<Seq<char>>, pos: int)
    requires
        scan_lines(st, lines, pos) is Some,
    ensures
        1 <= scan_lines(st, lines, pos)->0.used <= lines.len() - pos,
    decreases lines.len() - pos,
{
    let r = scan_line(st, lines[pos]);
    if !r.closed {
        lemma_scan_lines_used(r.state, lines, pos + 1);
    }
}

/// A block that starts on a directive line never reads past the last line.
pub proof fn lemma_read_block_used(first: Seq<char>, lines: Seq<Seq<char>>, pos: int)
    requires
        0 <= pos <= lines.len(),
        read_block(first, lines, pos) is Some,
    ensures
        read_block(first, lines, pos)->0.used <= lines.len() - pos,
{
    if first.len() == 0 {
        lemma_scan_lines_used(start_state(), lines, pos);
    } else {
        let r = scan_line(start_state(), first);
        if !r.closed {
            lemma_scan_lines_used(r.state, lines, pos);
        }
    }
}

/// Inside a quoted region a brace changes nothing: it is copied, and depth
/// and quote mode stay as they are.
pub proof fn lemma_brace_in_quotes(st: ScanState, c: char)
    requires
        st.quote != Quote::Outside,
        !st.escape,
        c == '{' || c == '}',
    ensures
        step(st, c) == Some(st),
{
}

/// A run of characters without quote characters and backslashes, read inside
/// a quoted region, is copied whole and leaves the state as it was, whatever
/// braces it holds.
pub proof fn lemma_quoted_run(st: ScanState, run: Seq<char>)
    requires
        st.quote != Quote::Outside,
        !st.escape,
        forall|i: int|
            0 <= i < run.len() ==> {
                let c = #[trigger] run[i];
                c != '\\' && c != '\'' && c != '"' && c != '`'
            },
    ensures
        scan_line(st, run) == (LineScan { closed: false, copied: run.len(), state: st }),
    decreases run.len(),
{
    if run.len() > 0 {
        let c = run[0];
        assert(step(st, c) == Some(st));
        let rest = run.drop_first();
        assert forall|i: int| 0 <= i < rest.len() implies {
            let c = #[trigger] rest[i];
            c != '\\' && c != '\'' && c != '"' && c != '`'
        } by {
            assert(rest[i] == run[i + 1]);
        }
        lemma_quoted_run(st, rest);
    }
}

/// An escaped character never changes depth or quote mode: after a backslash
/// any character, a quote or a brace included, is copied and the state is
/// what it was before the backslash.
pub proof fn lemma_escaped_char(st: ScanState, c: char)
    requires
        !st.escape,
    ensures
        step(st, '\\') matches Some(mid) && step(mid, c) == Some(st),
        scan_line(st, seq!['\\', c]) == (LineScan { closed: false, copied: 2, state: st }),
{
    let pair = seq!['\\', c];
    let mid = ScanState { escape: true, ..st };
    assert(pair.drop_first() =~= seq![c]);
    assert(seq![c].drop_first() =~= Seq::<char>::empty());
    assert(scan_line(st, Seq::<char>::empty()) == (LineScan { closed: false, copied: 0, state: st }));
    assert(scan_line(mid, seq![c]) == (LineScan { closed: false, copied: 1, state: st }));
}

/// The character that opens and closes the quote mode `q`.
pub open spec fn quote_char(q: Quote) -> char {
    match q {
        Quote::Single => '\'',
        Quote::Backtick => '`',
        _ => '"',
    }
}

/// A quoted region does not affect nesting: read outside quotes, an opening
/// quote, a run without quote characters and backslashes, and the closing
/// quote are copied whole and leave the state as it was, whatever braces the
/// run holds.
pub proof fn lemma_quoted_region(st: ScanState, q: Quote, run: Seq<char>)
    requires
        st.quote == Quote::Outside,
        !st.escape,
        q != Quote::Outside,
        forall|i: int|
            0 <= i < run.len() ==> {
                let c = #[trigger] run[i];
                c != '\\' && c != '\'' && c != '"' && c != '`'
            },
    ensures
        scan_line(st, seq![quote_char(q)] + run + seq![quote_char(q)]) == (LineScan {
            closed: false,
            copied: run.len() + 2,
            state: st,
        }),
{
    let open = seq![quote_char(q)];
    let inside = ScanState { quote: q, ..st };
    assert(open.drop_first() =~= Seq::<char>::empty());
    assert(scan_line(inside, Seq::<char>::empty()) == (LineScan {
        closed: false,
        copied: 0,
        state: inside,
    }));
    assert(scan_line(st, open) == (LineScan { closed: false, copied: 1, state: inside }));
    lemma_quoted_run(inside, run);
    lemma_scan_line_concat(st, open, run);
    assert(scan_line(st, Seq::<char>::empty()) == (LineScan { closed: false, copied: 0, state: st }));
    assert(scan_line(inside, open) == (LineScan { closed: false, copied: 1, state: st }));
    lemma_scan_line_concat(st, open + run, open);
}

/// Reading `a` and then `b` is reading `a + b`, as long as `a` does not close
/// the block.
pub proof fn lemma_scan_line_concat(st: ScanState, a: Seq<char>, b: Seq<char>)
    requires
        !scan_line(st, a).closed,
    ensures
        scan_line(st, a + b) == (LineScan {
            copied: a.len() + scan_line(scan_line(st, a).state, b).copied,
            ..scan_line(scan_line(st, a).state, b)
        }),
    decreases a.len(),
{
    if a.len() == 0 {
        assert(a + b =~= b);
    } else {
        match step(st, a[0]) {
            None => {},
            Some(next) => {
                assert((a + b).drop_first() =~= a.drop_first() + b);
                lemma_scan_line_concat(next, a.drop_first(), b);
            },
        }
    }
}

/// The scanner while it reads a block.
struct Scanner {
    depth: u128,
    quote: Quote,
    escape: bool,
}

impl View for Scanner {
    type V = ScanState;

    closed spec fn view(&self) -> ScanState {
        ScanState { depth: self.depth as nat, quote: self.quote, escape: self.escape }
    }
}

impl Scanner {
    /// A scanner right after the opening brace.
    fn new() -> (s: Self)
        ensures
            s@ == start_state(),
    {
        Scanner { depth: 1, quote: Quote::Outside, escape: false }
    }

    /// Reads `line`, copying to `out` what belongs to the block, and says
    /// whether the block closed on this line.
    ///
    /// The depth grows only with a copied brace, so it stays within one more
    /// than the length of `out`, which is what keeps the counter from
    /// overflowing.
    fn scan_chars(&mut self, line: &Vec<char>, out: &mut Vec<char>) -> (closed: bool)
        requires
            old(self)@.depth <= 1 + old(out).len(),
        ensures
            closed == scan_line(old(self)@, line@).closed,
            final(out)@ == old(out)@ + line@.take(scan_line(old(self)@, line@).copied as int),
            !closed ==> final(self)@ == scan_line(old(self)@, line@).state,
            final(self)@.depth <= 1 + final(out).len(),
    {
        let ghost st0 = self@;
        let mut i: usize = 0;
        assert(line@.skip(0) =~= line@);
        assert(line@.take(0) =~= Seq::<char>::empty());
        assert(old(out)@ + Seq::<char>::empty() =~= old(out)@);
        while i < line.len()
            invariant
                i <= line.len(),
                st0 == old(self)@,
                self.depth <= 1 + out.len(),
                out@ == old(out)@ + line@.take(i as int),
                scan_line(st0, line@) == (LineScan {
                    copied: scan_line(self@, line@.skip(i as int)).copied + i as nat,
                    ..scan_line(self@, line@.skip(i as int))
                }),
            decreases line.len() - i,
        {
            let c = line[i];
            let ghost st = self@;
            let ghost rest = line@.skip(i as int);
            assert(rest[0] == c);
            assert(rest.drop_first() =~= line@.skip(i + 1));
            assert(line@.take(i + 1) =~= line@.take(i as int).push(c));
            if self.escape {
                self.escape = false;
            } else if c == '\\' {
                self.escape = true;
            } else if c == '\'' {
                self.quote = flip(self.quote, Quote::Single);
            } else if c == '"' {
                self.quote = flip(self.quote, Quote::Double);
            } else if c == '`' {
                self.quote = flip(self.quote, Quote::Backtick);
            } else if self.quote != Quote::Outside {
            } else if c == '{' {
                self.depth = self.depth + 1;
            } else if c == '}' {
                if self.depth <= 1 {
                    assert(step(st, c) is None);
                    assert(scan_line(st, rest).closed && scan_line(st, rest).copied == 0);
                    return true;
                }
                self.depth = self.depth - 1;
            }
            assert(step(st, c) == Some(self@));
            assert(scan_line(st, rest).copied == scan_line(self@, line@.skip(i + 1)).copied + 1);
            out.push(c);
            i += 1;
        }
        assert(line@.take(line.len() as int) =~= line@);
        false
    }
}

/// The quote mode after an unescaped quote character of kind `q`.
fn flip(quote: Quote, q: Quote) -> (r: Quote)
    ensures
        r == toggle(quote, q),
{
    if quote == q {
        Quote::Outside
    } else if quote == Quote::Outside {
        q
    } else {
        quote
    }
}

/// Reads the block that starts with `first`, the text after the opening brace
/// on its line, and goes on in `lines[start..]`. Gives the block and the index
/// of the first line that was not read, or `None` when the lines end before
/// the block closes.
pub fn read_block_chars(lines: &Vec<Vec<char>>, start: usize, first: &Vec<char>) -> (r: Option<
    (Vec<char>, usize),
>)
    ensures
        match r {
            Some((text, next)) => start <= next && (start <= lines.len() ==> next <= lines.len())
                && read_block(first@, texts(lines@), start as int) == Some(
                Block { text: text@, used: (next - start) as nat },
            ),
            None => read_block(first@, texts(lines@), start as int) is None,
        },
{
    let ghost ls = texts(lines@);
    let mut sc = Scanner::new();
    let mut out: Vec<char> = Vec::new();
    if first.len() > 0 {
        let closed = sc.scan_chars(first, &mut out);
        if closed {
            assert(out@ =~= first@.take(scan_line(start_state(), first@).copied as int));
            return Some((out, start));
        }
        out.push('\n');
        proof {
            lemma_scan_line_bounds(start_state(), first@);
            assert(first@.take(first@.len() as int) =~= first@);
            assert(out@ =~= first@.push('\n'));
        }
    }
    let mut pos: usize = start;
    while pos < lines.len()
        invariant
            start <= pos,
            start <= lines.len() ==> pos <= lines.len(),
            ls == texts(lines@),
            sc@.depth >= 1,
            sc@.depth <= 1 + out.len(),
            read_block(first@, ls, start as int) == prepend(
                out@,
                (pos - start) as nat,
                scan_lines(sc@, ls, pos as int),
            ),
        decreases lines.len() - pos,
    {
        let ghost st = sc@;
        let ghost before = out@;
        let ghost line = ls[pos as int];
        assert(line == lines@[pos as int]@);
        let closed = sc.scan_chars(&lines[pos], &mut out);
        proof {
            lemma_scan_line_bounds(st, line);
        }
        if closed {
            proof {
                let b = Block { text: line.take(scan_line(st, line).copied as int), used: 1 };
                assert(scan_lines(st, ls, pos as int) == Some(b));
            }
            return Some((out, pos + 1));
        }
        out.push('\n');
        proof {
            assert(line.take(line.len() as int) =~= line);
            assert(out@ =~= before + line.push('\n'));
            let tail = scan_lines(sc@, ls, pos + 1);
            assert(scan_lines(st, ls, pos as int) == prepend(line.push('\n'), 1, tail));
            if tail is Some {
                assert(before + (line.push('\n') + tail->0.text) =~= out@ + tail->0.text);
            }
        }
        pos += 1;
    }
    None
}

} // verus!
