//! Splitting text into lines and words, and joining texts.

use vstd::prelude::*;
use crate::text::convert::{chars_of, push_all, slice_of};
use crate::text::search::{index_of, lemma_index_of, lemma_index_of_is};
use crate::text::space::{
    is_space, is_space_char, leading_spaces, lemma_leading_spaces, lemma_leading_spaces_is,
};

verus! {

/// The texts held by a sequence of character vectors.
pub open spec fn texts(v: Seq<Vec<char>>) -> Seq<Seq<char>> {
    v.map_values(|l: Vec<char>| l@)
}

/// The texts held by a sequence of strings.
pub open spec fn strings(v: Seq<String>) -> Seq<Seq<char>> {
    v.map_values(|l: String| l@)
}

/// `line` without one trailing carriage return, if it has one.
pub open spec fn strip_cr(line: Seq<char>) -> Seq<char> {
    if line.len() > 0 && line.last() == '\r' {
        line.drop_last()
    } else {
        line
    }
}

/// The lines of `s`.
///
/// A line ends at a line feed; the line feed, and a carriage return directly
/// before it, belong to no line. Text after the last line feed is a line of
/// its own unless it is empty.
pub open spec fn lines(s: Seq<char>) -> Seq<Seq<char>>
    decreases s.len(),
{
    if s.len() == 0 {
        Seq::empty()
    } else {
        let i = index_of(s, '\n');
        proof {
            lemma_index_of(s, '\n');
        }
        if i >= s.len() {
            seq![s]
        } else {
            seq![strip_cr(s.take(i))] + lines(s.skip(i + 1))
        }
    }
}

/// The length of the longest prefix of `s` without whitespace.
pub open spec fn leading_non_spaces(s: Seq<char>) -> nat
    decreases s.len(),
{
    if s.len() > 0 && !is_space(s[0]) {
        1 + leading_non_spaces(s.drop_first())
    } else {
        0
    }
}

/// The words of `s`: its maximal runs of characters that are not whitespace.
pub open spec fn words(s: Seq<char>) -> Seq<Seq<char>>
    decreases s.len(),
{
    let k = leading_spaces(s);
    if k >= s.len() {
        Seq::empty()
    } else {
        let t = s.skip(k as int);
        let n = leading_non_spaces(t);
        proof {
            lemma_leading_spaces(s);
            lemma_leading_non_spaces(t);
            assert(t[0] == s[k as int]);
        }
        seq![t.take(n as int)] + words(t.skip(n as int))
    }
}

/// The texts of `parts` with `sep` between each two neighbours.
pub open spec fn join(parts: Seq<Seq<char>>, sep: Seq<char>) -> Seq<char>
    decreases parts.len(),
{
    if parts.len() == 0 {
        Seq::empty()
    } else if parts.len() == 1 {
        parts[0]
    } else {
        join(parts.drop_last(), sep) + sep + parts.last()
    }
}

/// The texts of one more character vector.
pub proof fn lemma_texts_push(v: Seq<Vec<char>>, x: Vec<char>)
    ensures
        texts(v.push(x)) == texts(v).push(x@),
{
    assert(texts(v.push(x)) =~= texts(v).push(x@));
}

/// The texts of one more string.
pub proof fn lemma_strings_push(v: Seq<String>, x: String)
    ensures
        strings(v.push(x)) == strings(v).push(x@),
{
    assert(strings(v.push(x)) =~= strings(v).push(x@));
}

/// A prefix length with the defining property is `leading_non_spaces(s)`.
pub proof fn lemma_leading_non_spaces_is(s: Seq<char>, k: int)
    requires
        0 <= k <= s.len(),
        forall|i: int| 0 <= i < k ==> !is_space(#[trigger] s[i]),
        k < s.len() ==> is_space(s[k]),
    ensures
        leading_non_spaces(s) == k,
    decreases s.len(),
{
    if k > 0 {
        let t = s.drop_first();
        assert(!is_space(s[0]));
        assert forall|i: int| 0 <= i < k - 1 implies !is_space(#[trigger] t[i]) by {
            assert(t[i] == s[i + 1]);
        }
        lemma_leading_non_spaces_is(t, k - 1);
    }
}

/// `leading_non_spaces(s)` is the length of the longest whitespace-free prefix.
pub proof fn lemma_leading_non_spaces(s: Seq<char>)
    ensures
        leading_non_spaces(s) <= s.len(),
        forall|i: int| 0 <= i < leading_non_spaces(s) ==> !is_space(#[trigger] s[i]),
        leading_non_spaces(s) < s.len() ==> is_space(s[leading_non_spaces(s) as int]),
    decreases s.len(),
{
    if s.len() > 0 && !is_space(s[0]) {
        let t = s.drop_first();
        lemma_leading_non_spaces(t);
        assert forall|i: int| 0 <= i < leading_non_spaces(s) implies !is_space(
            #[trigger] s[i],
        ) by {
            if i > 0 {
                assert(s[i] == t[i - 1]);
            }
        }
        if leading_non_spaces(s) < s.len() {
            assert(s[leading_non_spaces(s) as int] == t[leading_non_spaces(t) as int]);
        }
    }
}

/// The lines of `v`.
pub fn split_lines(v: &Vec<char>) -> (out: Vec<Vec<char>>)
    ensures
        texts(out@) == lines(v@),
{
    let mut out: Vec<Vec<char>> = Vec::new();
    let mut pos: usize = 0;
    assert(texts(out@) =~= Seq::<Seq<char>>::empty());
    assert(v@.skip(0) == v@);
    while pos < v.len()
        invariant
            pos <= v.len(),
            texts(out@) + lines(v@.skip(pos as int)) == lines(v@),
        decreases v.len() - pos,
    {
        let ghost rest = v@.skip(pos as int);
        let ghost before = texts(out@);
        let mut end: usize = pos;
        while end < v.len() && v[end] != '\n'
            invariant
                pos <= end <= v.len(),
                rest == v@.skip(pos as int),
                forall|j: int| 0 <= j < end - pos ==> #[trigger] rest[j] != '\n',
            decreases v.len() - end,
        {
            end += 1;
        }
        proof {
            lemma_index_of_is(rest, '\n', end - pos);
        }
        if end == v.len() {
            let line = slice_of(v, pos, end);
            proof {
                lemma_texts_push(out@, line);
                assert(line@ == rest);
                assert(lines(v@.skip(v.len() as int)) =~= Seq::<Seq<char>>::empty());
                assert(before.push(rest) + Seq::<Seq<char>>::empty() =~= before + seq![rest]);
            }
            out.push(line);
            pos = end;
        } else {
            let stop: usize = if end > pos && v[end - 1] == '\r' {
                end - 1
            } else {
                end
            };
            let line = slice_of(v, pos, stop);
            proof {
                lemma_texts_push(out@, line);
                let raw = rest.take(end - pos);
                assert(raw == v@.subrange(pos as int, end as int));
                if end > pos {
                    assert(raw.last() == v@[end - 1]);
                }
                assert(line@ == strip_cr(raw));
                assert(rest.skip(end - pos + 1) == v@.skip(end + 1));
                assert(before.push(line@) + lines(v@.skip(end + 1)) =~= before + (seq![line@]
                    + lines(v@.skip(end + 1))));
            }
            out.push(line);
            pos = end + 1;
        }
    }
    proof {
        assert(lines(v@.skip(pos as int)) =~= Seq::<Seq<char>>::empty());
        assert(texts(out@) + Seq::<Seq<char>>::empty() =~= texts(out@));
    }
    out
}

/// The words of `v`.
pub fn split_words(v: &Vec<char>) -> (out: Vec<Vec<char>>)
    ensures
        texts(out@) == words(v@),
{
    let mut out: Vec<Vec<char>> = Vec::new();
    let mut pos: usize = 0;
    assert(texts(out@) =~= Seq::<Seq<char>>::empty());
    assert(v@.skip(0) == v@);
    loop
        invariant
            pos <= v.len(),
            texts(out@) + words(v@.skip(pos as int)) == words(v@),
        ensures
            texts(out@) == words(v@),
        decreases v.len() - pos,
    {
        let ghost rest = v@.skip(pos as int);
        let ghost before = texts(out@);
        let mut start: usize = pos;
        while start < v.len() && is_space_char(v[start])
            invariant
                pos <= start <= v.len(),
                rest == v@.skip(pos as int),
                forall|j: int| 0 <= j < start - pos ==> is_space(#[trigger] rest[j]),
            decreases v.len() - start,
        {
            start += 1;
        }
        proof {
            lemma_leading_spaces_is(rest, start - pos);
        }
        if start == v.len() {
            proof {
                assert(words(rest) =~= Seq::<Seq<char>>::empty());
                assert(before + Seq::<Seq<char>>::empty() =~= before);
            }
            break;
        }
        let ghost t = rest.skip(start - pos);
        assert(t == v@.skip(start as int));
        let mut end: usize = start;
        while end < v.len() && !is_space_char(v[end])
            invariant
                start <= end <= v.len(),
                t == v@.skip(start as int),
                forall|j: int| 0 <= j < end - start ==> !is_space(#[trigger] t[j]),
            decreases v.len() - end,
        {
            end += 1;
        }
        proof {
            lemma_leading_non_spaces_is(t, end - start);
            assert(t[0] == v@[start as int]);
        }
        let word = slice_of(v, start, end);
        proof {
            lemma_texts_push(out@, word);
            assert(word@ == t.take(end - start));
            assert(t.skip(end - start) == v@.skip(end as int));
            assert(words(rest) == seq![word@] + words(v@.skip(end as int)));
            assert(before.push(word@) + words(v@.skip(end as int)) =~= before + (seq![word@]
                + words(v@.skip(end as int))));
        }
        out.push(word);
        pos = end;
    }
    out
}

/// The texts `parts[from..]` with `sep` between each two neighbours.
pub fn join_from(parts: &Vec<Vec<char>>, from: usize, sep: &Vec<char>) -> (out: Vec<char>)
    requires
        from <= parts.len(),
    ensures
        out@ == join(texts(parts@).skip(from as int), sep@),
{
    let mut out: Vec<char> = Vec::new();
    let mut i: usize = from;
    let ghost all = texts(parts@).skip(from as int);
    assert(all.take(0) =~= Seq::<Seq<char>>::empty());
    while i < parts.len()
        invariant
            from <= i <= parts.len(),
            all == texts(parts@).skip(from as int),
            out@ == join(all.take(i - from), sep@),
        decreases parts.len() - i,
    {
        let ghost before = out@;
        if i > from {
            push_all(&mut out, sep);
        }
        push_all(&mut out, &parts[i]);
        proof {
            let next = all.take(i - from + 1);
            assert(next.drop_last() =~= all.take(i - from));
            assert(next.last() == parts@[i as int]@);
            if i > from {
                assert(out@ == before + sep@ + parts@[i as int]@);
            } else {
                assert(next.len() == 1);
                assert(before =~= Seq::<char>::empty());
                assert(out@ =~= next[0]);
            }
        }
        i += 1;
    }
    assert(all.take(parts.len() - from) =~= all);
    out
}

/// The characters of each of `lines`.
pub fn lines_of(lines: &Vec<String>) -> (out: Vec<Vec<char>>)
    ensures
        texts(out@) == strings(lines@),
        out.len() == lines.len(),
{
    let mut out: Vec<Vec<char>> = Vec::new();
    let mut i: usize = 0;
    assert(texts(out@) =~= strings(lines@).take(0));
    while i < lines.len()
        invariant
            i <= lines.len(),
            out.len() == i,
            texts(out@) == strings(lines@).take(i as int),
        decreases lines.len() - i,
    {
        let l = chars_of(lines[i].as_str());
        proof {
            lemma_texts_push(out@, l);
            assert(strings(lines@).take(i + 1) =~= strings(lines@).take(i as int).push(l@));
        }
        out.push(l);
        i += 1;
    }
    assert(strings(lines@).take(lines.len() as int) =~= strings(lines@));
    out
}

} // verus!
