//! Rewriting text: per-character expansion and replacement of a sub-text.

use vstd::prelude::*;
use crate::text::convert::push_all;
use crate::text::search::{
    contains, find, lemma_find_from, matches_at, occurs_at, starts_with,
};

verus! {

/// `s` with every character `c` replaced by the text `f(c)`.
pub open spec fn expand(s: Seq<char>, f: spec_fn(char) -> Seq<char>) -> Seq<char>
    decreases s.len(),
{
    if s.len() == 0 {
        Seq::empty()
    } else {
        expand(s.drop_last(), f) + f(s.last())
    }
}

/// `s` with every occurrence of `p` replaced by `r`, found from left to
/// right without overlap. An empty `p` replaces nothing.
pub open spec fn replace_all(s: Seq<char>, p: Seq<char>, r: Seq<char>) -> Seq<char>
    decreases s.len(),
{
    if p.len() == 0 || s.len() < p.len() {
        s
    } else if starts_with(s, p) {
        r + replace_all(s.skip(p.len() as int), p, r)
    } else {
        seq![s[0]] + replace_all(s.skip(1), p, r)
    }
}

/// Expanding one more character appends its expansion.
pub proof fn lemma_expand_push(s: Seq<char>, c: char, f: spec_fn(char) -> Seq<char>)
    ensures
        expand(s.push(c), f) == expand(s, f) + f(c),
{
    assert(s.push(c).drop_last() =~= s);
}

/// Where every expansion avoids `c`, so does the expanded text.
pub proof fn lemma_expand_avoids(s: Seq<char>, f: spec_fn(char) -> Seq<char>, c: char)
    requires
        forall|x: char, i: int| 0 <= i < f(x).len() ==> #[trigger] f(x)[i] != c,
    ensures
        forall|i: int| 0 <= i < expand(s, f).len() ==> #[trigger] expand(s, f)[i] != c,
    decreases s.len(),
{
    if s.len() > 0 {
        lemma_expand_avoids(s.drop_last(), f, c);
        let head = expand(s.drop_last(), f);
        assert forall|i: int| 0 <= i < expand(s, f).len() implies #[trigger] expand(s, f)[i]
            != c by {
            if i >= head.len() {
                assert(expand(s, f)[i] == f(s.last())[i - head.len()]);
            }
        }
    }
}

/// Where the replaced text begins with the tail `p[k..]`, so does the text
/// before the replacement. It holds when the first character of `p` occurs
/// nowhere else in `p` and `r` begins with it.
proof fn lemma_replaced_tail(s: Seq<char>, p: Seq<char>, r: Seq<char>, k: int)
    requires
        1 <= k <= p.len(),
        r.len() >= 1,
        r[0] == p[0],
        forall|j: int| 1 <= j < p.len() ==> #[trigger] p[j] != p[0],
        starts_with(replace_all(s, p, r), p.skip(k)),
    ensures
        starts_with(s, p.skip(k)),
    decreases s.len(),
{
    let out = replace_all(s, p, r);
    let tail = p.skip(k);
    if k == p.len() {
    } else if s.len() < p.len() {
    } else if starts_with(s, p) {
        assert(out[0] == r[0]);
        assert(out.take(tail.len() as int)[0] == tail[0]);
        assert(tail[0] == p[k]);
    } else {
        let rest = replace_all(s.skip(1), p, r);
        assert(out == seq![s[0]] + rest);
        assert(out.take(tail.len() as int)[0] == tail[0]);
        assert(s[0] == p[k]);
        let next = p.skip(k + 1);
        assert(rest.take(next.len() as int) =~= next) by {
            assert forall|i: int| 0 <= i < next.len() implies rest.take(next.len() as int)[i]
                == next[i] by {
                assert(out.take(tail.len() as int)[i + 1] == tail[i + 1]);
            }
        }
        lemma_replaced_tail(s.skip(1), p, r, k + 1);
        assert(s.take(tail.len() as int) =~= tail) by {
            assert forall|i: int| 0 <= i < tail.len() implies s.take(tail.len() as int)[i]
                == tail[i] by {
                if i > 0 {
                    assert(s.skip(1).take(next.len() as int)[i - 1] == next[i - 1]);
                }
            }
        }
    }
}

/// After replacement `p` occurs at no position, provided the first character
/// of `p` occurs nowhere else in `p`, and `r` begins with that character,
/// holds it nowhere else, and differs from `p` in its second character.
proof fn lemma_replaced_no_match(s: Seq<char>, p: Seq<char>, r: Seq<char>, i: int)
    requires
        p.len() >= 2,
        r.len() >= 2,
        r[0] == p[0],
        r[1] != p[1],
        forall|j: int| 1 <= j < p.len() ==> #[trigger] p[j] != p[0],
        forall|j: int| 1 <= j < r.len() ==> #[trigger] r[j] != p[0],
    ensures
        !matches_at(replace_all(s, p, r), p, i),
    decreases s.len(),
{
    let out = replace_all(s, p, r);
    if matches_at(out, p, i) {
        let hit = out.subrange(i, i + p.len());
        assert(hit[0] == p[0]);
        assert(hit[1] == p[1]);
        if s.len() < p.len() {
        } else if starts_with(s, p) {
            let rest = replace_all(s.skip(p.len() as int), p, r);
            if i >= r.len() {
                lemma_replaced_no_match(s.skip(p.len() as int), p, r, i - r.len());
                assert(rest.subrange(i - r.len(), i - r.len() + p.len()) =~= hit);
            } else if i > 0 {
                assert(out[i] == r[i]);
            } else {
                assert(out[1] == r[1]);
            }
        } else {
            let rest = replace_all(s.skip(1), p, r);
            if i >= 1 {
                lemma_replaced_no_match(s.skip(1), p, r, i - 1);
                assert(rest.subrange(i - 1, i - 1 + p.len()) =~= hit);
            } else {
                let tail = p.skip(1);
                assert(rest.take(tail.len() as int) =~= tail) by {
                    assert forall|j: int| 0 <= j < tail.len() implies rest.take(
                        tail.len() as int,
                    )[j] == tail[j] by {
                        assert(hit[j + 1] == p[j + 1]);
                    }
                }
                lemma_replaced_tail(s.skip(1), p, r, 1);
                assert(s.take(p.len() as int) =~= p) by {
                    assert forall|j: int| 0 <= j < p.len() implies s.take(p.len() as int)[j]
                        == p[j] by {
                        if j > 0 {
                            assert(s.skip(1).take(tail.len() as int)[j - 1] == tail[j - 1]);
                        }
                    }
                }
            }
        }
    }
}

/// Replacement removes every occurrence of `p` and creates none, provided
/// the first character of `p` occurs nowhere else in `p`, and `r` begins with
/// that character, holds it nowhere else, and differs from `p` in its second
/// character.
pub proof fn lemma_replace_all_removes(s: Seq<char>, p: Seq<char>, r: Seq<char>)
    requires
        p.len() >= 2,
        r.len() >= 2,
        r[0] == p[0],
        r[1] != p[1],
        forall|j: int| 1 <= j < p.len() ==> #[trigger] p[j] != p[0],
        forall|j: int| 1 <= j < r.len() ==> #[trigger] r[j] != p[0],
    ensures
        !contains(replace_all(s, p, r), p),
{
    let out = replace_all(s, p, r);
    lemma_find_from(out, p, 0);
    if find(out, p) >= 0 {
        lemma_replaced_no_match(s, p, r, find(out, p));
    }
}

/// A character that does not start `p` stays in front of the replaced text.
pub proof fn lemma_replace_all_after(c: char, s: Seq<char>, p: Seq<char>, r: Seq<char>)
    requires
        p.len() > 0,
        c != p[0],
    ensures
        replace_all(seq![c] + s, p, r) == seq![c] + replace_all(s, p, r),
{
    let all = seq![c] + s;
    assert(all.skip(1) =~= s);
    if all.len() < p.len() {
        lemma_replace_all_short(s, p, r);
    } else {
        assert(all.take(p.len() as int)[0] == c);
    }
}

/// A character that does not occur in `p` stays behind the replaced text.
pub proof fn lemma_replace_all_before(s: Seq<char>, c: char, p: Seq<char>, r: Seq<char>)
    requires
        p.len() > 0,
        forall|j: int| 0 <= j < p.len() ==> #[trigger] p[j] != c,
    ensures
        replace_all(s.push(c), p, r) == replace_all(s, p, r).push(c),
    decreases s.len(),
{
    let all = s.push(c);
    let n = p.len() as int;
    if all.len() < p.len() {
        assert(replace_all(s, p, r) == s);
    } else if starts_with(all, p) {
        if s.len() < n {
            assert(all.take(n)[n - 1] == c);
        }
        assert(s.take(n) =~= all.take(n));
        assert(all.skip(n) =~= s.skip(n).push(c));
        lemma_replace_all_before(s.skip(n), c, p, r);
        let tail = replace_all(s.skip(n), p, r);
        assert(replace_all(all, p, r) == r + tail.push(c));
        assert(replace_all(s, p, r) == r + tail);
        assert(r + tail.push(c) =~= (r + tail).push(c));
    } else if s.len() == 0 {
        assert(all.skip(1) =~= Seq::<char>::empty());
        assert(replace_all(all.skip(1), p, r) =~= Seq::<char>::empty());
        assert(replace_all(s, p, r) =~= Seq::<char>::empty());
        assert(seq![all[0]] + Seq::<char>::empty() =~= Seq::<char>::empty().push(c));
    } else {
        assert(all.skip(1) =~= s.skip(1).push(c));
        assert(all[0] == s[0]);
        lemma_replace_all_before(s.skip(1), c, p, r);
        let tail = replace_all(s.skip(1), p, r);
        assert(replace_all(all, p, r) == seq![s[0]] + tail.push(c));
        if s.len() < p.len() {
            lemma_replace_all_short(s.skip(1), p, r);
            assert(seq![s[0]] + s.skip(1) =~= s);
        } else {
            assert(all.take(n) =~= s.take(n));
        }
        assert(replace_all(s, p, r) == seq![s[0]] + tail);
        assert(seq![s[0]] + tail.push(c) =~= (seq![s[0]] + tail).push(c));
    }
}

/// `v` with every occurrence of `p` replaced by `r`.
pub fn replace_chars(v: &Vec<char>, p: &Vec<char>, r: &Vec<char>) -> (out: Vec<char>)
    ensures
        out@ == replace_all(v@, p@, r@),
{
    let mut out: Vec<char> = Vec::new();
    let mut i: usize = 0;
    assert(v@.skip(0) == v@);
    assert(out@ + replace_all(v@, p@, r@) =~= replace_all(v@, p@, r@));
    while i < v.len()
        invariant
            i <= v.len(),
            out@ + replace_all(v@.skip(i as int), p@, r@) == replace_all(v@, p@, r@),
        decreases v.len() - i,
    {
        let ghost rest = v@.skip(i as int);
        let ghost before = out@;
        if p.len() > 0 && occurs_at(v, p, i) {
            proof {
                assert(rest.take(p.len() as int) =~= v@.subrange(i as int, i + p.len()));
                assert(rest.skip(p.len() as int) =~= v@.skip(i + p.len()));
                assert((before + r@) + replace_all(v@.skip(i + p.len()), p@, r@) =~= before + (r@
                    + replace_all(v@.skip(i + p.len()), p@, r@)));
            }
            push_all(&mut out, r);
            i += p.len();
        } else {
            proof {
                assert(rest.skip(1) =~= v@.skip(i + 1));
                if p.len() == 0 || rest.len() < p.len() {
                    lemma_replace_all_short(v@.skip(i + 1), p@, r@);
                    assert(seq![rest[0]] + v@.skip(i + 1) =~= rest);
                } else {
                    assert(rest.take(p.len() as int) =~= v@.subrange(i as int, i + p.len()));
                }
                assert(before.push(v@[i as int]) + replace_all(v@.skip(i + 1), p@, r@) =~= before
                    + (seq![rest[0]] + replace_all(v@.skip(i + 1), p@, r@)));
            }
            out.push(v[i]);
            i += 1;
        }
    }
    proof {
        assert(out@ + replace_all(v@.skip(i as int), p@, r@) =~= out@);
    }
    out
}

/// Text shorter than `p`, or any text when `p` is empty, is left as it is.
proof fn lemma_replace_all_short(s: Seq<char>, p: Seq<char>, r: Seq<char>)
    requires
        p.len() == 0 || s.len() < p.len(),
    ensures
        replace_all(s, p, r) == s,
{
}

} // verus!
