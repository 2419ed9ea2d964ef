//! Escaping shared by the item renderers.

use vstd::prelude::*;
use crate::json::{hex_digit, json_encode, json_escape, json_literal};
use crate::text::convert::{chars_of, push_all, push_str, text_of};
use crate::text::rewrite::{
    expand, lemma_expand_avoids, lemma_expand_push, lemma_replace_all_after,
    lemma_replace_all_before, lemma_replace_all_removes, replace_all, replace_chars,
};
use crate::text::search::{contains, find, lemma_find_from, matches_at, starts_with};

verus! {

/// The closing tag that must not appear inside generated script text.
pub const SCRIPT_CLOSE: &'static str = "</script>";

/// What `SCRIPT_CLOSE` becomes inside generated script text.
pub const SCRIPT_CLOSE_SAFE: &'static str = "<\\/script>";

/// What one character becomes in HTML text: the five characters with a
/// meaning in markup become entities, every other character stands for itself.
pub open spec fn html_entity(c: char) -> Seq<char> {
    if c == '&' {
        "&amp;"@
    } else if c == '<' {
        "&lt;"@
    } else if c == '>' {
        "&gt;"@
    } else if c == '"' {
        "&quot;"@
    } else if c == '\'' {
        "&#x27;"@
    } else {
        seq![c]
    }
}

/// `s` as HTML text.
pub open spec fn html_text(s: Seq<char>) -> Seq<char> {
    expand(s, |c: char| html_entity(c))
}

/// Whether `c` is one of the characters that `html_text` lets through only
/// inside an entity, or not at all.
pub open spec fn is_markup_char(c: char) -> bool {
    c == '<' || c == '>' || c == '"' || c == '\''
}

/// `s` with every `</script>` made harmless.
pub open spec fn neutralize(s: Seq<char>) -> Seq<char> {
    replace_all(s, SCRIPT_CLOSE@, SCRIPT_CLOSE_SAFE@)
}

/// The script string literal for `s`.
pub open spec fn js_literal(s: Seq<char>) -> Seq<char> {
    neutralize(json_literal(s))
}

/// What one character becomes in the hand-made literal.
pub open spec fn plain_escape(c: char) -> Seq<char> {
    if c == '\\' {
        seq!['\\', '\\']
    } else if c == '"' {
        seq!['\\', '"']
    } else if c == '\r' {
        seq!['\\', 'r']
    } else if c == '\n' {
        seq!['\\', 'n']
    } else if c == '\t' {
        seq!['\\', 't']
    } else {
        seq![c]
    }
}

/// The hand-made script string literal for `s`, used where no encoded literal
/// is at hand.
pub open spec fn plain_literal(s: Seq<char>) -> Seq<char> {
    seq!['"'] + neutralize(expand(s, |c: char| plain_escape(c))) + seq!['"']
}

/// HTML text holds no `<`, `>`, `"` or `'`.
pub proof fn lemma_html_text_has_no_markup(s: Seq<char>)
    ensures
        forall|i: int| 0 <= i < html_text(s).len() ==> !is_markup_char(#[trigger] html_text(s)[i]),
{
    reveal_strlit("&amp;");
    reveal_strlit("&lt;");
    reveal_strlit("&gt;");
    reveal_strlit("&quot;");
    reveal_strlit("&#x27;");
    let f = |c: char| html_entity(c);
    lemma_expand_avoids(s, f, '<');
    lemma_expand_avoids(s, f, '>');
    lemma_expand_avoids(s, f, '"');
    lemma_expand_avoids(s, f, '\'');
}

/// Whether one of the five entities stands in `s` at position `i`.
pub open spec fn is_entity_at(s: Seq<char>, i: int) -> bool {
    matches_at(s, "&amp;"@, i) || matches_at(s, "&lt;"@, i) || matches_at(s, "&gt;"@, i)
        || matches_at(s, "&quot;"@, i) || matches_at(s, "&#x27;"@, i)
}

/// In HTML text every `&` begins an entity: no `&` of the source passes
/// through as it is.
pub proof fn lemma_html_text_ampersands(s: Seq<char>)
    ensures
        forall|i: int|
            0 <= i < html_text(s).len() && #[trigger] html_text(s)[i] == '&' ==> is_entity_at(
                html_text(s),
                i,
            ),
    decreases s.len(),
{
    reveal_strlit("&amp;");
    reveal_strlit("&lt;");
    reveal_strlit("&gt;");
    reveal_strlit("&quot;");
    reveal_strlit("&#x27;");
    if s.len() > 0 {
        let f = |c: char| html_entity(c);
        let head = html_text(s.drop_last());
        let tail = html_entity(s.last());
        let out = html_text(s);
        assert(out == head + tail);
        lemma_html_text_ampersands(s.drop_last());
        assert forall|i: int| 0 <= i < out.len() && #[trigger] out[i] == '&' implies is_entity_at(
            out,
            i,
        ) by {
            if i < head.len() {
                assert(is_entity_at(head, i));
                assert forall|p: Seq<char>| matches_at(head, p, i) implies matches_at(
                    out,
                    p,
                    i,
                ) by {
                    assert(out.subrange(i, i + p.len()) =~= head.subrange(i, i + p.len()));
                }
            } else {
                assert(out[i] == tail[i - head.len()]);
                assert(i == head.len());
                assert(out.subrange(i, i + tail.len()) =~= tail);
            }
        }
    }
}

/// Neutralized text holds no `</script>`.
pub proof fn lemma_neutralize_is_safe(s: Seq<char>)
    ensures
        !contains(neutralize(s), SCRIPT_CLOSE@),
{
    reveal_strlit("</script>");
    reveal_strlit("<\\/script>");
    lemma_replace_all_removes(s, SCRIPT_CLOSE@, SCRIPT_CLOSE_SAFE@);
}

/// Putting text between two double quotes creates no `</script>`.
pub proof fn lemma_quoted_is_safe(s: Seq<char>)
    requires
        !contains(s, SCRIPT_CLOSE@),
    ensures
        !contains(seq!['"'] + s + seq!['"'], SCRIPT_CLOSE@),
{
    reveal_strlit("</script>");
    let p = SCRIPT_CLOSE@;
    let w = seq!['"'] + s + seq!['"'];
    lemma_find_from(w, p, 0);
    lemma_find_from(s, p, 0);
    if find(w, p) >= 0 {
        let i = find(w, p);
        let hit = w.subrange(i, i + p.len());
        if i == 0 {
            assert(hit[0] == w[0]);
        } else if i + p.len() == w.len() {
            assert(hit[p.len() - 1] == w[w.len() - 1]);
        } else {
            assert(s.subrange(i - 1, i - 1 + p.len()) =~= hit);
            assert(matches_at(s, p, i - 1));
        }
    }
}

/// Whether `s`, read inside a string literal that a double quote closes, stays
/// inside the literal to its end: `s` holds no double quote but escaped ones,
/// and ends outside an escape. `escaped` says whether a backslash right
/// before `s` escapes its first character.
pub open spec fn stays_inside(s: Seq<char>, escaped: bool) -> bool
    decreases s.len(),
{
    if s.len() == 0 {
        !escaped
    } else if escaped {
        stays_inside(s.drop_first(), false)
    } else if s[0] == '"' {
        false
    } else {
        stays_inside(s.drop_first(), s[0] == '\\')
    }
}

/// Whether `l` is a string literal: it opens with a double quote, closes with
/// one, and what stands between them stays inside the literal.
pub open spec fn is_string_literal(l: Seq<char>) -> bool {
    l.len() >= 2 && l[0] == '"' && l.last() == '"' && stays_inside(l.subrange(1, l.len() - 1), false)
}

/// Text that stays inside a literal, followed by text that does, stays
/// inside.
pub proof fn lemma_stays_inside_concat(a: Seq<char>, b: Seq<char>, escaped: bool)
    requires
        stays_inside(a, escaped),
        stays_inside(b, false),
    ensures
        stays_inside(a + b, escaped),
    decreases a.len(),
{
    if a.len() == 0 {
        assert(a + b =~= b);
    } else {
        assert((a + b).drop_first() =~= a.drop_first() + b);
        if escaped {
            lemma_stays_inside_concat(a.drop_first(), b, false);
        } else {
            lemma_stays_inside_concat(a.drop_first(), b, a[0] == '\\');
        }
    }
}

/// A run without double quotes and backslashes ends any escape and changes
/// nothing else.
proof fn lemma_plain_run(a: Seq<char>, rest: Seq<char>, escaped: bool)
    requires
        a.len() > 0,
        forall|i: int| 0 <= i < a.len() ==> #[trigger] a[i] != '"' && a[i] != '\\',
    ensures
        stays_inside(a + rest, escaped) == stays_inside(rest, false),
    decreases a.len(),
{
    let tail = a.drop_first();
    assert((a + rest).drop_first() =~= tail + rest);
    assert((a + rest)[0] == a[0]);
    if tail.len() == 0 {
        assert(tail + rest =~= rest);
    } else {
        assert forall|i: int| 0 <= i < tail.len() implies #[trigger] tail[i] != '"' && tail[i]
            != '\\' by {
            assert(tail[i] == a[i + 1]);
        }
        lemma_plain_run(tail, rest, false);
    }
}

/// Making `</script>` harmless changes nothing for the literal around it.
proof fn lemma_neutralize_keeps_inside(s: Seq<char>, escaped: bool)
    ensures
        stays_inside(neutralize(s), escaped) == stays_inside(s, escaped),
    decreases s.len(),
{
    reveal_strlit("</script>");
    reveal_strlit("<\\/script>");
    let p = SCRIPT_CLOSE@;
    let r = SCRIPT_CLOSE_SAFE@;
    if s.len() < p.len() {
    } else if starts_with(s, p) {
        let rest = s.skip(p.len() as int);
        let out = neutralize(rest);
        lemma_neutralize_keeps_inside(rest, false);
        assert(s =~= p + rest);
        lemma_plain_run(p, rest, escaped);
        let word = seq!['s', 'c', 'r', 'i', 'p', 't', '>'];
        let mid = seq!['\\', '/'] + word + out;
        assert(r + out =~= seq!['<'] + mid);
        lemma_plain_run(seq!['<'], mid, escaped);
        assert(mid[0] == '\\');
        assert(mid.drop_first() =~= seq!['/'] + word + out);
        assert((seq!['/'] + word + out).drop_first() =~= word + out);
        assert(stays_inside(mid, false) == stays_inside(seq!['/'] + word + out, true));
        assert(stays_inside(seq!['/'] + word + out, true) == stays_inside(word + out, false));
        lemma_plain_run(word, out, false);
    } else {
        let rest = s.skip(1);
        lemma_neutralize_keeps_inside(rest, false);
        lemma_neutralize_keeps_inside(rest, true);
        assert(s.drop_first() =~= rest);
        assert((seq![s[0]] + neutralize(rest)).drop_first() =~= neutralize(rest));
    }
}

/// Every escape of the encoder stays inside the literal.
proof fn lemma_json_escape_stays_inside(c: char)
    ensures
        stays_inside(json_escape(c), false),
{
    reveal_with_fuel(stays_inside, 8);
    let e = json_escape(c);
    if e.len() == 1 {
        assert(e.drop_first() =~= Seq::<char>::empty());
    } else if e.len() == 2 {
        assert(e.drop_first().drop_first() =~= Seq::<char>::empty());
    } else {
        let n = c as u32;
        let tail = seq!['0', '0', hex_digit(n as int / 16), hex_digit(n as int % 16)];
        assert(e.drop_first().drop_first() =~= tail);
        assert(stays_inside(e, false) == stays_inside(tail, false));
        lemma_plain_run(tail, Seq::<char>::empty(), false);
        assert(tail + Seq::<char>::empty() =~= tail);
    }
}

/// Every escape of the hand-made literal stays inside the literal.
proof fn lemma_plain_escape_stays_inside(c: char)
    ensures
        stays_inside(plain_escape(c), false),
{
    reveal_with_fuel(stays_inside, 4);
    let e = plain_escape(c);
    if e.len() == 1 {
        assert(e.drop_first() =~= Seq::<char>::empty());
    } else {
        assert(e.drop_first().drop_first() =~= Seq::<char>::empty());
    }
}

/// Where every expansion stays inside the literal, so does the expanded
/// text.
proof fn lemma_expand_stays_inside(s: Seq<char>, f: spec_fn(char) -> Seq<char>)
    requires
        forall|c: char| stays_inside(#[trigger] f(c), false),
    ensures
        stays_inside(expand(s, f), false),
    decreases s.len(),
{
    if s.len() > 0 {
        lemma_expand_stays_inside(s.drop_last(), f);
        lemma_stays_inside_concat(expand(s.drop_last(), f), f(s.last()), false);
    }
}

/// The script string literal for a text is a string literal: no character of
/// the text ends it early or leaves an escape open.
pub proof fn lemma_js_literal_is_a_literal(s: Seq<char>)
    ensures
        is_string_literal(js_literal(s)),
{
    reveal_strlit("</script>");
    reveal_strlit("<\\/script>");
    let f = |c: char| json_escape(c);
    let body = expand(s, f);
    assert forall|c: char| stays_inside(#[trigger] f(c), false) by {
        lemma_json_escape_stays_inside(c);
    }
    lemma_expand_stays_inside(s, f);
    assert(json_literal(s) =~= (seq!['"'] + body).push('"'));
    lemma_replace_all_before(seq!['"'] + body, '"', SCRIPT_CLOSE@, SCRIPT_CLOSE_SAFE@);
    lemma_replace_all_after('"', body, SCRIPT_CLOSE@, SCRIPT_CLOSE_SAFE@);
    lemma_neutralize_keeps_inside(body, false);
    let l = js_literal(s);
    assert(l == (seq!['"'] + neutralize(body)).push('"'));
    assert(l.subrange(1, l.len() - 1) =~= neutralize(body));
}

/// The hand-made script string literal for a text is a string literal.
pub proof fn lemma_plain_literal_is_a_literal(s: Seq<char>)
    ensures
        is_string_literal(plain_literal(s)),
{
    let f = |c: char| plain_escape(c);
    let body = expand(s, f);
    assert forall|c: char| stays_inside(#[trigger] f(c), false) by {
        lemma_plain_escape_stays_inside(c);
    }
    lemma_expand_stays_inside(s, f);
    lemma_neutralize_keeps_inside(body, false);
    let l = plain_literal(s);
    assert(l.subrange(1, l.len() - 1) =~= neutralize(body));
}

/// Escapes `s` for use as HTML text.
pub fn escape_html(s: &str) -> (r: String)
    ensures
        r@ == html_text(s@),
        forall|i: int| 0 <= i < r@.len() ==> !is_markup_char(#[trigger] r@[i]),
{
    let v = chars_of(s);
    let out = escape_html_chars(&v);
    text_of(&out)
}

/// Escapes `v` for use as HTML text.
pub fn escape_html_chars(v: &Vec<char>) -> (out: Vec<char>)
    ensures
        out@ == html_text(v@),
        forall|i: int| 0 <= i < out@.len() ==> !is_markup_char(#[trigger] out@[i]),
{
    let mut out: Vec<char> = Vec::new();
    let mut i: usize = 0;
    let ghost f = |c: char| html_entity(c);
    while i < v.len()
        invariant
            i <= v.len(),
            f == (|c: char| html_entity(c)),
            out@ == expand(v@.take(i as int), f),
        decreases v.len() - i,
    {
        let c = v[i];
        proof {
            lemma_expand_push(v@.take(i as int), c, f);
            assert(v@.take(i + 1) =~= v@.take(i as int).push(c));
        }
        if c == '&' {
            push_str(&mut out, "&amp;");
        } else if c == '<' {
            push_str(&mut out, "&lt;");
        } else if c == '>' {
            push_str(&mut out, "&gt;");
        } else if c == '"' {
            push_str(&mut out, "&quot;");
        } else if c == '\'' {
            push_str(&mut out, "&#x27;");
        } else {
            out.push(c);
            assert(out@ =~= expand(v@.take(i as int), f) + seq![c]);
        }
        i += 1;
    }
    proof {
        assert(v@.take(v.len() as int) =~= v@);
        assert(out@ == html_text(v@));
        lemma_html_text_has_no_markup(v@);
    }
    out
}

/// Escapes `s` for use as an attribute value.
pub fn escape_attr(s: &str) -> (r: String)
    ensures
        r@ == html_text(s@),
        forall|i: int| 0 <= i < r@.len() ==> !is_markup_char(#[trigger] r@[i]),
{
    escape_html(s)
}

/// The script string literal for `s`, given what encoding `s` as JSON gave:
/// the encoded literal, or a hand-made one where encoding failed, in both
/// cases with every `</script>` made harmless.
pub fn js_string_from(s: &str, encoded: Result<String, serde_json::Error>) -> (r: String)
    ensures
        r@ == match encoded {
            Ok(t) => neutralize(t@),
            Err(_) => plain_literal(s@),
        },
        encoded is Err ==> is_string_literal(r@),
        !contains(r@, SCRIPT_CLOSE@),
{
    proof {
        lemma_plain_literal_is_a_literal(s@);
    }
    let from = chars_of(SCRIPT_CLOSE);
    let to = chars_of(SCRIPT_CLOSE_SAFE);
    match encoded {
        Ok(js) => {
            let v = chars_of(js.as_str());
            let out = replace_chars(&v, &from, &to);
            proof {
                lemma_neutralize_is_safe(v@);
            }
            text_of(&out)
        },
        Err(_) => {
            let v = chars_of(s);
            let esc = plain_escape_chars(&v);
            let safe = replace_chars(&esc, &from, &to);
            let mut out: Vec<char> = Vec::new();
            out.push('"');
            push_all(&mut out, &safe);
            out.push('"');
            proof {
                lemma_neutralize_is_safe(esc@);
                lemma_quoted_is_safe(safe@);
                assert(out@ =~= seq!['"'] + safe@ + seq!['"']);
            }
            text_of(&out)
        },
    }
}

/// `v` with backslash, double quote, carriage return, line feed and tab
/// written as escapes.
fn plain_escape_chars(v: &Vec<char>) -> (out: Vec<char>)
    ensures
        out@ == expand(v@, |c: char| plain_escape(c)),
{
    let mut out: Vec<char> = Vec::new();
    let mut i: usize = 0;
    let ghost f = |c: char| plain_escape(c);
    while i < v.len()
        invariant
            i <= v.len(),
            f == (|c: char| plain_escape(c)),
            out@ == expand(v@.take(i as int), f),
        decreases v.len() - i,
    {
        let c = v[i];
        let ghost before = out@;
        proof {
            lemma_expand_push(v@.take(i as int), c, f);
            assert(v@.take(i + 1) =~= v@.take(i as int).push(c));
        }
        if c == '\\' {
            out.push('\\');
            out.push('\\');
        } else if c == '"' {
            out.push('\\');
            out.push('"');
        } else if c == '\r' {
            out.push('\\');
            out.push('r');
        } else if c == '\n' {
            out.push('\\');
            out.push('n');
        } else if c == '\t' {
            out.push('\\');
            out.push('t');
        } else {
            out.push(c);
        }
        assert(out@ =~= before + plain_escape(c));
        i += 1;
    }
    assert(v@.take(v.len() as int) =~= v@);
    out
}

/// The script string literal for `s`. It is safe to embed in generated
/// script text: it is a string literal whatever `s` holds, and it holds no
/// `</script>`.
pub fn to_js_string(s: &str) -> (r: String)
    ensures
        r@ == js_literal(s@),
        is_string_literal(r@),
        !contains(r@, SCRIPT_CLOSE@),
{
    let encoded = json_encode(s);
    proof {
        lemma_js_literal_is_a_literal(s@);
    }
    js_string_from(s, encoded)
}

/// The script string literal for the answer key `k`.
pub fn js_literal_for_key(k: &str) -> (r: String)
    ensures
        r@ == js_literal(k@),
        is_string_literal(r@),
        !contains(r@, SCRIPT_CLOSE@),
{
    to_js_string(k)
}

} // verus!
