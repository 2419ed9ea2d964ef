//! The plain block reader: a block ends at the first line that holds the
//! closing tag, whatever else the line holds.

use vstd::prelude::*;
use crate::scan::Block;
use crate::text::convert::{chars_of, push_all, text_of};
use crate::text::lines::strings;
use crate::text::search::{find, find_in};

verus! {

/// The block that ends before the first line of `lines[pos..]` that holds
/// `tag`, and how many lines were read, that line included. Every line of the
/// block is followed by a line feed. Where no line holds the tag, the block
/// takes all the lines.
pub open spec fn tagged_block(lines: Seq<Seq<char>>, pos: int, tag: Seq<char>) -> Block
    decreases lines.len() - pos,
{
    if pos < 0 || pos >= lines.len() {
        Block { text: Seq::empty(), used: 0 }
    } else if find(lines[pos], tag) >= 0 {
        Block { text: Seq::empty(), used: 1 }
    } else {
        Block {
            text: lines[pos].push('\n') + tagged_block(lines, pos + 1, tag).text,
            used: tagged_block(lines, pos + 1, tag).used + 1,
        }
    }
}

/// The block never reads past the last line.
pub proof fn lemma_tagged_block_used(lines: Seq<Seq<char>>, pos: int, tag: Seq<char>)
    requires
        0 <= pos <= lines.len(),
    ensures
        tagged_block(lines, pos, tag).used <= lines.len() - pos,
    decreases lines.len() - pos,
{
    if pos < lines.len() && find(lines[pos], tag) < 0 {
        lemma_tagged_block_used(lines, pos + 1, tag);
    }
}

/// Reads the block in `lines[start..]` that ends before the first line with
/// `closing_tag`. Gives the block and the index of the first line that was
/// not read.
pub fn parse_block(lines: &Vec<String>, start: usize, closing_tag: &str) -> (r: (String, usize))
    ensures
        r.0@ == tagged_block(strings(lines@), start as int, closing_tag@).text,
        r.1 == start + tagged_block(strings(lines@), start as int, closing_tag@).used,
{
    let ghost ls = strings(lines@);
    let tag = chars_of(closing_tag);
    let mut out: Vec<char> = Vec::new();
    let mut pos: usize = start;
    while pos < lines.len()
        invariant
            start <= pos,
            ls == strings(lines@),
            tag@ == closing_tag@,
            tagged_block(ls, start as int, tag@).text == out@ + tagged_block(
                ls,
                pos as int,
                tag@,
            ).text,
            tagged_block(ls, start as int, tag@).used == (pos - start) + tagged_block(
                ls,
                pos as int,
                tag@,
            ).used,
        decreases lines.len() - pos,
    {
        let line = chars_of(lines[pos].as_str());
        assert(ls[pos as int] == line@);
        let ghost before_out = out@;
        if find_in(&line, &tag).is_some() {
            assert(out@ =~= before_out + Seq::<char>::empty());
            return (text_of(&out), pos + 1);
        }
        push_all(&mut out, &line);
        out.push('\n');
        proof {
            let tail = tagged_block(ls, pos + 1, tag@).text;
            assert(before_out + (line@.push('\n') + tail) =~= out@ + tail);
        }
        pos += 1;
    }
    assert(out@ + Seq::<char>::empty() =~= out@);
    (text_of(&out), pos)
}

} // verus!
