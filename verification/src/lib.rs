//! A parser for properties documents: `key=value`, `key:value` and
//! `key value` lines, values that run on over lines ending in a backslash,
//! and groups in braces (`name.{` ... `}`) whose keys share a prefix.

use vstd::prelude::*;
use vstd::string::*;
use vstd::hash_map::StringHashMap;
use crate::parser::{entries, feed, find_first, initial, step, Parser, ParserState};

pub mod enums;
pub mod utils;
pub mod parser;
pub mod laws;

verus! {

/// The map that a parse hands out: from key to value, looked up by key.
pub type MapType = StringHashMap<String>;

/// The lines of a text: the parts between its newline characters. A text
/// with `n` newlines has `n + 1` lines, of which any may be empty.
pub open spec fn lines_of(text: Seq<char>) -> Seq<Seq<char>>
    decreases text.len(),
{
    if text.len() == 0 {
        seq![Seq::empty()]
    } else {
        let before = lines_of(text.drop_last());
        if text.last() == '\n' {
            before.push(Seq::empty())
        } else {
            before.drop_last().push(before.last().push(text.last()))
        }
    }
}

/// The entries of a document: what the parser holds after its lines, taken
/// in order from the initial state.
pub open spec fn parse_spec(body: Seq<char>) -> Map<Seq<char>, Seq<char>> {
    feed(initial(), lines_of(body)).results
}

/// Every text has at least one line.
pub proof fn lemma_lines_nonempty(text: Seq<char>)
    ensures
        lines_of(text).len() >= 1,
    decreases text.len(),
{
    if text.len() > 0 {
        lemma_lines_nonempty(text.drop_last());
    }
}

/// A text without a newline is one line.
pub proof fn lemma_lines_single(text: Seq<char>)
    requires
        forall|i: int| 0 <= i < text.len() ==> text[i] != '\n',
    ensures
        lines_of(text) == seq![text],
    decreases text.len(),
{
    if text.len() == 0 {
        assert(text =~= Seq::<char>::empty());
    } else {
        lemma_lines_single(text.drop_last());
        let before = lines_of(text.drop_last());
        assert(before.last().push(text.last()) =~= text);
        assert(before.drop_last().push(text) =~= seq![text]);
    }
}

/// The first line of a text is what stands before its first newline, and its
/// other lines are the lines of what stands behind it.
pub proof fn lemma_lines_split(head: Seq<char>, tail: Seq<char>)
    requires
        forall|i: int| 0 <= i < head.len() ==> head[i] != '\n',
    ensures
        lines_of(head + seq!['\n'] + tail) == seq![head] + lines_of(tail),
    decreases tail.len(),
{
    let text = head + seq!['\n'] + tail;
    if tail.len() == 0 {
        assert(text.drop_last() =~= head);
        lemma_lines_single(head);
        assert(seq![head].push(Seq::<char>::empty()) =~= seq![head] + lines_of(tail));
    } else {
        let shorter = tail.drop_last();
        assert(text.drop_last() =~= head + seq!['\n'] + shorter);
        lemma_lines_split(head, shorter);
        lemma_lines_nonempty(shorter);
        let rest = lines_of(shorter);
        let before = seq![head] + rest;
        assert(text.last() == tail.last());
        if tail.last() == '\n' {
            assert(before.push(Seq::<char>::empty()) =~= seq![head] + rest.push(Seq::empty()));
        } else {
            assert(before.drop_last() =~= seq![head] + rest.drop_last());
            assert(before.last() == rest.last());
            assert(before.drop_last().push(before.last().push(tail.last())) =~= seq![head]
                + rest.drop_last().push(rest.last().push(tail.last())));
        }
    }
}

/// Feeding a run of lines is feeding its first line, then the others.
pub proof fn lemma_feed_first(s: ParserState, first: Seq<char>, others: Seq<Seq<char>>)
    ensures
        feed(s, seq![first] + others) == feed(step(s, first), others),
    decreases others.len(),
{
    let lines = seq![first] + others;
    if others.len() == 0 {
        assert(lines.drop_last() =~= Seq::<Seq<char>>::empty());
        assert(lines.last() == first);
        assert(feed(s, lines.drop_last()) == s);
    } else {
        assert(lines.drop_last() =~= seq![first] + others.drop_last());
        assert(lines.last() == others.last());
        lemma_feed_first(s, first, others.drop_last());
    }
}

/// Parses a document held in memory: its lines go to a new parser, in
/// order, and the entries that the parser then holds come back.
pub fn parse_string(body: &str) -> (r: MapType)
    ensures
        entries(r@) == parse_spec(body@),
{
    let mut parser = Parser::new();
    let mut rest: &str = body;
    let mut len: usize = body.unicode_len();
    loop
        invariant
            parser.wf(),
            len == rest@.len(),
            feed(parser@, lines_of(rest@)) == feed(initial(), lines_of(body@)),
        decreases len,
    {
        let ghost before = parser@;
        match find_first(rest, '\n', '\n') {
            Some(at) => {
                let line = rest.substring_char(0, at);
                let behind = rest.substring_char(at + 1, len);
                proof {
                    assert(rest@ =~= line@ + seq!['\n'] + behind@);
                    lemma_lines_split(line@, behind@);
                    lemma_feed_first(before, line@, lines_of(behind@));
                }
                parser.parse_line(line);
                rest = behind;
                len = len - at - 1;
            },
            None => {
                proof {
                    lemma_lines_single(rest@);
                    lemma_feed_first(before, rest@, Seq::empty());
                    assert(seq![rest@] + Seq::<Seq<char>>::empty() =~= seq![rest@]);
                }
                parser.parse_line(rest);
                return parser.finish();
            },
        }
    }
}

} // verus!
