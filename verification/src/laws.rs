//! What holds of the line format, proved from the state machine.

use vstd::prelude::*;
use crate::parser::{
    concat, continues, ends_open, feed, first_of, initial, separator, step, ParserState,
};
use crate::utils::trim_spec;
use crate::enums::DOUBLE_BACKSLASH;

verus! {

/// Whether a trimmed line is a comment.
pub open spec fn is_comment(line: Seq<char>) -> bool {
    line.len() > 0 && (line[0] == '#' || line[0] == '!')
}

/// Whether a character is one that the format reads: a separator, a brace or
/// a backslash.
pub open spec fn is_mark(c: char) -> bool {
    c == '=' || c == ':' || c == ' ' || c == '{' || c == '}' || c == '\\'
}

/// Whether a line, once trimmed, holds no separator, brace or backslash.
pub open spec fn is_plain(raw: Seq<char>) -> bool {
    forall|i: int| 0 <= i < trim_spec(raw).len() ==> !is_mark(#[trigger] trim_spec(raw)[i])
}

/// Whether a line, once trimmed, is neither empty nor a comment.
pub open spec fn has_content(raw: Seq<char>) -> bool {
    trim_spec(raw).len() > 0 && !is_comment(trim_spec(raw))
}

/// The trimmed lines with content among `lines`.
pub open spec fn content_keys(lines: Seq<Seq<char>>) -> Set<Seq<char>> {
    Set::new(
        |k: Seq<char>|
            exists|i: int|
                0 <= i < lines.len() && has_content(#[trigger] lines[i]) && trim_spec(lines[i])
                    == k,
    )
}

/// Whether the parser is between entries and outside every group.
pub open spec fn is_idle(s: ParserState) -> bool {
    !s.multiline && s.stack.len() == 0
}

/// Whether a trimmed line is read as key and value, or as a bare key: it is
/// not empty, closes no group in state `s`, and is no comment.
pub open spec fn is_entry_line(s: ParserState, line: Seq<char>) -> bool {
    &&& !s.multiline
    &&& line.len() > 0
    &&& !(s.stack.len() > 0 && line[0] == '}')
    &&& !is_comment(line)
}

/// The content that continuation lines add to a value: each trimmed line
/// without its last character, the continuation mark, followed by a newline.
pub open spec fn gathered(lines: Seq<Seq<char>>) -> Seq<char>
    decreases lines.len(),
{
    if lines.len() == 0 {
        Seq::empty()
    } else {
        gathered(lines.drop_last()) + trim_spec(lines.last()).drop_last() + seq!['\n']
    }
}

proof fn lemma_first_of_found(line: Seq<char>, a: char, b: char, i: int, p: int)
    requires
        0 <= i <= p < line.len(),
        line[p] == a || line[p] == b,
        forall|j: int| i <= j < p ==> line[j] != a && line[j] != b,
    ensures
        first_of(line, a, b, i) == Some(p),
    decreases p - i,
{
    if i < p {
        lemma_first_of_found(line, a, b, i + 1, p);
    }
}

proof fn lemma_first_of_absent(line: Seq<char>, a: char, b: char, i: int)
    requires
        0 <= i,
        forall|j: int| i <= j < line.len() ==> line[j] != a && line[j] != b,
    ensures
        first_of(line, a, b, i) == None::<int>,
    decreases line.len() - i,
{
    if i < line.len() {
        lemma_first_of_absent(line, a, b, i + 1);
    }
}

proof fn lemma_feed_push(s: ParserState, lines: Seq<Seq<char>>, raw: Seq<char>)
    ensures
        feed(s, lines.push(raw)) == step(feed(s, lines), raw),
{
    assert(lines.push(raw).drop_last() =~= lines);
}

/// A line splits at its first `=` or `:`, wherever its spaces are.
pub proof fn law_assignment_comes_first(line: Seq<char>, p: int)
    requires
        0 <= p < line.len(),
        line[p] == '=' || line[p] == ':',
        forall|j: int| 0 <= j < p ==> line[j] != '=' && line[j] != ':',
    ensures
        separator(line) == Some(p),
{
    lemma_first_of_found(line, '=', ':', 0, p);
}

/// A line without `=` and `:` splits at its first space.
pub proof fn law_space_comes_last(line: Seq<char>, p: int)
    requires
        0 <= p < line.len(),
        line[p] == ' ',
        forall|j: int| 0 <= j < p ==> line[j] != ' ',
        forall|j: int| 0 <= j < line.len() ==> line[j] != '=' && line[j] != ':',
    ensures
        separator(line) == Some(p),
{
    lemma_first_of_absent(line, '=', ':', 0);
    lemma_first_of_found(line, ' ', ' ', 0, p);
}

/// A line without `=`, `:` and space has no separator.
pub proof fn law_no_separator(line: Seq<char>)
    requires
        forall|j: int| 0 <= j < line.len() ==> line[j] != '=' && line[j] != ':' && line[j] != ' ',
    ensures
        separator(line) == None::<int>,
{
    lemma_first_of_absent(line, '=', ':', 0);
    lemma_first_of_absent(line, ' ', ' ', 0);
}

/// A line with a separator, whose value is neither empty nor left open,
/// gives one entry: the trimmed text before the separator, behind the prefix
/// of the open groups, maps to the trimmed text after it. Nothing else
/// changes but the key and value last read.
pub proof fn law_key_value(s: ParserState, raw: Seq<char>, p: int)
    requires
        is_entry_line(s, trim_spec(raw)),
        separator(trim_spec(raw)) == Some(p),
        trim_spec(trim_spec(raw).subrange(p + 1, trim_spec(raw).len() as int)).len() > 0,
        !continues(trim_spec(trim_spec(raw).subrange(p + 1, trim_spec(raw).len() as int))),
    ensures
        ({
            let line = trim_spec(raw);
            let key = concat(s.stack) + trim_spec(line.subrange(0, p));
            let val = trim_spec(line.subrange(p + 1, line.len() as int));
            step(s, raw) == (ParserState {
                key: key,
                val: val,
                results: s.results.insert(key, val),
                ..s
            })
        }),
{
}

/// Outside every group the key of such an entry is the trimmed text before
/// the separator, with nothing in front.
pub proof fn law_key_value_outside_groups(s: ParserState, raw: Seq<char>, p: int)
    requires
        is_idle(s),
        is_entry_line(s, trim_spec(raw)),
        separator(trim_spec(raw)) == Some(p),
        trim_spec(trim_spec(raw).subrange(p + 1, trim_spec(raw).len() as int)).len() > 0,
        !continues(trim_spec(trim_spec(raw).subrange(p + 1, trim_spec(raw).len() as int))),
    ensures
        ({
            let line = trim_spec(raw);
            let key = trim_spec(line.subrange(0, p));
            let val = trim_spec(line.subrange(p + 1, line.len() as int));
            step(s, raw).results == s.results.insert(key, val)
        }),
{
    let line = trim_spec(raw);
    assert(concat(s.stack) + trim_spec(line.subrange(0, p)) =~= trim_spec(line.subrange(0, p)));
}

/// A plain line that is neither empty nor a comment, met outside every group
/// and value, gives one entry: the trimmed line maps to the empty value.
pub proof fn law_plain_line(s: ParserState, raw: Seq<char>)
    requires
        is_idle(s),
        is_plain(raw),
        has_content(raw),
    ensures
        step(s, raw) == (ParserState {
            results: s.results.insert(trim_spec(raw), Seq::empty()),
            ..s
        }),
{
    let line = trim_spec(raw);
    assert forall|j: int| 0 <= j < line.len() implies line[j] != '=' && line[j] != ':' && line[j]
        != ' ' by {
        assert(!is_mark(line[j]));
    }
    law_no_separator(line);
    assert(!is_mark(line[line.len() - 1]));
    assert(concat(s.stack) + line =~= line);
}

/// A document of plain lines gives exactly one entry for each line that is
/// neither empty nor a comment: its key is the trimmed line, its value is
/// empty. The parser ends outside every group and value.
pub proof fn law_plain_document(lines: Seq<Seq<char>>)
    requires
        forall|i: int| 0 <= i < lines.len() ==> is_plain(#[trigger] lines[i]),
    ensures
        is_idle(feed(initial(), lines)),
        feed(initial(), lines).results.dom() == content_keys(lines),
        forall|k: Seq<char>| #[trigger]
            feed(initial(), lines).results.contains_key(k) ==> feed(initial(), lines).results[k]
                == Seq::<char>::empty(),
    decreases lines.len(),
{
    if lines.len() == 0 {
        assert(feed(initial(), lines).results.dom() =~= content_keys(lines));
    } else {
        let rest = lines.drop_last();
        let raw = lines.last();
        let before = feed(initial(), rest);
        let after = feed(initial(), lines);
        assert forall|i: int| 0 <= i < rest.len() implies is_plain(#[trigger] rest[i]) by {
            assert(rest[i] == lines[i]);
        }
        law_plain_document(rest);
        assert(is_plain(lines[lines.len() - 1]));
        if has_content(raw) {
            law_plain_line(before, raw);
        }
        assert forall|k: Seq<char>| content_keys(lines).contains(k) implies after.results.dom().contains(
            k,
        ) by {
            let i = choose|i: int|
                0 <= i < lines.len() && has_content(#[trigger] lines[i]) && trim_spec(lines[i])
                    == k;
            if i < rest.len() {
                assert(rest[i] == lines[i]);
                assert(content_keys(rest).contains(k));
            }
        }
        assert forall|k: Seq<char>| after.results.dom().contains(k) implies content_keys(
            lines,
        ).contains(k) by {
            if before.results.dom().contains(k) {
                assert(content_keys(rest).contains(k));
                let i = choose|i: int|
                    0 <= i < rest.len() && has_content(#[trigger] rest[i]) && trim_spec(rest[i])
                        == k;
                assert(rest[i] == lines[i]);
            } else {
                assert(has_content(lines[lines.len() - 1]));
            }
        }
        assert(after.results.dom() =~= content_keys(lines));
    }
}

/// A value that ends in a single backslash stays open: nothing is entered,
/// and the value waits with a newline in place of the backslash.
pub proof fn law_value_left_open(s: ParserState, raw: Seq<char>, p: int)
    requires
        is_entry_line(s, trim_spec(raw)),
        separator(trim_spec(raw)) == Some(p),
        continues(trim_spec(trim_spec(raw).subrange(p + 1, trim_spec(raw).len() as int))),
    ensures
        ({
            let line = trim_spec(raw);
            let key = concat(s.stack) + trim_spec(line.subrange(0, p));
            let val = trim_spec(line.subrange(p + 1, line.len() as int));
            step(s, raw) == (ParserState {
                key: key,
                val: val.drop_last() + seq!['\n'],
                multiline: true,
                ..s
            })
        }),
{
    let line = trim_spec(raw);
    let val = trim_spec(line.subrange(p + 1, line.len() as int));
    assert(val.drop_last().push('\n') =~= val.drop_last() + seq!['\n']);
}

/// An open value takes up every line that follows, each joined on by one
/// newline, and ends with the first line that does not end in a continuation
/// mark: after `middle`, lines that end in one, and `last`, a line with
/// content that does not, the pending key maps to the value so far, the
/// content of `middle` and the trimmed `last`. Groups and the other entries
/// stay as they were.
pub proof fn law_continuation(s: ParserState, middle: Seq<Seq<char>>, last: Seq<char>)
    requires
        s.multiline,
        forall|i: int| 0 <= i < middle.len() ==> ends_open(trim_spec(#[trigger] middle[i])),
        trim_spec(last).len() > 0,
        !ends_open(trim_spec(last)),
    ensures
        feed(s, middle) == (ParserState { val: s.val + gathered(middle), ..s }),
        feed(s, middle.push(last)) == (ParserState {
            val: s.val + gathered(middle) + trim_spec(last),
            multiline: false,
            results: s.results.insert(s.key, s.val + gathered(middle) + trim_spec(last)),
            ..s
        }),
    decreases middle.len(),
{
    if middle.len() == 0 {
        assert(s.val + gathered(middle) =~= s.val);
        assert(feed(s, middle) =~= (ParserState { val: s.val + gathered(middle), ..s }));
    } else {
        let rest = middle.drop_last();
        let line = trim_spec(middle.last());
        assert forall|i: int| 0 <= i < rest.len() implies ends_open(
            trim_spec(#[trigger] rest[i]),
        ) by {
            assert(rest[i] == middle[i]);
        }
        law_continuation(s, rest, last);
        assert(ends_open(trim_spec(middle[middle.len() - 1])));
        assert(s.val + gathered(rest) + line.drop_last() + seq!['\n'] =~= s.val + gathered(
            middle,
        ));
    }
    lemma_feed_push(s, middle, last);
}

/// A value that ends in two backslashes is complete: it is entered at once,
/// both backslashes kept, and no value is left open.
pub proof fn law_escaped_backslash(s: ParserState, raw: Seq<char>, p: int)
    requires
        is_entry_line(s, trim_spec(raw)),
        separator(trim_spec(raw)) == Some(p),
        ({
            let val = trim_spec(trim_spec(raw).subrange(p + 1, trim_spec(raw).len() as int));
            val.len() >= 2 && val[val.len() - 1] == '\\' && val[val.len() - 2] == '\\'
        }),
    ensures
        ({
            let line = trim_spec(raw);
            let key = concat(s.stack) + trim_spec(line.subrange(0, p));
            let val = trim_spec(line.subrange(p + 1, line.len() as int));
            &&& !step(s, raw).multiline
            &&& step(s, raw).results == s.results.insert(key, val)
        }),
{
}

/// A text that ends in the escaped backslash does not end in a continuation
/// mark, whatever stands before it.
pub proof fn law_double_backslash_is_no_mark(text: Seq<char>)
    ensures
        DOUBLE_BACKSLASH@ == seq!['\\', '\\'],
        !ends_open(text + DOUBLE_BACKSLASH@),
        !continues(text + DOUBLE_BACKSLASH@),
{
    reveal_strlit("\\\\");
}

/// A line without a separator that ends in `{` opens a group: the line
/// without the brace becomes the innermost segment, and nothing is entered.
pub proof fn law_group_opens(s: ParserState, raw: Seq<char>)
    requires
        is_entry_line(s, trim_spec(raw)),
        separator(trim_spec(raw)) == None::<int>,
        trim_spec(raw).last() == '{',
    ensures
        step(s, raw) == (ParserState { stack: s.stack.push(trim_spec(raw).drop_last()), ..s }),
{
}

/// Inside a group a line that starts with `}` closes the innermost group,
/// and nothing is entered.
pub proof fn law_group_closes(s: ParserState, raw: Seq<char>)
    requires
        !s.multiline,
        s.stack.len() > 0,
        trim_spec(raw).len() > 0,
        trim_spec(raw)[0] == '}',
    ensures
        step(s, raw) == (ParserState { stack: s.stack.drop_last(), ..s }),
{
}

/// A group around one entry: after a line that opens a group, a key and
/// value line, and a closing line, the key is entered behind the segments of
/// all groups around it, outermost first, with the new segment last; the
/// groups that were open before are open again.
pub proof fn law_group(s: ParserState, opening: Seq<char>, child: Seq<char>, closing: Seq<char>, p: int)
    requires
        is_entry_line(s, trim_spec(opening)),
        separator(trim_spec(opening)) == None::<int>,
        trim_spec(opening).last() == '{',
        trim_spec(child).len() > 0,
        trim_spec(child)[0] != '}',
        !is_comment(trim_spec(child)),
        separator(trim_spec(child)) == Some(p),
        trim_spec(trim_spec(child).subrange(p + 1, trim_spec(child).len() as int)).len() > 0,
        !continues(trim_spec(trim_spec(child).subrange(p + 1, trim_spec(child).len() as int))),
        trim_spec(closing).len() > 0,
        trim_spec(closing)[0] == '}',
    ensures
        ({
            let line = trim_spec(child);
            let segment = trim_spec(opening).drop_last();
            let key = concat(s.stack) + segment + trim_spec(line.subrange(0, p));
            let val = trim_spec(line.subrange(p + 1, line.len() as int));
            let after = feed(s, seq![opening, child, closing]);
            &&& after.results == s.results.insert(key, val)
            &&& after.stack == s.stack
            &&& !after.multiline
        }),
{
    let none = Seq::<Seq<char>>::empty();
    assert(seq![opening, child, closing] =~= none.push(opening).push(child).push(closing));
    lemma_feed_push(s, none, opening);
    lemma_feed_push(s, none.push(opening), child);
    lemma_feed_push(s, none.push(opening).push(child), closing);
    let inner = step(s, opening);
    law_group_opens(s, opening);
    let segment = trim_spec(opening).drop_last();
    assert(s.stack.push(segment).drop_last() =~= s.stack);
    law_key_value(inner, child, p);
    law_group_closes(step(inner, child), closing);
}

/// The segments that a run of opening lines names: each trimmed line without
/// its brace, in order.
pub open spec fn opened(openings: Seq<Seq<char>>) -> Seq<Seq<char>> {
    Seq::new(openings.len(), |i: int| trim_spec(openings[i]).drop_last())
}

/// Groups nest to any depth: after a run of lines that each open a group,
/// the open segments are those from before followed by the new ones in the
/// order of their lines, and nothing is entered.
pub proof fn law_groups_nest(s: ParserState, openings: Seq<Seq<char>>)
    requires
        !s.multiline,
        forall|i: int|
            0 <= i < openings.len() ==> {
                &&& trim_spec(#[trigger] openings[i]).len() > 0
                &&& trim_spec(openings[i])[0] != '}'
                &&& !is_comment(trim_spec(openings[i]))
                &&& separator(trim_spec(openings[i])) == None::<int>
                &&& trim_spec(openings[i]).last() == '{'
            },
    ensures
        feed(s, openings) == (ParserState { stack: s.stack + opened(openings), ..s }),
    decreases openings.len(),
{
    if openings.len() == 0 {
        assert(s.stack + opened(openings) =~= s.stack);
        assert(feed(s, openings) =~= (ParserState { stack: s.stack + opened(openings), ..s }));
    } else {
        let rest = openings.drop_last();
        let raw = openings.last();
        assert forall|i: int| 0 <= i < rest.len() implies {
            &&& trim_spec(#[trigger] rest[i]).len() > 0
            &&& trim_spec(rest[i])[0] != '}'
            &&& !is_comment(trim_spec(rest[i]))
            &&& separator(trim_spec(rest[i])) == None::<int>
            &&& trim_spec(rest[i]).last() == '{'
        } by {
            assert(rest[i] == openings[i]);
        }
        law_groups_nest(s, rest);
        assert(trim_spec(openings[openings.len() - 1]).len() > 0);
        law_group_opens(feed(s, rest), raw);
        assert((s.stack + opened(rest)).push(trim_spec(raw).drop_last()) =~= s.stack + opened(
            openings,
        ));
    }
}

/// Outside an open value a comment changes nothing: it enters nothing and
/// leaves the open groups as they are.
pub proof fn law_comment(s: ParserState, raw: Seq<char>)
    requires
        !s.multiline,
        is_comment(trim_spec(raw)),
    ensures
        step(s, raw) == s,
{
}

/// An empty line, or one of spaces only, changes nothing in any state.
pub proof fn law_empty_line(s: ParserState, raw: Seq<char>)
    requires
        trim_spec(raw).len() == 0,
    ensures
        step(s, raw) == s,
{
}

} // verus!
