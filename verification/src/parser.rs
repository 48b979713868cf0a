//! The line-by-line state machine that turns a properties document into a
//! flat map from dotted keys to values.
//!
//! The machine is first given as a function on mathematical values
//! ([`step`]); [`Parser::parse_line`] is the executable form of it.

use vstd::prelude::*;
use vstd::string::*;
use vstd::hash_map::StringHashMap;
use crate::enums::Glyphs;
use crate::utils::{trim_spec, trimmed};

verus! {

/// What a parser holds between two lines.
#[verifier::ext_equal]
pub struct ParserState {
    /// The entries found so far.
    pub results: Map<Seq<char>, Seq<char>>,
    /// Whether the last value ended in a continuation mark and is still open.
    pub multiline: bool,
    /// The key read last.
    pub key: Seq<char>,
    /// The value read last; while `multiline` holds, the part gathered so far.
    pub val: Seq<char>,
    /// The segments of the open groups, outermost first.
    pub stack: Seq<Seq<char>>,
}

/// The segments joined in order, with nothing between them.
pub open spec fn concat(segments: Seq<Seq<char>>) -> Seq<char>
    decreases segments.len(),
{
    if segments.len() == 0 {
        Seq::empty()
    } else {
        concat(segments.drop_last()) + segments.last()
    }
}

/// The index of the first character at or after `i` that is `a` or `b`.
pub open spec fn first_of(line: Seq<char>, a: char, b: char, i: int) -> Option<int>
    decreases line.len() - i,
{
    if i < 0 || i >= line.len() {
        None
    } else if line[i] == a || line[i] == b {
        Some(i)
    } else {
        first_of(line, a, b, i + 1)
    }
}

/// Where a line splits into key and value: at its first `=` or `:`, and only
/// where it has neither, at its first space.
pub open spec fn separator(line: Seq<char>) -> Option<int> {
    match first_of(line, '=', ':', 0) {
        Some(p) => Some(p),
        None => first_of(line, ' ', ' ', 0),
    }
}

/// Whether a text ends in a continuation mark: a backslash that no other
/// backslash stands before. Two backslashes at the end are an escaped
/// backslash, and no mark.
pub open spec fn ends_open(text: Seq<char>) -> bool {
    &&& text.len() > 0
    &&& text[text.len() - 1] == '\\'
    &&& !(text.len() > 1 && text[text.len() - 2] == '\\')
}

/// Whether a value behind a separator asks for more lines: it ends in a
/// continuation mark and is longer than that one character.
pub open spec fn continues(val: Seq<char>) -> bool {
    val.len() > 1 && ends_open(val)
}

/// The state before the first line.
pub open spec fn initial() -> ParserState {
    ParserState {
        results: Map::empty(),
        multiline: false,
        key: Seq::empty(),
        val: Seq::empty(),
        stack: Seq::empty(),
    }
}

/// A line met while a value is open. It is content, whatever it looks like:
/// one that ends in a continuation mark is added without the mark, followed
/// by a newline, and the value stays open; any other is added whole and
/// closes the value, which is then entered under the pending key.
pub open spec fn after_continuation(s: ParserState, line: Seq<char>) -> ParserState
    recommends
        line.len() > 0,
{
    if ends_open(line) {
        ParserState { val: s.val + line.drop_last() + seq!['\n'], ..s }
    } else {
        ParserState {
            val: s.val + line,
            multiline: false,
            results: s.results.insert(s.key, s.val + line),
            ..s
        }
    }
}

/// The innermost group is closed.
pub open spec fn after_close(s: ParserState) -> ParserState
    recommends
        s.stack.len() > 0,
{
    ParserState { stack: s.stack.drop_last(), ..s }
}

/// A line whose trimmed form has a separator at `p`. Key and value are the
/// trimmed parts on either side, the key behind the prefix of the open groups.
///
/// With an empty value, a key that ends in `{` opens a group named by the key
/// without the brace; any other enters the whole line as it came, untrimmed,
/// as a key of its own, and then the key, both with an empty value. A value
/// that [`continues`] is kept open, its backslash replaced by a newline. Any
/// other value is entered under the key.
pub open spec fn after_split(s: ParserState, raw: Seq<char>, p: int) -> ParserState
    recommends
        0 <= p < trim_spec(raw).len(),
{
    let line = trim_spec(raw);
    let key = concat(s.stack) + trim_spec(line.subrange(0, p));
    let val = trim_spec(line.subrange(p + 1, line.len() as int));
    if val.len() == 0 {
        if key.len() > 0 && key.last() == '{' {
            ParserState { key: key, val: val, stack: s.stack.push(key.drop_last()), ..s }
        } else {
            ParserState {
                key: key,
                val: val,
                results: s.results.insert(raw, Seq::empty()).insert(key, val),
                ..s
            }
        }
    } else if continues(val) {
        ParserState { key: key, val: val.drop_last().push('\n'), multiline: true, ..s }
    } else {
        ParserState { key: key, val: val, results: s.results.insert(key, val), ..s }
    }
}

/// A line without a separator. One that ends in `{` opens a group named by
/// the rest of the line; any other is a key with an empty value, entered
/// behind the prefix of the open groups.
pub open spec fn after_bare(s: ParserState, line: Seq<char>) -> ParserState
    recommends
        line.len() > 0,
{
    if line.last() == '{' {
        ParserState { stack: s.stack.push(line.drop_last()), ..s }
    } else {
        ParserState { results: s.results.insert(concat(s.stack) + line, Seq::empty()), ..s }
    }
}

/// The state after one more line. The line is trimmed first, and exactly one
/// of these applies, the first that fits: an empty line changes nothing; a
/// line met while a value is open continues it; a line that starts with `}`
/// while a group is open closes the innermost group; a line that starts with
/// `#` or `!` is a comment; a line with a separator is split; any other line
/// is a bare key.
pub open spec fn step(s: ParserState, raw: Seq<char>) -> ParserState {
    let line = trim_spec(raw);
    if line.len() == 0 {
        s
    } else if s.multiline {
        after_continuation(s, line)
    } else if s.stack.len() > 0 && line[0] == '}' {
        after_close(s)
    } else if line[0] == '#' || line[0] == '!' {
        s
    } else {
        match separator(line) {
            Some(p) => after_split(s, raw, p),
            None => after_bare(s, line),
        }
    }
}

/// The state after a run of lines, taken in order.
pub open spec fn feed(s: ParserState, lines: Seq<Seq<char>>) -> ParserState
    decreases lines.len(),
{
    if lines.len() == 0 {
        s
    } else {
        step(feed(s, lines.drop_last()), lines.last())
    }
}

/// What a stored map holds, each value as its characters.
pub open spec fn entries(m: Map<Seq<char>, String>) -> Map<Seq<char>, Seq<char>> {
    Map::new(|k: Seq<char>| m.contains_key(k), |k: Seq<char>| m[k]@)
}

/// The stored segments, each as its characters.
pub open spec fn segments(v: Seq<String>) -> Seq<Seq<char>> {
    Seq::new(v.len(), |i: int| v[i]@)
}

proof fn lemma_entries_insert(m: Map<Seq<char>, String>, k: Seq<char>, v: String)
    ensures
        entries(m.insert(k, v)) == entries(m).insert(k, v@),
{
    assert(entries(m.insert(k, v)) =~= entries(m).insert(k, v@));
}

proof fn lemma_concat_push(stack: Seq<Seq<char>>, segment: Seq<char>)
    ensures
        concat(stack.push(segment)) == concat(stack) + segment,
{
    assert(stack.push(segment).drop_last() =~= stack);
}

/// The index of the first `a` or `b` in `line`, if it has one.
pub fn find_first(line: &str, a: char, b: char) -> (r: Option<usize>)
    ensures
        match r {
            Some(p) => {
                &&& p < line@.len()
                &&& first_of(line@, a, b, 0) == Some(p as int)
                &&& line@[p as int] == a || line@[p as int] == b
                &&& forall|j: int| 0 <= j < p ==> line@[j] != a && line@[j] != b
            },
            None => {
                &&& first_of(line@, a, b, 0) == None::<int>
                &&& forall|j: int| 0 <= j < line@.len() ==> line@[j] != a && line@[j] != b
            },
        },
{
    let n: usize = line.unicode_len();
    let mut i: usize = 0;
    while i < n
        invariant
            i <= n,
            n == line@.len(),
            first_of(line@, a, b, 0) == first_of(line@, a, b, i as int),
            forall|j: int| 0 <= j < i ==> line@[j] != a && line@[j] != b,
        decreases n - i,
    {
        let c: char = line.get_char(i);
        if c == a || c == b {
            return Some(i);
        }
        i = i + 1;
    }
    None
}

/// Whether `text` ends in a continuation mark.
pub fn has_open_end(text: &str) -> (r: bool)
    ensures
        r == ends_open(text@),
{
    let n: usize = text.unicode_len();
    let backslash: char = Glyphs::Backslash.as_char();
    n > 0 && text.get_char(n - 1) == backslash && !(n > 1 && text.get_char(n - 2) == backslash)
}

/// Where `line` splits into key and value.
pub fn find_separator(line: &str) -> (r: Option<usize>)
    ensures
        match r {
            Some(p) => p < line@.len() && separator(line@) == Some(p as int),
            None => separator(line@) == None::<int>,
        },
{
    match find_first(line, Glyphs::Equal.as_char(), Glyphs::Colon.as_char()) {
        Some(p) => Some(p),
        None => find_first(line, Glyphs::Space.as_char(), Glyphs::Space.as_char()),
    }
}

/// A parser for one document. Lines go in one by one, in document order; the
/// entries come out at the end.
pub struct Parser {
    results: StringHashMap<String>,
    multiline: bool,
    trailing_append: bool,
    key: String,
    val: String,
    prefix: String,
    prefix_stack: Vec<String>,
}

impl View for Parser {
    type V = ParserState;

    closed spec fn view(&self) -> ParserState {
        ParserState {
            results: entries(self.results@),
            multiline: self.multiline,
            key: self.key@,
            val: self.val@,
            stack: segments(self.prefix_stack@),
        }
    }
}

impl Parser {
    /// The cached prefix is the open segments joined, and the group flag is
    /// set exactly while a group is open.
    pub closed spec fn wf(&self) -> bool {
        &&& self.trailing_append == (self.prefix_stack@.len() > 0)
        &&& self.prefix@ == concat(segments(self.prefix_stack@))
    }

    /// A parser that has seen no line.
    pub fn new() -> (r: Self)
        ensures
            r.wf(),
            r@ == initial(),
    {
        let r = Self {
            results: StringHashMap::new(),
            multiline: false,
            trailing_append: false,
            key: String::new(),
            val: String::new(),
            prefix: String::new(),
            prefix_stack: Vec::new(),
        };
        assert(r@ =~= initial());
        r
    }

    /// Takes the next line of the document.
    pub fn parse_line(&mut self, raw: &str)
        requires
            old(self).wf(),
        ensures
            final(self).wf(),
            final(self)@ == step(old(self)@, raw@),
    {
        let line = trimmed(raw);
        let n: usize = line.unicode_len();
        if n == 0 {
            return ;
        }
        let first: char = line.get_char(0);
        if self.multiline {
            self.continue_value(line);
        } else if self.trailing_append && first == Glyphs::CurlyRight.as_char() {
            self.close_group();
        } else if first != Glyphs::Hash.as_char() && first != Glyphs::Bang.as_char() {
            match find_separator(line) {
                Some(p) => self.split_line(raw, line, p),
                None => self.bare_line(line),
            }
        }
    }

    /// Adds a line to the value that is open.
    fn continue_value(&mut self, line: &str)
        requires
            old(self).wf(),
            line@.len() > 0,
        ensures
            final(self).wf(),
            final(self)@ == after_continuation(old(self)@, line@),
    {
        if has_open_end(line) {
            let n: usize = line.unicode_len();
            proof {
                reveal_strlit("\n");
            }
            self.val.append(line.substring_char(0, n - 1));
            self.val.append("\n");
            assert(self@ =~= after_continuation(old(self)@, line@));
        } else {
            self.val.append(line);
            self.multiline = false;
            let key = self.key.clone();
            let val = self.val.clone();
            proof {
                lemma_entries_insert(self.results@, key@, val);
            }
            self.results.insert(key, val);
            assert(self@ =~= after_continuation(old(self)@, line@));
        }
    }

    /// Closes the innermost group and joins what is left of the prefix anew.
    fn close_group(&mut self)
        requires
            old(self).wf(),
            old(self)@.stack.len() > 0,
        ensures
            final(self).wf(),
            final(self)@ == after_close(old(self)@),
    {
        self.prefix_stack.pop();
        let depth: usize = self.prefix_stack.len();
        let mut prefix = String::new();
        let mut i: usize = 0;
        assert(prefix@ =~= concat(segments(self.prefix_stack@.take(0))));
        while i < depth
            invariant
                i <= depth,
                depth == self.prefix_stack@.len(),
                prefix@ == concat(segments(self.prefix_stack@.take(i as int))),
            decreases depth - i,
        {
            proof {
                let before = segments(self.prefix_stack@.take(i as int));
                let after = segments(self.prefix_stack@.take(i + 1));
                assert(after =~= before.push(self.prefix_stack@[i as int]@));
                lemma_concat_push(before, self.prefix_stack@[i as int]@);
            }
            prefix.append(self.prefix_stack[i].as_str());
            i = i + 1;
        }
        assert(self.prefix_stack@.take(depth as int) =~= self.prefix_stack@);
        self.prefix = prefix;
        self.trailing_append = depth > 0;
        assert(self@ =~= after_close(old(self)@));
    }

    /// Opens a group under `segment`.
    fn open_group(&mut self, segment: String)
        requires
            old(self).wf(),
        ensures
            final(self).wf(),
            final(self)@ == (ParserState {
                stack: old(self)@.stack.push(segment@),
                ..old(self)@
            }),
    {
        proof {
            lemma_concat_push(segments(self.prefix_stack@), segment@);
            assert(segments(self.prefix_stack@.push(segment)) =~= segments(
                self.prefix_stack@,
            ).push(segment@));
        }
        self.trailing_append = true;
        self.prefix.append(segment.as_str());
        self.prefix_stack.push(segment);
        assert(self@ =~= (ParserState {
            stack: old(self)@.stack.push(segment@),
            ..old(self)@
        }));
    }

    /// Enters `key` with `val`.
    fn enter(&mut self, key: String, val: String)
        requires
            old(self).wf(),
        ensures
            final(self).wf(),
            final(self)@ == (ParserState {
                results: old(self)@.results.insert(key@, val@),
                ..old(self)@
            }),
    {
        proof {
            lemma_entries_insert(self.results@, key@, val);
        }
        self.results.insert(key, val);
        assert(self@ =~= (ParserState {
            results: old(self)@.results.insert(key@, val@),
            ..old(self)@
        }));
    }

    /// Takes a line that came as `raw` and, trimmed to `line`, splits at `p`.
    fn split_line(&mut self, raw: &str, line: &str, p: usize)
        requires
            old(self).wf(),
            line@ == trim_spec(raw@),
            p < line@.len(),
        ensures
            final(self).wf(),
            final(self)@ == after_split(old(self)@, raw@, p as int),
    {
        let n: usize = line.unicode_len();
        let val_part = trimmed(line.substring_char(p + 1, n));
        let mut key = self.prefix.clone();
        key.append(trimmed(line.substring_char(0, p)));
        let key_len: usize = key.as_str().unicode_len();
        let val_len: usize = val_part.unicode_len();
        let brace: char = Glyphs::CurlyLeft.as_char();
        if val_len == 0 {
            assert(val_part@ =~= Seq::<char>::empty());
            if key_len > 0 && key.as_str().get_char(key_len - 1) == brace {
                let segment = key.as_str().substring_char(0, key_len - 1).to_owned();
                self.key = key;
                self.val = String::new();
                self.open_group(segment);
                assert(self@ =~= after_split(old(self)@, raw@, p as int));
            } else {
                self.enter(raw.to_owned(), String::new());
                self.enter(key.clone(), String::new());
                self.key = key;
                self.val = String::new();
                assert(self@ =~= after_split(old(self)@, raw@, p as int));
            }
        } else if val_len > 1 && has_open_end(val_part) {
            proof {
                reveal_strlit("\n");
            }
            let mut val = val_part.substring_char(0, val_len - 1).to_owned();
            val.append("\n");
            self.key = key;
            self.val = val;
            self.multiline = true;
            assert(self@ =~= after_split(old(self)@, raw@, p as int));
        } else {
            self.enter(key.clone(), val_part.to_owned());
            self.key = key;
            self.val = val_part.to_owned();
            assert(self@ =~= after_split(old(self)@, raw@, p as int));
        }
    }

    /// Takes a line that has no separator.
    fn bare_line(&mut self, line: &str)
        requires
            old(self).wf(),
            line@.len() > 0,
        ensures
            final(self).wf(),
            final(self)@ == after_bare(old(self)@, line@),
    {
        let n: usize = line.unicode_len();
        if line.get_char(n - 1) == Glyphs::CurlyLeft.as_char() {
            self.open_group(line.substring_char(0, n - 1).to_owned());
        } else {
            let mut key = self.prefix.clone();
            key.append(line);
            self.enter(key, String::new());
        }
    }

    /// Ends the document and hands out the entries. A value that is still
    /// open is not among them.
    pub fn finish(self) -> (r: StringHashMap<String>)
        ensures
            entries(r@) == self@.results,
    {
        self.results
    }
}

} // verus!
