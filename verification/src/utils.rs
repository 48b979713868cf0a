//! Trimming and slicing of text, counted in characters.

use vstd::prelude::*;
use vstd::string::*;
use crate::enums::Glyphs;

verus! {

/// `s` without the spaces it starts with.
pub open spec fn ltrim_spec(s: Seq<char>) -> Seq<char>
    decreases s.len(),
{
    if s.len() > 0 && s[0] == ' ' {
        ltrim_spec(s.drop_first())
    } else {
        s
    }
}

/// `s` without the spaces it ends with.
pub open spec fn rtrim_spec(s: Seq<char>) -> Seq<char>
    decreases s.len(),
{
    if s.len() > 0 && s.last() == ' ' {
        rtrim_spec(s.drop_last())
    } else {
        s
    }
}

/// `s` without the spaces around it. Only the space character counts.
pub open spec fn trim_spec(s: Seq<char>) -> Seq<char> {
    rtrim_spec(ltrim_spec(s))
}

/// At most `len` characters of `s`, from the character at `start` on; fewer
/// where `s` ends before.
pub open spec fn substring_spec(s: Seq<char>, start: nat, len: nat) -> Seq<char> {
    let from = if start <= s.len() { start } else { s.len() };
    let to = if start + len <= s.len() { start + len } else { s.len() };
    s.subrange(from as int, to as int)
}

/// The number of spaces that `s` starts with.
pub fn leading_spaces(s: &str) -> (i: usize)
    ensures
        i <= s@.len(),
        ltrim_spec(s@) == s@.subrange(i as int, s@.len() as int),
{
    let n: usize = s.unicode_len();
    let space: char = Glyphs::Space.as_char();
    let mut i: usize = 0;
    assert(s@.subrange(0, n as int) =~= s@);
    while i < n && s.get_char(i) == space
        invariant
            i <= n,
            n == s@.len(),
            space == ' ',
            ltrim_spec(s@) == ltrim_spec(s@.subrange(i as int, n as int)),
        decreases n - i,
    {
        assert(s@.subrange(i as int, n as int).drop_first() =~= s@.subrange(i + 1, n as int));
        i = i + 1;
    }
    i
}

/// The index just behind the last character of `s` that is no space, looking
/// no further back than `from`.
pub fn trailing_bound(s: &str, from: usize) -> (j: usize)
    requires
        from <= s@.len(),
    ensures
        from <= j <= s@.len(),
        rtrim_spec(s@.subrange(from as int, s@.len() as int)) == s@.subrange(from as int, j as int),
{
    let n: usize = s.unicode_len();
    let space: char = Glyphs::Space.as_char();
    let mut j: usize = n;
    while j > from && s.get_char(j - 1) == space
        invariant
            from <= j <= n,
            n == s@.len(),
            space == ' ',
            rtrim_spec(s@.subrange(from as int, n as int)) == rtrim_spec(
                s@.subrange(from as int, j as int),
            ),
        decreases j,
    {
        assert(s@.subrange(from as int, j as int).drop_last() =~= s@.subrange(
            from as int,
            j - 1,
        ));
        j = j - 1;
    }
    j
}

/// The part of `s` between the spaces around it.
pub fn trimmed(s: &str) -> (r: &str)
    ensures
        r@ == trim_spec(s@),
{
    let i: usize = leading_spaces(s);
    let j: usize = trailing_bound(s, i);
    s.substring_char(i, j)
}

/// Helpers on owned text that the parser leans on.
pub trait StringUtils: Sized {
    /// The characters of the text.
    spec fn text(&self) -> Seq<char>;

    /// Removes the spaces at the start, in place, and hands the text back.
    fn ltrim(&mut self) -> (r: &mut Self)
        ensures
            r.text() == ltrim_spec(old(self).text()),
            *final(self) == *final(r),
    ;

    /// Removes the spaces at the end, in place, and hands the text back.
    fn rtrim(&mut self) -> (r: &mut Self)
        ensures
            r.text() == rtrim_spec(old(self).text()),
            *final(self) == *final(r),
    ;

    /// Removes the spaces at both ends, in place, and hands the text back.
    fn trim(&mut self) -> (r: &mut Self)
        ensures
            r.text() == trim_spec(old(self).text()),
            *final(self) == *final(r),
    ;

    /// A copy of up to `len` characters, starting at character `start`.
    fn substring(&self, start: usize, len: usize) -> (r: Self)
        ensures
            r.text() == substring_spec(self.text(), start as nat, len as nat),
    ;
}

impl StringUtils for String {
    open spec fn text(&self) -> Seq<char> {
        self@
    }

    fn ltrim(&mut self) -> (r: &mut Self) {
        let n: usize = self.as_str().unicode_len();
        let i: usize = leading_spaces(self.as_str());
        let kept = self.as_str().substring_char(i, n).to_owned();
        *self = kept;
        self
    }

    fn rtrim(&mut self) -> (r: &mut Self) {
        let j: usize = trailing_bound(self.as_str(), 0);
        proof {
            assert(self@.subrange(0, self@.len() as int) =~= self@);
        }
        let kept = self.as_str().substring_char(0, j).to_owned();
        *self = kept;
        self
    }

    fn trim(&mut self) -> (r: &mut Self) {
        self.ltrim();
        self.rtrim();
        self
    }

    fn substring(&self, start: usize, len: usize) -> (r: Self) {
        let n: usize = self.as_str().unicode_len();
        let from: usize = if start <= n { start } else { n };
        let to: usize = if len <= n - from { from + len } else { n };
        self.as_str().substring_char(from, to).to_owned()
    }
}

} // verus!
