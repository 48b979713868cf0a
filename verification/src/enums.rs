//! The characters that carry meaning in a properties document.

use vstd::prelude::*;

verus! {

/// A character with a role in the line format, or `Other` for every other one.
#[derive(Clone, Copy, Debug, PartialEq, Eq, Structural)]
pub enum Glyphs {
    Other,
    Space,
    CurlyLeft,
    CurlyRight,
    Backslash,
    Hash,
    Bang,
    Equal,
    Colon,
}

/// A backslash that stands for itself at the end of a value: two backslashes.
pub const DOUBLE_BACKSLASH: &'static str = "\\\\";

impl Glyphs {
    /// The character that the glyph stands for; the NUL character for `Other`.
    pub open spec fn spec_char(self) -> char {
        match self {
            Glyphs::Other => '\0',
            Glyphs::Space => ' ',
            Glyphs::Backslash => '\\',
            Glyphs::CurlyLeft => '{',
            Glyphs::CurlyRight => '}',
            Glyphs::Bang => '!',
            Glyphs::Hash => '#',
            Glyphs::Equal => '=',
            Glyphs::Colon => ':',
        }
    }

    /// The byte that encodes the glyph's character.
    pub open spec fn spec_value(self) -> u8 {
        self.spec_char() as u8
    }

    /// The glyph whose byte is `byte`, or `Other` where no glyph has that byte.
    pub open spec fn spec_from(byte: u8) -> Glyphs {
        if byte == 0x20 {
            Glyphs::Space
        } else if byte == 0x5c {
            Glyphs::Backslash
        } else if byte == 0x7b {
            Glyphs::CurlyLeft
        } else if byte == 0x7d {
            Glyphs::CurlyRight
        } else if byte == 0x21 {
            Glyphs::Bang
        } else if byte == 0x23 {
            Glyphs::Hash
        } else if byte == 0x3d {
            Glyphs::Equal
        } else if byte == 0x3a {
            Glyphs::Colon
        } else {
            Glyphs::Other
        }
    }

    /// The glyph as a byte.
    pub fn value(&self) -> (r: u8)
        ensures
            r == self.spec_value(),
    {
        self.as_char() as u8
    }

    /// The glyph as a character.
    pub fn as_char(&self) -> (r: char)
        ensures
            r == self.spec_char(),
    {
        match *self {
            Glyphs::Other => '\0',
            Glyphs::Space => ' ',
            Glyphs::Backslash => '\\',
            Glyphs::CurlyLeft => '{',
            Glyphs::CurlyRight => '}',
            Glyphs::Bang => '!',
            Glyphs::Hash => '#',
            Glyphs::Equal => '=',
            Glyphs::Colon => ':',
        }
    }

    /// The glyph as a string of exactly one character.
    pub fn as_str(&self) -> (r: &'static str)
        ensures
            r@ == seq![self.spec_char()],
    {
        proof {
            reveal_strlit("\0");
            reveal_strlit(" ");
            reveal_strlit("\\");
            reveal_strlit("{");
            reveal_strlit("}");
            reveal_strlit("!");
            reveal_strlit("#");
            reveal_strlit("=");
            reveal_strlit(":");
        }
        let r = match *self {
            Glyphs::Other => "\0",
            Glyphs::Space => " ",
            Glyphs::Backslash => "\\",
            Glyphs::CurlyLeft => "{",
            Glyphs::CurlyRight => "}",
            Glyphs::Bang => "!",
            Glyphs::Hash => "#",
            Glyphs::Equal => "=",
            Glyphs::Colon => ":",
        };
        assert(r@ =~= seq![self.spec_char()]);
        r
    }

    /// Reads a byte as a glyph: the glyph with that byte, `Other` for a byte
    /// that belongs to no glyph.
    pub fn from(byte: u8) -> (r: Glyphs)
        ensures
            r == Glyphs::spec_from(byte),
            r != Glyphs::Other ==> r.spec_value() == byte,
            r == Glyphs::Other ==> forall|g: Glyphs| g != Glyphs::Other ==> g.spec_value() != byte,
    {
        if byte == Glyphs::Space.value() {
            Glyphs::Space
        } else if byte == Glyphs::Backslash.value() {
            Glyphs::Backslash
        } else if byte == Glyphs::CurlyLeft.value() {
            Glyphs::CurlyLeft
        } else if byte == Glyphs::CurlyRight.value() {
            Glyphs::CurlyRight
        } else if byte == Glyphs::Bang.value() {
            Glyphs::Bang
        } else if byte == Glyphs::Hash.value() {
            Glyphs::Hash
        } else if byte == Glyphs::Equal.value() {
            Glyphs::Equal
        } else if byte == Glyphs::Colon.value() {
            Glyphs::Colon
        } else {
            Glyphs::Other
        }
    }
}

/// Every glyph is read back from its own byte.
pub proof fn law_glyph_round_trip(g: Glyphs)
    ensures
        Glyphs::spec_from(g.spec_value()) == g,
{
}

/// Two glyphs with the same character are the same glyph.
pub proof fn law_glyph_char_injective(a: Glyphs, b: Glyphs)
    requires
        a.spec_char() == b.spec_char(),
    ensures
        a == b,
{
}

} // verus!
