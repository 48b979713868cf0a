use nested_properties::enums::{Glyphs, DOUBLE_BACKSLASH};
use nested_properties::parser::{find_first, find_separator, has_open_end};
use nested_properties::utils::{leading_spaces, trailing_bound, trimmed, StringUtils};

#[test]
fn substring() {
    let hw = "Hello, world!";
    let str: String = hw.to_owned();
    assert_eq!(str.substring(7, 5), "world");
}

#[test]
fn trim() {
    let hw = "Hello, world!";
    let mut padded_hw = "   Hello, world!    ".to_owned();
    let mut str = hw.to_owned();
    assert_eq!(str.trim(), hw);
    assert_eq!(padded_hw.trim(), hw);
}

#[test]
fn trim_changes_the_text_in_place() {
    let mut padded = "  a  b ".to_owned();
    padded.trim();
    assert_eq!(padded, "a  b");
    let mut chained = "  a  b ".to_owned();
    chained.ltrim().rtrim();
    assert_eq!(chained, "a  b");
}

#[test]
fn continuation_marks() {
    assert!(has_open_end("abc\\"));
    assert!(has_open_end("\\"));
    assert!(!has_open_end("abc\\\\"));
    assert!(!has_open_end("\\\\"));
    assert!(!has_open_end("abc\\\\\\"));
    assert!(!has_open_end("abc"));
    assert!(!has_open_end(""));
}

#[test]
fn substring_stops_at_the_end() {
    let s = "abc".to_owned();
    assert_eq!(s.substring(1, 10), "bc");
    assert_eq!(s.substring(3, 1), "");
    assert_eq!(s.substring(5, 1), "");
    assert_eq!(s.substring(0, 0), "");
    assert_eq!(s.substring(1, usize::MAX), "bc");
}

#[test]
fn substring_counts_characters() {
    let s = "\u{e9}t\u{e9} chaud".to_owned();
    assert_eq!(s.substring(1, 2), "t\u{e9}");
}

#[test]
fn ltrim_and_rtrim_take_one_side() {
    let mut left = "  a b  ".to_owned();
    left.ltrim();
    assert_eq!(left, "a b  ");
    let mut right = "  a b  ".to_owned();
    right.rtrim();
    assert_eq!(right, "  a b");
}

#[test]
fn trim_leaves_other_whitespace() {
    let mut s = " \t x \n ".to_owned();
    s.trim();
    assert_eq!(s, "\t x \n");
}

#[test]
fn trim_of_spaces_only_is_empty() {
    let mut s = "    ".to_owned();
    s.trim();
    assert_eq!(s, "");
    let mut e = String::new();
    e.trim();
    assert_eq!(e, "");
}

#[test]
fn trimmed_borrows_the_middle() {
    assert_eq!(trimmed("  k = v  "), "k = v");
    assert_eq!(trimmed("   "), "");
    assert_eq!(trimmed("x"), "x");
    assert_eq!(trimmed(" \u{e9} "), "\u{e9}");
}

#[test]
fn bounds_of_the_trimmed_part() {
    assert_eq!(leading_spaces("   ab "), 3);
    assert_eq!(leading_spaces("    "), 4);
    assert_eq!(trailing_bound("   ab ", 3), 5);
    assert_eq!(trailing_bound("    ", 4), 4);
    assert_eq!(trailing_bound("    ", 0), 0);
}

#[test]
fn first_of_two_characters() {
    assert_eq!(find_first("a b:c=d", '=', ':'), Some(3));
    assert_eq!(find_first("a b:c=d", ' ', ' '), Some(1));
    assert_eq!(find_first("abc", '=', ':'), None);
    assert_eq!(find_first("", '=', ':'), None);
}

#[test]
fn separator_prefers_assignment() {
    assert_eq!(find_separator("key with spaces=value"), Some(15));
    assert_eq!(find_separator("key: a=b"), Some(3));
    assert_eq!(find_separator("key value"), Some(3));
    assert_eq!(find_separator("key"), None);
    assert_eq!(find_separator("\u{e9}\u{e9}=x"), Some(2));
}

#[test]
fn glyph_characters() {
    assert_eq!(Glyphs::Other.as_char(), '\0');
    assert_eq!(Glyphs::Space.as_char(), ' ');
    assert_eq!(Glyphs::CurlyLeft.as_char(), '{');
    assert_eq!(Glyphs::CurlyRight.as_char(), '}');
    assert_eq!(Glyphs::Backslash.as_char(), '\\');
    assert_eq!(Glyphs::Hash.as_char(), '#');
    assert_eq!(Glyphs::Bang.as_char(), '!');
    assert_eq!(Glyphs::Equal.as_char(), '=');
    assert_eq!(Glyphs::Colon.as_char(), ':');
}

#[test]
fn glyph_bytes_and_strings() {
    assert_eq!(Glyphs::Other.value(), 0);
    assert_eq!(Glyphs::Space.value(), 0x20);
    assert_eq!(Glyphs::CurlyLeft.value(), 0x7b);
    assert_eq!(Glyphs::CurlyRight.value(), 0x7d);
    assert_eq!(Glyphs::Backslash.value(), 0x5c);
    assert_eq!(Glyphs::Hash.value(), 0x23);
    assert_eq!(Glyphs::Bang.value(), 0x21);
    assert_eq!(Glyphs::Equal.value(), 0x3d);
    assert_eq!(Glyphs::Colon.value(), 0x3a);
    assert_eq!(Glyphs::Other.as_str(), "\0");
    assert_eq!(Glyphs::Space.as_str(), " ");
    assert_eq!(Glyphs::CurlyLeft.as_str(), "{");
    assert_eq!(Glyphs::CurlyRight.as_str(), "}");
    assert_eq!(Glyphs::Backslash.as_str(), "\\");
    assert_eq!(Glyphs::Hash.as_str(), "#");
    assert_eq!(Glyphs::Bang.as_str(), "!");
    assert_eq!(Glyphs::Equal.as_str(), "=");
    assert_eq!(Glyphs::Colon.as_str(), ":");
}

#[test]
fn glyph_from_byte() {
    let all = [
        Glyphs::Other,
        Glyphs::Space,
        Glyphs::CurlyLeft,
        Glyphs::CurlyRight,
        Glyphs::Backslash,
        Glyphs::Hash,
        Glyphs::Bang,
        Glyphs::Equal,
        Glyphs::Colon,
    ];
    for g in all {
        assert_eq!(Glyphs::from(g.value()), g);
    }
    assert_eq!(Glyphs::from(b'a'), Glyphs::Other);
    assert_eq!(Glyphs::from(0xff), Glyphs::Other);
}

#[test]
fn escaped_backslash_is_two_backslashes() {
    assert_eq!(DOUBLE_BACKSLASH, "\\\\");
    assert_eq!(DOUBLE_BACKSLASH.len(), 2);
    assert!(!has_open_end(DOUBLE_BACKSLASH));
}
