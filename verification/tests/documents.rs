use nested_properties::parse_string;
use nested_properties::parser::Parser;

#[test]
fn basic_parse_string() {
    let body = "my-app.{
            service-in-use=\"{}\"\\
                is in use.
            ask-delete=You want to delete \"{}\"?
            ask-restart={} already has a running service.\\
                Do you want to restart it?
        }

        mail-service.{
            default=Which mail do you want to read?
            empty= You have no mail
        }

        # General YES/NO labels
        *.{
            yes=YES
            no=NO
        }";

    let hash = parse_string(body);

    assert_eq!(hash.len(), 7);
    assert_eq!(
        hash.get("my-app.service-in-use").unwrap(),
        "\"{}\"\nis in use."
    );
    assert_eq!(
        hash.get("my-app.ask-delete").unwrap(),
        "You want to delete \"{}\"?"
    );
    assert_eq!(
        hash.get("my-app.ask-restart").unwrap(),
        "{} already has a running service.\nDo you want to restart it?"
    );
    assert_eq!(
        hash.get("mail-service.default").unwrap(),
        "Which mail do you want to read?"
    );
    assert_eq!(hash.get("mail-service.empty").unwrap(), "You have no mail");
    assert_eq!(hash.get("*.yes").unwrap(), "YES");
    assert_eq!(hash.get("*.no").unwrap(), "NO");
}

#[test]
fn colon_test() {
    let body = "my-app.{
            service-in-use:\"{}\"\\
                is in use.
            ask-delete:   You want to delete \"{}\"?
            ask-restart  :  {} already has a running service.\\
                Do you want to restart it?
        }

        mail-service.{
            default        :Which mail do you want to read?
            empty: You have no mail
        }

        # General YES/NO labels
        *.{
            yes : YES
            no      :      NO
        }";

    let hash = parse_string(body);

    assert_eq!(hash.len(), 7);
    assert_eq!(
        hash.get("my-app.service-in-use").unwrap(),
        "\"{}\"\nis in use."
    );
    assert_eq!(
        hash.get("my-app.ask-delete").unwrap(),
        "You want to delete \"{}\"?"
    );
    assert_eq!(
        hash.get("my-app.ask-restart").unwrap(),
        "{} already has a running service.\nDo you want to restart it?"
    );
    assert_eq!(
        hash.get("mail-service.default").unwrap(),
        "Which mail do you want to read?"
    );
    assert_eq!(hash.get("mail-service.empty").unwrap(), "You have no mail");
    assert_eq!(hash.get("*.yes").unwrap(), "YES");
    assert_eq!(hash.get("*.no").unwrap(), "NO");
}

#[test]
fn no_multiline() {
    let body = "hello=world
            weather: good
            # this is a comment
            ! this is also a comment
            wumbology: the study of wumbo
            ";

    let hash = parse_string(body);

    assert_eq!(hash.len(), 3);
    assert_eq!(hash.get("hello").unwrap(), "world");
    assert_eq!(hash.get("weather").unwrap(), "good");
    assert_eq!(hash.get("wumbology").unwrap(), "the study of wumbo");
}

#[test]
fn single_pair() {
    let hash = parse_string("hello=world");
    assert_eq!(hash.len(), 1);
    assert_eq!(hash.get("hello").unwrap(), "world");
}

#[test]
fn one_group_one_child() {
    let hash = parse_string("a.{\nb=1\n}");
    assert_eq!(hash.len(), 1);
    assert_eq!(hash.get("a.b").unwrap(), "1");
}

#[test]
fn value_over_two_lines() {
    let hash = parse_string("k=v1\\\ncontinued");
    assert_eq!(hash.len(), 1);
    assert_eq!(hash.get("k").unwrap(), "v1\ncontinued");
}

#[test]
fn comment_then_pair() {
    let hash = parse_string("# comment\nreal=value");
    assert_eq!(hash.len(), 1);
    assert_eq!(hash.get("real").unwrap(), "value");
}

#[test]
fn bare_key_only() {
    let hash = parse_string("bareKeyOnly");
    assert_eq!(hash.len(), 1);
    assert_eq!(hash.get("bareKeyOnly").unwrap(), "");
}

#[test]
fn empty_document() {
    assert_eq!(parse_string("").len(), 0);
    assert_eq!(parse_string("\n\n   \n").len(), 0);
}

#[test]
fn plain_lines_become_bare_keys() {
    let hash = parse_string("  alpha  \n\n# note\nbeta\n! note\n   \ngamma");
    assert_eq!(hash.len(), 3);
    assert_eq!(hash.get("alpha").unwrap(), "");
    assert_eq!(hash.get("beta").unwrap(), "");
    assert_eq!(hash.get("gamma").unwrap(), "");
    assert!(hash.get("# note").is_none());
}

#[test]
fn space_separates_where_no_assignment_does() {
    let hash = parse_string("key value with words");
    assert_eq!(hash.len(), 1);
    assert_eq!(hash.get("key").unwrap(), "value with words");
}

#[test]
fn assignment_beats_an_earlier_space() {
    let hash = parse_string("key with spaces=value\nother words : here = there");
    assert_eq!(hash.len(), 2);
    assert_eq!(hash.get("key with spaces").unwrap(), "value");
    assert_eq!(hash.get("other words").unwrap(), "here = there");
}

#[test]
fn value_over_many_lines() {
    let hash = parse_string("k=a\\\n  b\\\n\n  c\\\nd\nnext=1");
    assert_eq!(hash.len(), 2);
    assert_eq!(hash.get("k").unwrap(), "a\nb\nc\nd");
    assert_eq!(hash.get("next").unwrap(), "1");
}

#[test]
fn escaped_backslash_ends_the_value() {
    let hash = parse_string("path=C:\\dir\\\\\nnext=1");
    assert_eq!(hash.len(), 2);
    assert_eq!(hash.get("path").unwrap(), "C:\\dir\\\\");
    assert_eq!(hash.get("next").unwrap(), "1");
}

#[test]
fn lone_backslash_is_a_value() {
    let hash = parse_string("k=\\\nnext=1");
    assert_eq!(hash.len(), 2);
    assert_eq!(hash.get("k").unwrap(), "\\");
    assert_eq!(hash.get("next").unwrap(), "1");
}

#[test]
fn groups_nest() {
    let hash = parse_string("a.{\nb.{\nc=1\n}\nd=2\nbare\n}\ne=3");
    assert_eq!(hash.len(), 4);
    assert_eq!(hash.get("a.b.c").unwrap(), "1");
    assert_eq!(hash.get("a.d").unwrap(), "2");
    assert_eq!(hash.get("a.bare").unwrap(), "");
    assert_eq!(hash.get("e").unwrap(), "3");
}

#[test]
fn closing_line_closes_one_group_whatever_follows_the_brace() {
    let hash = parse_string("a.{\nb.{\n} } trailing\nc=1\n}\nd=2");
    assert_eq!(hash.len(), 2);
    assert_eq!(hash.get("a.c").unwrap(), "1");
    assert_eq!(hash.get("d").unwrap(), "2");
}

#[test]
fn comment_inside_open_value_is_content() {
    let hash = parse_string("k=v\\\n# c");
    assert_eq!(hash.len(), 1);
    assert_eq!(hash.get("k").unwrap(), "v\n# c");
}

#[test]
fn comment_inside_group_changes_nothing() {
    let hash = parse_string("a.{\n# note\n! note\nb=1\n}");
    assert_eq!(hash.len(), 1);
    assert_eq!(hash.get("a.b").unwrap(), "1");
}

#[test]
fn separator_without_value_enters_line_and_key() {
    let hash = parse_string("a.{\nfoo =\n}");
    assert_eq!(hash.len(), 2);
    assert_eq!(hash.get("foo =").unwrap(), "");
    assert_eq!(hash.get("a.foo").unwrap(), "");
}

#[test]
fn group_opened_behind_a_separator_carries_the_prefix() {
    let hash = parse_string("a.{\nb.{=\nc=1\n}\nd=2\n}");
    assert_eq!(hash.len(), 2);
    assert_eq!(hash.get("a.a.b.c").unwrap(), "1");
    assert_eq!(hash.get("a.d").unwrap(), "2");
}

#[test]
fn closing_brace_outside_groups_is_a_bare_key() {
    let hash = parse_string("}\na=1");
    assert_eq!(hash.len(), 2);
    assert_eq!(hash.get("}").unwrap(), "");
    assert_eq!(hash.get("a").unwrap(), "1");
}

#[test]
fn only_spaces_are_trimmed() {
    let hash = parse_string("\tk = v\t");
    assert_eq!(hash.len(), 1);
    assert_eq!(hash.get("\tk").unwrap(), "v\t");
}

#[test]
fn later_entry_replaces_earlier() {
    let hash = parse_string("k=1\nk=2");
    assert_eq!(hash.len(), 1);
    assert_eq!(hash.get("k").unwrap(), "2");
}

#[test]
fn text_beyond_ascii_is_kept() {
    let hash = parse_string("gr\u{fc}\u{df}e.{\n  na\u{ef}ve = caf\u{e9} \u{2603}\n}");
    assert_eq!(hash.len(), 1);
    assert_eq!(hash.get("gr\u{fc}\u{df}e.na\u{ef}ve").unwrap(), "caf\u{e9} \u{2603}");
}

#[test]
fn open_value_at_the_end_is_dropped() {
    let hash = parse_string("a=1\nk=v\\");
    assert_eq!(hash.len(), 1);
    assert_eq!(hash.get("a").unwrap(), "1");
}

#[test]
fn parser_takes_lines_one_by_one() {
    let mut parser = Parser::new();
    parser.parse_line("  site.{");
    parser.parse_line("name = example");
    parser.parse_line("motto: first\\");
    parser.parse_line("   second");
    parser.parse_line("}");
    parser.parse_line("listen 80");
    let hash = parser.finish();
    assert_eq!(hash.len(), 3);
    assert_eq!(hash.get("site.name").unwrap(), "example");
    assert_eq!(hash.get("site.motto").unwrap(), "first\nsecond");
    assert_eq!(hash.get("listen").unwrap(), "80");
}

#[test]
fn fresh_parser_holds_nothing() {
    assert_eq!(Parser::new().finish().len(), 0);
}

#[test]
fn line_without_value_is_kept_as_it_came() {
    let hash = parse_string("  foo=  \nbar:");
    assert_eq!(hash.len(), 4);
    assert_eq!(hash.get("  foo=  ").unwrap(), "");
    assert_eq!(hash.get("foo").unwrap(), "");
    assert_eq!(hash.get("bar:").unwrap(), "");
    assert_eq!(hash.get("bar").unwrap(), "");
}

#[test]
fn escaped_backslash_ends_an_open_value() {
    let hash = parse_string("k=a\\\nb\\\\\nc");
    assert_eq!(hash.len(), 2);
    assert_eq!(hash.get("k").unwrap(), "a\nb\\\\");
    assert_eq!(hash.get("c").unwrap(), "");
}

#[test]
fn lone_backslash_line_keeps_the_value_open() {
    let hash = parse_string("k=a\\\n\\\nb");
    assert_eq!(hash.len(), 1);
    assert_eq!(hash.get("k").unwrap(), "a\n\nb");
}

#[test]
fn separators_and_braces_inside_open_value_are_content() {
    let hash = parse_string("k=a\\\n}\\\nx=y\\\nz.{");
    assert_eq!(hash.len(), 1);
    assert_eq!(hash.get("k").unwrap(), "a\n}\nx=y\nz.{");
}
