use log_prettifier::json::{Field, Json};
use log_prettifier::prettifier::Prettifier;
use log_prettifier::render::{interpret_text, render_value, Style};

fn text(s: &str) -> Json {
    Json::String(s.to_string())
}

fn number(s: &str) -> Json {
    Json::Number(s.to_string())
}

fn field(key: &str, value: Json) -> Field {
    Field { key: key.to_string(), value }
}

fn plain() -> Prettifier {
    Prettifier::new(None, false, false)
}

const PLAIN: Style = Style { width: None, use_bold: false };

#[test]
fn scalars_render_as_their_canonical_text() {
    let mut p = plain();
    assert_eq!(p.dive(0, Json::Null), Some("null".to_string()));
    assert_eq!(p.dive(0, Json::Bool(true)), Some("true".to_string()));
    assert_eq!(p.dive(4, Json::Bool(false)), Some("false".to_string()));
    assert_eq!(p.dive(0, number("42")), Some("42".to_string()));
    assert_eq!(p.dive(7, number("3.14")), Some("3.14".to_string()));
    assert_eq!(p.dive(0, number("0")), Some("0".to_string()));
}

#[test]
fn scalars_render_the_same_where_records_are_gathered() {
    let mut p = Prettifier::new(Some(80), true, true);
    assert_eq!(p.dive(0, Json::Null), Some("null".to_string()));
    assert_eq!(p.dive(0, Json::Bool(false)), Some("false".to_string()));
    assert_eq!(p.dive(0, number("-7")), Some("-7".to_string()));
    assert_eq!(p.go_test_entries.len(), 0);
}

#[test]
fn empty_string_renders_as_empty_text() {
    let mut p = plain();
    assert_eq!(p.dive(0, text("")), Some(String::new()));
    assert_eq!(p.dive(3, text("")), Some(String::new()));
}

#[test]
fn object_lines_are_padded_to_the_widest_key() {
    let mut p = plain();
    let v = Json::Object(vec![
        field("a", number("1")),
        field("long", text("x")),
        field("mid", Json::Null),
    ]);
    assert_eq!(p.dive(0, v), Some("a   : 1\nlong: x\nmid : null".to_string()));
}

#[test]
fn object_has_one_line_for_each_field() {
    let v = Json::Object(vec![
        field("k1", number("1")),
        field("k2", number("2")),
        field("k3", number("3")),
        field("k4", number("4")),
    ]);
    let out = render_value(PLAIN, 0, &v);
    let lines: Vec<&str> = out.split('\n').collect();
    assert_eq!(lines, vec!["k1: 1", "k2: 2", "k3: 3", "k4: 4"]);
}

#[test]
fn empty_object_and_empty_array_render_as_empty_text() {
    let mut p = plain();
    assert_eq!(p.dive(0, Json::Object(vec![])), Some(String::new()));
    assert_eq!(p.dive(0, Json::Array(vec![])), Some(String::new()));
    assert_eq!(p.dive(5, Json::Array(vec![])), Some(String::new()));
}

#[test]
fn object_keeps_fields_with_empty_values() {
    let mut p = plain();
    let v = Json::Object(vec![field("a", text("")), field("b", number("0"))]);
    assert_eq!(p.dive(0, v), Some("a: \nb: 0".to_string()));
}

#[test]
fn key_width_counts_bytes() {
    let mut p = plain();
    let v = Json::Object(vec![field("\u{e9}", number("1")), field("ab", number("2"))]);
    assert_eq!(p.dive(0, v), Some("\u{e9}: 1\nab: 2".to_string()));
    let w = Json::Object(vec![field("\u{e9}\u{e9}", number("1")), field("ab", number("2"))]);
    assert_eq!(p.dive(0, w), Some("\u{e9}\u{e9}: 1\nab  : 2".to_string()));
}

#[test]
fn nested_object_is_indented_under_its_key() {
    let mut p = plain();
    let inner = Json::Object(vec![field("x", number("1")), field("yy", number("2"))]);
    let v = Json::Object(vec![field("k", inner), field("z", number("3"))]);
    assert_eq!(p.dive(0, v), Some("k: x : 1\n   yy: 2\nz: 3".to_string()));
}

#[test]
fn object_at_an_indent_pads_all_lines_but_the_first() {
    let mut p = plain();
    let v = Json::Object(vec![field("a", number("1")), field("b", number("2"))]);
    assert_eq!(p.dive(3, v), Some("a: 1\n   b: 2".to_string()));
}

#[test]
fn array_at_indent_zero_has_no_bullets() {
    let mut p = plain();
    let v = Json::Array(vec![number("1"), text("two"), Json::Bool(true)]);
    assert_eq!(p.dive(0, v), Some("1\ntwo\ntrue".to_string()));
}

#[test]
fn array_at_an_indent_has_bullets() {
    let mut p = plain();
    let v = Json::Array(vec![number("1"), number("2")]);
    assert_eq!(p.dive(2, v), Some("- 1\n  - 2".to_string()));
}

#[test]
fn array_under_a_key_aligns_under_the_text() {
    let mut p = plain();
    let items = Json::Array(vec![text("a\nb"), number("2")]);
    let v = Json::Object(vec![field("k", items)]);
    assert_eq!(p.dive(0, v), Some("k: - a\n     b\n   - 2".to_string()));
}

#[test]
fn array_leaves_out_items_that_render_empty() {
    let mut p = plain();
    let v = Json::Array(vec![number("1"), text(""), number("2")]);
    assert_eq!(p.dive(0, v), Some("1\n2".to_string()));
    let w = Json::Array(vec![number("1"), text(""), number("2")]);
    assert_eq!(p.dive(2, w), Some("- 1\n  - 2".to_string()));
}

#[test]
fn array_leaves_out_nested_arrays_that_yield_nothing() {
    let mut p = plain();
    let v = Json::Array(vec![
        Json::Array(vec![]),
        number("1"),
        Json::Array(vec![Json::Array(vec![]), text("")]),
        Json::Object(vec![]),
    ]);
    assert_eq!(p.dive(0, v), Some("1".to_string()));
    let w = Json::Array(vec![Json::Array(vec![]), Json::Array(vec![number("5")])]);
    assert_eq!(p.dive(1, w), Some("- - 5".to_string()));
}

#[test]
fn array_that_loses_an_item_renders_as_without_it() {
    let with = Json::Array(vec![text("a"), text(""), text("b")]);
    let without = Json::Array(vec![text("a"), text("b")]);
    for indent in [0usize, 2, 6] {
        assert_eq!(render_value(PLAIN, indent, &with), render_value(PLAIN, indent, &without));
    }
}

#[test]
fn embedded_json_with_prefix() {
    let mut p = plain();
    assert_eq!(
        p.parse_string(0, "got: {\"a\":1}".to_string()),
        Some("got: \na: 1".to_string())
    );
}

#[test]
fn embedded_json_with_prefix_at_an_indent() {
    let mut p = plain();
    assert_eq!(
        p.parse_string(4, "got: {\"a\":1,\"bc\":2}".to_string()),
        Some("- got: \n    - a : 1\n      bc: 2".to_string())
    );
}

#[test]
fn embedded_json_alone() {
    let mut p = plain();
    assert_eq!(p.parse_string(0, "{\"a\":1}".to_string()), Some("a: 1".to_string()));
    assert_eq!(p.parse_string(6, "{\"a\":1}".to_string()), Some("a: 1".to_string()));
    assert_eq!(p.parse_string(0, "[1,[2,3]]".to_string()), Some("1\n2\n3".to_string()));
    assert_eq!(p.parse_string(2, "[1,[2,3]]".to_string()), Some("- 1\n  - - 2\n    - 3".to_string()));
}

#[test]
fn embedded_json_under_a_key() {
    let mut p = plain();
    let v = Json::Object(vec![field("msg", text("request received {\"id\":5}"))]);
    assert_eq!(p.dive(0, v), Some("msg: - request received \n     - id: 5".to_string()));
}

#[test]
fn embedded_json_is_looked_for_past_a_brace_that_opens_none() {
    let mut p = plain();
    assert_eq!(
        p.parse_string(0, "a {b} {\"c\":1}".to_string()),
        Some("a {b} \nc: 1".to_string())
    );
    assert_eq!(p.parse_string(0, "a {b} [c".to_string()), Some("a {b} [c".to_string()));
}

#[test]
fn embedded_json_is_not_looked_for_past_a_newline() {
    let mut p = plain();
    assert_eq!(
        p.parse_string(0, "first\n{\"a\":1}".to_string()),
        Some("first\n{\"a\":1}".to_string())
    );
    assert_eq!(
        p.parse_string(2, "first\n{\"a\":1}".to_string()),
        Some("first\n  {\"a\":1}".to_string())
    );
}

#[test]
fn embedded_json_may_span_lines_once_it_has_begun() {
    let mut p = plain();
    assert_eq!(p.parse_string(0, "{\"a\":\n1}".to_string()), Some("a: 1".to_string()));
}

#[test]
fn string_inside_embedded_json_is_interpreted_again() {
    let mut p = plain();
    let line = "{\"outer\":\"in: {\\\"x\\\":[1,2]}\"}".to_string();
    assert_eq!(
        p.parse_string(0, line),
        Some("outer: - in: \n       - x: - 1\n            - 2".to_string())
    );
}

#[test]
fn plain_text_is_the_same_at_every_indent() {
    let s = "a plain line of text";
    for width in [None, Some(40u16), Some(200u16)] {
        let style = Style { width, use_bold: false };
        for indent in [0usize, 1, 4, 40] {
            assert_eq!(interpret_text(style, indent, s), s);
        }
        for gather in [false, true] {
            let mut p = Prettifier::new(width, false, gather);
            for indent in [0usize, 1, 9, 35, 100] {
                assert_eq!(p.parse_string(indent, s.to_string()), Some(s.to_string()));
            }
            assert_eq!(p.go_test_entries.len(), 0);
        }
    }
}

#[test]
fn plain_text_with_a_tab_differs_where_lines_are_wrapped() {
    let style = Style { width: Some(40), use_bold: false };
    assert_eq!(interpret_text(style, 0, "a\tb"), "a    b");
    assert_eq!(interpret_text(style, 30, "a\tb"), "a\tb");
}

#[test]
fn multi_line_text_is_padded_after_the_first_line() {
    assert_eq!(interpret_text(PLAIN, 0, "a\nb\nc"), "a\nb\nc");
    assert_eq!(interpret_text(PLAIN, 3, "a\nb\nc"), "a\n   b\n   c");
    assert_eq!(interpret_text(PLAIN, 2, "a\n\nb\n"), "a\n  \n  b\n  ");
}

#[test]
fn long_line_is_cut_at_the_width() {
    let style = Style { width: Some(20), use_bold: false };
    let s = "abcdefghijklmnopqrstuvwxyzABCDEFGHIJKLMNOPQRS";
    assert_eq!(s.chars().count(), 45);
    let out = interpret_text(style, 0, s);
    let lines: Vec<&str> = out.split('\n').collect();
    assert_eq!(lines, vec!["abcdefghijklmnopqrst", "uvwxyzABCDEFGHIJKLMN", "OPQRS"]);
    for line in lines {
        assert!(line.chars().count() <= 20);
    }
}

#[test]
fn long_line_is_cut_by_characters_not_bytes() {
    let style = Style { width: Some(12), use_bold: false };
    let s = "\u{e9}".repeat(30);
    let out = interpret_text(style, 0, &s);
    let lines: Vec<&str> = out.split('\n').collect();
    assert_eq!(lines.len(), 3);
    assert_eq!(lines[0].chars().count(), 12);
    assert_eq!(lines[1].chars().count(), 12);
    assert_eq!(lines[2].chars().count(), 6);
}

#[test]
fn wrapped_lines_are_padded_after_the_first() {
    let style = Style { width: Some(14), use_bold: false };
    let out = interpret_text(style, 2, "aaaaaaaaaaaaaabbbbbbbbbbbbbbcc");
    assert_eq!(out, "aaaaaaaaaaaaaa\n  bbbbbbbbbbbbbb\n  cc");
}

#[test]
fn lines_are_not_wrapped_where_ten_columns_or_fewer_are_left() {
    let style = Style { width: Some(20), use_bold: false };
    let s = "abcdefghijklmnopqrstuvwxyzABCDEFGHIJKLMNOPQRS";
    assert_eq!(interpret_text(style, 10, s), s);
    assert_eq!(
        interpret_text(style, 9, s),
        "abcdefghijklmnopqrst\n         uvwxyzABCDEFGHIJKLMN\n         OPQRS"
    );
    assert_eq!(interpret_text(style, 25, s), s);
}

#[test]
fn tabs_become_four_spaces_where_lines_are_wrapped() {
    let style = Style { width: Some(12), use_bold: false };
    assert_eq!(interpret_text(style, 0, "\tab\tcdefghij"), "    ab    cd\nefghij");
    assert_eq!(interpret_text(PLAIN, 0, "\tab\tcdefghij"), "\tab\tcdefghij");
}

#[test]
fn empty_lines_leave_no_piece_where_lines_are_wrapped() {
    let style = Style { width: Some(12), use_bold: false };
    assert_eq!(interpret_text(style, 0, "a\n\nb"), "a\nb");
    assert_eq!(interpret_text(style, 0, ""), "");
    assert_eq!(interpret_text(PLAIN, 0, "a\n\nb"), "a\n\nb");
}

#[test]
fn keys_at_indent_zero_are_set_in_bold() {
    let mut p = Prettifier::new(None, true, false);
    let inner = Json::Object(vec![field("x", number("1"))]);
    let v = Json::Object(vec![field("k", inner), field("long", number("3"))]);
    assert_eq!(
        p.dive(0, v),
        Some("\u{1b}[1mk\u{1b}[0;39;49m   : x: 1\n\u{1b}[1mlong\u{1b}[0;39;49m: 3".to_string())
    );
    let w = Json::Object(vec![field("k", number("1"))]);
    assert_eq!(p.dive(2, w), Some("k: 1".to_string()));
}

#[test]
fn bold_wraps_the_text_in_escape_sequences() {
    let on = Prettifier::new(None, true, true);
    assert_eq!(on.bold("key".to_string()), "\u{1b}[1mkey\u{1b}[0;39;49m");
    assert_eq!(on.bold(String::new()), "\u{1b}[1m\u{1b}[0;39;49m");
    assert_eq!(on.bold("\u{1b}[31mred".to_string()), "\u{1b}[1;31mred");
    let off = Prettifier::new(None, false, true);
    assert_eq!(off.bold("key".to_string()), "key");
    let style = Style { width: None, use_bold: true };
    assert_eq!(style.bold("a b".to_string()), "\u{1b}[1ma b\u{1b}[0;39;49m");
}

#[test]
fn settings_are_kept() {
    let mut p = Prettifier::new(Some(33), true, true);
    p.parse_string(0, "{\"a\":[1,2]}".to_string());
    p.dive(0, Json::Null);
    assert_eq!(p.width, Some(33));
    assert!(p.use_bold);
    assert!(p.parse_go_test_output);
}
