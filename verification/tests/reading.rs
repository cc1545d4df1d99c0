use log_prettifier::json::{read_json, Field, Json};
use log_prettifier::text::{chars_of, expand, lay_out, pad_join, split_at_newlines};

fn shown(v: &Option<Json>) -> String {
    format!("{:?}", v)
}

#[test]
fn text_reads_as_the_value_it_spells() {
    assert_eq!(shown(&read_json("null")), "Some(Null)");
    assert_eq!(shown(&read_json(" true ")), "Some(Bool(true))");
    assert_eq!(shown(&read_json("\"a\\nb\"")), "Some(String(\"a\\nb\"))");
    assert_eq!(
        shown(&read_json("[1, \"x\", [], {}]")),
        "Some(Array([Number(\"1\"), String(\"x\"), Array([]), Object([])]))"
    );
    assert_eq!(
        shown(&read_json("{\"k\": {\"n\": null}}")),
        "Some(Object([Field { key: \"k\", value: Object([Field { key: \"n\", value: Null }]) }]))"
    );
}

#[test]
fn numbers_read_as_their_canonical_text() {
    assert_eq!(shown(&read_json("[42]")), "Some(Array([Number(\"42\")]))");
    assert_eq!(shown(&read_json("[-7]")), "Some(Array([Number(\"-7\")]))");
    assert_eq!(shown(&read_json("[3.14]")), "Some(Array([Number(\"3.14\")]))");
    assert_eq!(shown(&read_json("[1e2]")), "Some(Array([Number(\"100.0\")]))");
    assert_eq!(shown(&read_json("[0.50]")), "Some(Array([Number(\"0.5\")]))");
    assert_eq!(
        shown(&read_json("[18446744073709551615]")),
        "Some(Array([Number(\"18446744073709551615\")]))"
    );
}

#[test]
fn fields_read_in_the_order_written() {
    assert_eq!(
        shown(&read_json("{\"b\":1,\"a\":2,\"c\":3}")),
        "Some(Object([Field { key: \"b\", value: Number(\"1\") }, Field { key: \"a\", value: Number(\"2\") }, Field { key: \"c\", value: Number(\"3\") }]))"
    );
}

#[test]
fn a_key_written_twice_reads_once() {
    assert_eq!(
        shown(&read_json("{\"a\":1,\"b\":0,\"a\":2}")),
        "Some(Object([Field { key: \"a\", value: Number(\"2\") }, Field { key: \"b\", value: Number(\"0\") }]))"
    );
}

#[test]
fn text_that_spells_no_value_reads_as_none() {
    for bad in ["", " ", "{", "[1,", "{\"a\":1} x", "[1] [2]", "nul", "{a:1}", "'x'", "\"open"] {
        assert!(read_json(bad).is_none());
    }
}

#[test]
fn weight_is_taken_from_a_budget() {
    let v = Json::Object(vec![
        Field { key: "ab".to_string(), value: Json::String("xyz".to_string()) },
        Field { key: "c".to_string(), value: Json::Array(vec![Json::Null, Json::Bool(true)]) },
    ]);
    assert_eq!(v.spend(13), Some(0));
    assert_eq!(v.spend(20), Some(7));
    assert_eq!(v.spend(12), None);
    assert_eq!(v.spend(0), None);
    assert_eq!(Json::Null.spend(1), Some(0));
    assert_eq!(Json::Null.spend(0), None);
    assert_eq!(Json::String("\u{e9}\u{e9}".to_string()).spend(3), Some(0));
    assert_eq!(Json::Array(vec![]).spend(2), Some(0));
    assert_eq!(Json::Array(vec![]).spend(1), None);
}

#[test]
fn characters_come_in_order() {
    assert_eq!(chars_of("a\u{e9}\n"), vec!['a', '\u{e9}', '\n']);
    assert_eq!(chars_of(""), Vec::<char>::new());
}

#[test]
fn text_is_cut_at_newlines() {
    let cut = |s: &str| -> Vec<String> {
        split_at_newlines(&chars_of(s)).into_iter().map(|l| l.into_iter().collect()).collect()
    };
    assert_eq!(cut(""), vec![""]);
    assert_eq!(cut("a"), vec!["a"]);
    assert_eq!(cut("a\nb"), vec!["a", "b"]);
    assert_eq!(cut("a\n"), vec!["a", ""]);
    assert_eq!(cut("\n\nx"), vec!["", "", "x"]);
}

#[test]
fn tabs_are_expanded() {
    assert_eq!(expand(&chars_of("\ta\t")), chars_of("    a    "));
    assert_eq!(expand(&chars_of("no tabs")), chars_of("no tabs"));
}

#[test]
fn lines_are_laid_out() {
    assert_eq!(lay_out("ab\ncd", None), vec!["ab", "cd"]);
    assert_eq!(lay_out("abcdefg\nhi\n", Some(3)), vec!["abc", "def", "g", "hi"]);
    assert_eq!(lay_out("abc", Some(3)), vec!["abc"]);
    assert_eq!(lay_out("abcd", Some(3)), vec!["abc", "d"]);
    assert_eq!(lay_out("", Some(3)), Vec::<String>::new());
    assert_eq!(lay_out("", None), vec![""]);
    assert_eq!(lay_out("\t", Some(3)), vec!["   ", " "]);
    assert_eq!(lay_out("x", Some(1)), vec!["x"]);
}

#[test]
fn parts_are_joined_behind_the_padding() {
    let parts = vec!["a".to_string(), "b".to_string(), "c".to_string()];
    assert_eq!(pad_join(&parts, ""), "a\nb\nc");
    assert_eq!(pad_join(&parts, "  "), "a\n  b\n  c");
    assert_eq!(pad_join(&vec!["only".to_string()], "    "), "only");
    assert_eq!(pad_join(&Vec::new(), "    "), "");
    assert_eq!(pad_join(&parts, "> "), "a\n> b\n> c");
}
