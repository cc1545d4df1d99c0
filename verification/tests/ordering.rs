use log_prettifier::event::GoTestKey;
use log_prettifier::json::read_json;
use log_prettifier::text::comes_before;
use std::cmp::Ordering;

fn key(package: Option<&str>, test: Option<&str>) -> GoTestKey {
    GoTestKey { package: package.map(str::to_string), test: test.map(str::to_string) }
}

#[test]
fn texts_are_ordered_as_in_a_dictionary() {
    assert!(comes_before("", "a"));
    assert!(!comes_before("", ""));
    assert!(!comes_before("a", ""));
    assert!(comes_before("a", "b"));
    assert!(!comes_before("b", "a"));
    assert!(comes_before("ab", "abc"));
    assert!(!comes_before("abc", "ab"));
    assert!(comes_before("abc", "abd"));
    assert!(comes_before("Z", "a"));
    assert!(comes_before("z", "\u{e9}"));
    assert!(!comes_before("same", "same"));
    for (a, b) in [("", "x"), ("pkg/a", "pkg/b"), ("a", "aa"), ("\u{e9}", "\u{1f600}")] {
        assert_eq!(comes_before(a, b), a < b);
        assert_eq!(comes_before(b, a), b < a);
    }
}

#[test]
fn keys_are_ordered_by_package_and_then_by_test() {
    let all = [
        key(None, None),
        key(None, Some("")),
        key(None, Some("a")),
        key(Some(""), None),
        key(Some("p"), None),
        key(Some("p"), Some("a")),
        key(Some("p"), Some("b")),
        key(Some("q"), None),
    ];
    for i in 0..all.len() {
        for j in 0..all.len() {
            assert_eq!(all[i].precedes(&all[j]), i < j);
            assert_eq!(all[i] == all[j], i == j);
            assert_eq!(all[i].same(&all[j]), i == j);
            assert_eq!(all[i] < all[j], i < j);
            assert_eq!(all[i] >= all[j], i >= j);
            assert_eq!(all[i].partial_cmp(&all[j]), Some(i.cmp(&j)));
        }
    }
    assert_eq!(key(Some("p"), Some("t")).partial_cmp(&key(Some("p"), Some("t"))), Some(Ordering::Equal));
}

#[test]
fn no_value_outweighs_the_text_it_is_read_from() {
    for tight in [
        "0", "\"\"", "\"a\"", "[]", "{}", "[[]]", "[0]", "[[],[]]", "{\"\":0}", "{\"a\":[]}",
        "[\"\",\"\"]", "[\"\\u0041\"]", "{\"k\":{\"k\":{}}}", "[1,2,3]", "[null,true,false]",
        "\"\\ud83d\\ude00\"", "{\"a\":\"b\",\"c\":\"d\"}",
    ] {
        assert!(read_json(tight).is_some(), "{}", tight);
    }
}
