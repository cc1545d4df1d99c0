use log_prettifier::buffer::Buffer;
use log_prettifier::event::{GoTestAction, GoTestEntry, GoTestKey};
use log_prettifier::json::{read_json, Field, Json};
use log_prettifier::prettifier::Prettifier;

fn text(s: &str) -> Json {
    Json::String(s.to_string())
}

fn field(key: &str, value: Json) -> Field {
    Field { key: key.to_string(), value }
}

fn key(package: Option<&str>, test: Option<&str>) -> GoTestKey {
    GoTestKey { package: package.map(str::to_string), test: test.map(str::to_string) }
}

fn entry(
    time: &str,
    action: GoTestAction,
    package: Option<&str>,
    test: Option<&str>,
    output: Option<&str>,
) -> GoTestEntry {
    GoTestEntry {
        time: time.to_string(),
        action,
        package: package.map(str::to_string),
        test: test.map(str::to_string),
        output: output.map(str::to_string),
    }
}

const LINE1: &str =
    "{\"Time\":\"t1\",\"Action\":\"output\",\"Package\":\"p\",\"Test\":\"T\",\"Output\":\"line1\\n\"}";
const LINE2: &str =
    "{\"Time\":\"t2\",\"Action\":\"output\",\"Package\":\"p\",\"Test\":\"T\",\"Output\":\"line2\\n\"}";
const LINE3: &str = "{\"Time\":\"t3\",\"Action\":\"pass\",\"Package\":\"p\",\"Test\":\"T\"}";

#[test]
fn output_is_gathered_and_written_with_the_pass() {
    let mut p = Prettifier::new(None, false, true);
    assert_eq!(p.parse_string(0, LINE1.to_string()), None);
    assert_eq!(p.go_test_entries.get(&key(Some("p"), Some("T"))), Some("line1\n".to_string()));
    assert_eq!(p.parse_string(0, LINE2.to_string()), None);
    assert_eq!(
        p.go_test_entries.get(&key(Some("p"), Some("T"))),
        Some("line1\nline2\n".to_string())
    );
    assert_eq!(p.go_test_entries.len(), 1);
    assert_eq!(
        p.parse_string(0, LINE3.to_string()),
        Some(
            "Package: p\nTest   : T\nOutput : line1\n         line2\n         \nTime   : t3\nAction : pass"
                .to_string()
        )
    );
    assert_eq!(p.go_test_entries.len(), 0);
    assert_eq!(p.go_test_entries.get(&key(Some("p"), Some("T"))), None);
}

#[test]
fn records_render_as_objects_where_none_are_gathered() {
    let mut p = Prettifier::new(None, false, false);
    assert_eq!(
        p.parse_string(0, LINE1.to_string()),
        Some(
            "Time   : t1\nAction : output\nPackage: p\nTest   : T\nOutput : line1\n         "
                .to_string()
        )
    );
    assert_eq!(
        p.parse_string(0, LINE2.to_string()),
        Some(
            "Time   : t2\nAction : output\nPackage: p\nTest   : T\nOutput : line2\n         "
                .to_string()
        )
    );
    assert_eq!(
        p.parse_string(0, LINE3.to_string()),
        Some("Time   : t3\nAction : pass\nPackage: p\nTest   : T".to_string())
    );
    assert_eq!(p.go_test_entries.len(), 0);
}

#[test]
fn records_are_looked_for_at_indent_zero_only() {
    let mut p = Prettifier::new(None, false, true);
    assert_eq!(
        p.parse_string(2, LINE3.to_string()),
        Some("Time   : t3\n  Action : pass\n  Package: p\n  Test   : T".to_string())
    );
    assert_eq!(
        p.parse_string(1, LINE1.to_string()),
        Some(
            "Time   : t1\n Action : output\n Package: p\n Test   : T\n Output : line1\n          "
                .to_string()
        )
    );
    assert_eq!(p.go_test_entries.len(), 0);
}

#[test]
fn fail_without_output_writes_no_output_field() {
    let mut p = Prettifier::new(None, false, true);
    assert_eq!(
        p.parse_string(0, "{\"Time\":\"t\",\"Action\":\"fail\",\"Package\":\"p\"}".to_string()),
        Some("Package: p\nTime   : t\nAction : fail".to_string())
    );
    assert_eq!(
        p.parse_string(0, "{\"Time\":\"t\",\"Action\":\"fail\"}".to_string()),
        Some("Time  : t\nAction: fail".to_string())
    );
    assert_eq!(
        p.parse_string(0, "{\"Time\":\"t\",\"Action\":\"pass\",\"Test\":\"T\"}".to_string()),
        Some("Test  : T\nTime  : t\nAction: pass".to_string())
    );
}

#[test]
fn empty_gathered_output_writes_no_output_field() {
    let mut p = Prettifier::new(None, false, true);
    assert_eq!(p.parse_go_test_entry(entry("t0", GoTestAction::Output, None, None, Some(""))), None);
    assert_eq!(p.go_test_entries.len(), 1);
    assert_eq!(
        p.parse_go_test_entry(entry("t1", GoTestAction::Pass, None, None, None)),
        Some("Time  : t1\nAction: pass".to_string())
    );
    assert_eq!(p.go_test_entries.len(), 0);
}

#[test]
fn output_record_without_output_gathers_nothing() {
    let mut p = Prettifier::new(None, false, true);
    assert_eq!(
        p.parse_string(0, "{\"Time\":\"t\",\"Action\":\"output\",\"Test\":\"T\"}".to_string()),
        None
    );
    assert_eq!(p.go_test_entries.len(), 0);
}

#[test]
fn streams_are_gathered_apart() {
    let mut p = Prettifier::new(None, false, true);
    let a = entry("1", GoTestAction::Output, Some("p"), Some("A"), Some("from a\n"));
    let b = entry("2", GoTestAction::Output, Some("p"), Some("B"), Some("from b"));
    let c = entry("3", GoTestAction::Output, Some("p"), None, Some("from p"));
    let d = entry("4", GoTestAction::Output, Some("p"), Some("A"), Some("more a"));
    assert_eq!(p.parse_go_test_entry(a), None);
    assert_eq!(p.parse_go_test_entry(b), None);
    assert_eq!(p.parse_go_test_entry(c), None);
    assert_eq!(p.parse_go_test_entry(d), None);
    assert_eq!(p.go_test_entries.len(), 3);
    assert_eq!(p.go_test_entries.get(&key(Some("p"), Some("A"))), Some("from a\nmore a".to_string()));
    assert_eq!(p.go_test_entries.get(&key(Some("p"), Some("B"))), Some("from b".to_string()));
    assert_eq!(p.go_test_entries.get(&key(Some("p"), None)), Some("from p".to_string()));
    assert_eq!(p.go_test_entries.get(&key(None, Some("A"))), None);
    assert_eq!(
        p.parse_go_test_entry(entry("5", GoTestAction::Fail, Some("p"), Some("B"), None)),
        Some("Package: p\nTest   : B\nOutput : from b\nTime   : 5\nAction : fail".to_string())
    );
    assert_eq!(p.go_test_entries.len(), 2);
    assert_eq!(p.go_test_entries.get(&key(Some("p"), Some("B"))), None);
    assert_eq!(p.go_test_entries.get(&key(Some("p"), Some("A"))), Some("from a\nmore a".to_string()));
}

#[test]
fn output_after_a_pass_is_gathered_anew() {
    let mut p = Prettifier::new(None, false, true);
    assert_eq!(p.parse_go_test_entry(entry("1", GoTestAction::Output, None, Some("T"), Some("x"))), None);
    assert_eq!(
        p.parse_go_test_entry(entry("2", GoTestAction::Pass, None, Some("T"), None)),
        Some("Test  : T\nOutput: x\nTime  : 2\nAction: pass".to_string())
    );
    assert_eq!(p.parse_go_test_entry(entry("3", GoTestAction::Output, None, Some("T"), Some("y"))), None);
    assert_eq!(p.go_test_entries.get(&key(None, Some("T"))), Some("y".to_string()));
}

#[test]
fn gathered_output_is_interpreted_line_by_line() {
    let mut p = Prettifier::new(None, false, true);
    let out = entry("1", GoTestAction::Output, None, Some("T"), Some("got {\"a\":1}\nplain\n"));
    assert_eq!(p.parse_go_test_entry(out), None);
    assert_eq!(
        p.parse_go_test_entry(entry("2", GoTestAction::Pass, None, Some("T"), None)),
        Some(
            "Test  : T\nOutput: got \n        a: 1\n        plain\n        \nTime  : 2\nAction: pass"
                .to_string()
        )
    );
}

#[test]
fn record_inside_gathered_output_is_consumed() {
    let mut p = Prettifier::new(None, false, true);
    let inner = "{\"Time\":\"i\",\"Action\":\"output\",\"Test\":\"Other\",\"Output\":\"kept\"}";
    let out = entry("1", GoTestAction::Output, None, Some("T"), Some(&format!("a\n{}\nb", inner)));
    assert_eq!(p.parse_go_test_entry(out), None);
    assert_eq!(
        p.parse_go_test_entry(entry("2", GoTestAction::Pass, None, Some("T"), None)),
        Some("Test  : T\nOutput: a\n        b\nTime  : 2\nAction: pass".to_string())
    );
    assert_eq!(p.go_test_entries.len(), 1);
    assert_eq!(p.go_test_entries.get(&key(None, Some("Other"))), Some("kept".to_string()));
}

#[test]
fn record_inside_gathered_output_is_plain_json_where_none_are_gathered() {
    let mut p = Prettifier::new(None, false, false);
    let inner = "{\"Time\":\"i\",\"Action\":\"output\",\"Test\":\"O\"}";
    assert_eq!(
        p.parse_go_test_entry(entry("1", GoTestAction::Output, None, None, Some(inner))),
        None
    );
    assert_eq!(p.go_test_entries.get(&key(None, None)), Some(inner.to_string()));
    assert_eq!(
        p.parse_go_test_entry(entry("2", GoTestAction::Fail, None, None, None)),
        Some(
            "Output: Time  : i\n        Action: output\n        Test  : O\nTime  : 2\nAction: fail"
                .to_string()
        )
    );
    assert_eq!(p.go_test_entries.len(), 0);
}

#[test]
fn record_in_an_array_at_indent_zero_is_consumed() {
    let mut p = Prettifier::new(None, false, true);
    let v = Json::Array(vec![
        text("before"),
        text("{\"Time\":\"t\",\"Action\":\"output\",\"Test\":\"T\",\"Output\":\"o\"}"),
        text("after"),
    ]);
    assert_eq!(p.dive(0, v), Some("before\nafter".to_string()));
    assert_eq!(p.go_test_entries.get(&key(None, Some("T"))), Some("o".to_string()));
    let w = text("{\"Time\":\"t\",\"Action\":\"output\",\"Test\":\"T\",\"Output\":\"p\"}");
    assert_eq!(p.dive(0, w), None);
    assert_eq!(p.go_test_entries.get(&key(None, Some("T"))), Some("op".to_string()));
}

#[test]
fn record_under_a_key_is_not_consumed() {
    let mut p = Prettifier::new(None, false, true);
    let v = Json::Object(vec![field(
        "k",
        text("{\"Time\":\"t\",\"Action\":\"output\",\"Output\":\"o\"}"),
    )]);
    assert_eq!(p.dive(0, v), Some("k: Time  : t\n   Action: output\n   Output: o".to_string()));
    assert_eq!(p.go_test_entries.len(), 0);
}

#[test]
fn summary_keys_are_set_in_bold() {
    let mut p = Prettifier::new(None, true, true);
    assert_eq!(
        p.parse_string(0, "{\"Time\":\"t\",\"Action\":\"pass\"}".to_string()),
        Some(
            "\u{1b}[1mTime\u{1b}[0;39;49m  : t\n\u{1b}[1mAction\u{1b}[0;39;49m: pass".to_string()
        )
    );
}

#[test]
fn record_is_read_from_an_object() {
    let v = read_json(LINE1).unwrap();
    let e = GoTestEntry::from_json(&v).unwrap();
    assert_eq!(e.time, "t1");
    assert_eq!(e.action, GoTestAction::Output);
    assert_eq!(e.package, Some("p".to_string()));
    assert_eq!(e.test, Some("T".to_string()));
    assert_eq!(e.output, Some("line1\n".to_string()));
    let k = e.key();
    assert_eq!(k.package, Some("p".to_string()));
    assert_eq!(k.test, Some("T".to_string()));
}

#[test]
fn record_may_leave_out_package_test_and_output() {
    let v = Json::Object(vec![field("Action", text("fail")), field("Time", text("now"))]);
    let e = GoTestEntry::from_json(&v).unwrap();
    assert_eq!(e.time, "now");
    assert_eq!(e.action, GoTestAction::Fail);
    assert_eq!(e.package, None);
    assert_eq!(e.test, None);
    assert_eq!(e.output, None);
}

#[test]
fn record_may_hold_null_and_fields_of_other_names() {
    let v = Json::Object(vec![
        field("Time", text("now")),
        field("Elapsed", Json::Number("0.5".to_string())),
        field("Action", text("pass")),
        field("Package", Json::Null),
        field("Test", text("T")),
        field("Output", Json::Null),
    ]);
    let e = GoTestEntry::from_json(&v).unwrap();
    assert_eq!(e.action, GoTestAction::Pass);
    assert_eq!(e.package, None);
    assert_eq!(e.test, Some("T".to_string()));
    assert_eq!(e.output, None);
}

#[test]
fn record_needs_time_and_action() {
    let no_time = Json::Object(vec![field("Action", text("pass"))]);
    assert!(GoTestEntry::from_json(&no_time).is_none());
    let no_action = Json::Object(vec![field("Time", text("t"))]);
    assert!(GoTestEntry::from_json(&no_action).is_none());
    let null_time = Json::Object(vec![field("Time", Json::Null), field("Action", text("pass"))]);
    assert!(GoTestEntry::from_json(&null_time).is_none());
}

#[test]
fn record_needs_a_known_action_in_lower_case() {
    for name in ["Pass", "PASS", "skip", "run", "", "pass "] {
        let v = Json::Object(vec![field("Time", text("t")), field("Action", text(name))]);
        assert!(GoTestEntry::from_json(&v).is_none());
    }
    for (name, action) in [
        ("pass", GoTestAction::Pass),
        ("fail", GoTestAction::Fail),
        ("output", GoTestAction::Output),
    ] {
        let v = Json::Object(vec![field("Time", text("t")), field("Action", text(name))]);
        assert_eq!(GoTestEntry::from_json(&v).unwrap().action, action);
        assert_eq!(action.name(), name);
        assert_eq!(GoTestAction::named(&name.to_string()), Some(action));
    }
    assert_eq!(GoTestAction::named(&"Fail".to_string()), None);
}

#[test]
fn record_needs_field_names_in_their_exact_case() {
    let v = Json::Object(vec![field("time", text("t")), field("action", text("pass"))]);
    assert!(GoTestEntry::from_json(&v).is_none());
    let w = Json::Object(vec![
        field("Time", text("t")),
        field("Action", text("pass")),
        field("package", text("ignored")),
    ]);
    assert_eq!(GoTestEntry::from_json(&w).unwrap().package, None);
}

#[test]
fn record_needs_strings_in_its_fields() {
    let number = Json::Number("1".to_string());
    let bad_package = Json::Object(vec![
        field("Time", text("t")),
        field("Action", text("pass")),
        field("Package", number),
    ]);
    assert!(GoTestEntry::from_json(&bad_package).is_none());
    let bad_output = Json::Object(vec![
        field("Time", text("t")),
        field("Action", text("output")),
        field("Output", Json::Array(vec![])),
    ]);
    assert!(GoTestEntry::from_json(&bad_output).is_none());
    let bad_time = Json::Object(vec![
        field("Time", Json::Bool(true)),
        field("Action", text("output")),
    ]);
    assert!(GoTestEntry::from_json(&bad_time).is_none());
}

#[test]
fn record_is_an_object() {
    assert!(GoTestEntry::from_json(&text("pass")).is_none());
    assert!(GoTestEntry::from_json(&Json::Null).is_none());
    assert!(GoTestEntry::from_json(&Json::Array(vec![text("t"), text("pass")])).is_none());
}

#[test]
fn line_that_is_no_record_falls_through_to_json() {
    let mut p = Prettifier::new(None, false, true);
    assert_eq!(
        p.parse_string(0, "{\"Time\":\"t\",\"Action\":\"skip\"}".to_string()),
        Some("Time  : t\nAction: skip".to_string())
    );
    assert_eq!(
        p.parse_string(0, "{\"Time\":\"t\", oops".to_string()),
        Some("{\"Time\":\"t\", oops".to_string())
    );
    assert_eq!(p.go_test_entries.len(), 0);
}

#[test]
fn keys_are_the_same_when_package_and_test_are() {
    assert!(key(Some("p"), Some("t")).same(&key(Some("p"), Some("t"))));
    assert!(key(None, None).same(&key(None, None)));
    assert!(!key(Some("p"), Some("t")).same(&key(Some("p"), Some("u"))));
    assert!(!key(Some("p"), Some("t")).same(&key(Some("q"), Some("t"))));
    assert!(!key(Some("p"), None).same(&key(Some("p"), Some(""))));
    assert!(!key(None, Some("t")).same(&key(Some(""), Some("t"))));
}

#[test]
fn buffer_adds_and_takes() {
    let mut b = Buffer::new();
    assert_eq!(b.len(), 0);
    assert_eq!(b.take(&key(None, None)), "");
    b.append(key(Some("p"), None), "one");
    b.append(key(None, None), "two");
    b.append(key(Some("p"), None), "three");
    assert_eq!(b.len(), 2);
    assert_eq!(b.get(&key(Some("p"), None)), Some("onethree".to_string()));
    assert_eq!(b.take(&key(Some("p"), None)), "onethree");
    assert_eq!(b.len(), 1);
    assert_eq!(b.get(&key(Some("p"), None)), None);
    assert_eq!(b.take(&key(Some("p"), None)), "");
    assert_eq!(b.take(&key(None, None)), "two");
    assert_eq!(b.len(), 0);
}
