//! The records that a test runner writes, one JSON object per line.

use crate::json::{field_views, lemma_field_views, Field, FieldView, Json, JsonView};
use vstd::prelude::*;
use vstd::string::*;

verus! {

/// What a record reports.
#[derive(Debug, Clone, Copy, PartialEq, Eq, Structural)]
pub enum GoTestAction {
    Pass,
    Fail,
    Output,
}

/// The stream that a record belongs to: a package and a test, either of which
/// may be absent.
#[derive(Debug, Clone)]
pub struct GoTestKey {
    pub package: Option<String>,
    pub test: Option<String>,
}

/// The mathematical value of a [`GoTestKey`].
pub ghost struct KeyView {
    pub package: Option<Seq<char>>,
    pub test: Option<Seq<char>>,
}

/// One record.
#[derive(Debug, Clone)]
pub struct GoTestEntry {
    pub time: String,
    pub action: GoTestAction,
    pub package: Option<String>,
    pub test: Option<String>,
    pub output: Option<String>,
}

/// The mathematical value of a [`GoTestEntry`].
pub ghost struct EntryView {
    pub time: Seq<char>,
    pub action: GoTestAction,
    pub package: Option<Seq<char>>,
    pub test: Option<Seq<char>>,
    pub output: Option<Seq<char>>,
}

/// The view of an optional string.
pub open spec fn text_view(s: Option<String>) -> Option<Seq<char>> {
    match s {
        Some(t) => Some(t@),
        None => None,
    }
}

impl View for GoTestKey {
    type V = KeyView;

    open spec fn view(&self) -> KeyView {
        KeyView { package: text_view(self.package), test: text_view(self.test) }
    }
}

impl View for GoTestEntry {
    type V = EntryView;

    open spec fn view(&self) -> EntryView {
        EntryView {
            time: self.time@,
            action: self.action,
            package: text_view(self.package),
            test: text_view(self.test),
            output: text_view(self.output),
        }
    }
}

impl GoTestKey {
    /// Whether two keys are the same stream.
    pub fn same(&self, other: &GoTestKey) -> (r: bool)
        ensures
            r == (self@ == other@),
    {
        let package = match (&self.package, &other.package) {
            (Some(a), Some(b)) => *a == *b,
            (None, None) => true,
            _ => false,
        };
        let test = match (&self.test, &other.test) {
            (Some(a), Some(b)) => *a == *b,
            (None, None) => true,
            _ => false,
        };
        package && test
    }
}

impl EntryView {
    /// The stream that the record belongs to.
    pub open spec fn key(self) -> KeyView {
        KeyView { package: self.package, test: self.test }
    }
}

/// The view of an optional record.
pub open spec fn entry_view(e: Option<GoTestEntry>) -> Option<EntryView> {
    match e {
        Some(entry) => Some(entry@),
        None => None,
    }
}

/// The name of an action as records spell it.
pub open spec fn action_name(action: GoTestAction) -> Seq<char> {
    match action {
        GoTestAction::Pass => "pass"@,
        GoTestAction::Fail => "fail"@,
        GoTestAction::Output => "output"@,
    }
}

/// The action that `name` spells, if any.
pub open spec fn action_named(name: Seq<char>) -> Option<GoTestAction> {
    if name == "pass"@ {
        Some(GoTestAction::Pass)
    } else if name == "fail"@ {
        Some(GoTestAction::Fail)
    } else if name == "output"@ {
        Some(GoTestAction::Output)
    } else {
        None
    }
}

/// The three actions have three names, and each name spells its action.
pub proof fn lemma_action_names(action: GoTestAction)
    ensures
        action_named(action_name(action)) == Some(action),
{
    reveal_strlit("pass");
    reveal_strlit("fail");
    reveal_strlit("output");
    assert("pass"@[0] != "fail"@[0]);
    assert("pass"@.len() != "output"@.len());
    assert("fail"@.len() != "output"@.len());
}

/// The place of the first field called `name` at or after `from`.
pub open spec fn field_at(fields: Seq<FieldView>, name: Seq<char>, from: int) -> Option<int>
    decreases fields.len() - from,
{
    if from < 0 || from >= fields.len() {
        None
    } else if fields[from].key == name {
        Some(from)
    } else {
        field_at(fields, name, from + 1)
    }
}

/// What a record says in a field that must hold a string.
pub open spec fn required_text(fields: Seq<FieldView>, name: Seq<char>) -> Option<Seq<char>> {
    match field_at(fields, name, 0) {
        Some(i) => match fields[i].value {
            JsonView::Text(s) => Some(s),
            _ => None,
        },
        None => None,
    }
}

/// What a record says in a field that may hold a string, may hold `null` and
/// may be missing. The outer `None` stands for a field that holds anything else.
pub open spec fn optional_text(fields: Seq<FieldView>, name: Seq<char>) -> Option<
    Option<Seq<char>>,
> {
    match field_at(fields, name, 0) {
        Some(i) => match fields[i].value {
            JsonView::Text(s) => Some(Some(s)),
            JsonView::Null => Some(None),
            _ => None,
        },
        None => Some(None),
    }
}

/// The record that a JSON value spells: an object with a string under `Time`,
/// one of the three action names under `Action`, and under each of `Package`,
/// `Test` and `Output` a string, `null` or nothing. Other fields are passed
/// over. Where a name occurs twice, the first field counts.
pub open spec fn entry_in(value: JsonView) -> Option<EntryView> {
    match value {
        JsonView::Object(fields) => {
            let time = required_text(fields, "Time"@);
            let action = match required_text(fields, "Action"@) {
                Some(name) => action_named(name),
                None => None,
            };
            let package = optional_text(fields, "Package"@);
            let test = optional_text(fields, "Test"@);
            let output = optional_text(fields, "Output"@);
            if time is Some && action is Some && package is Some && test is Some
                && output is Some {
                Some(
                    EntryView {
                        time: time->0,
                        action: action->0,
                        package: package->0,
                        test: test->0,
                        output: output->0,
                    },
                )
            } else {
                None
            }
        },
        _ => None,
    }
}

/// The place that `field_at` gives holds a field of that name.
pub proof fn lemma_field_at(fields: Seq<FieldView>, name: Seq<char>, from: int)
    requires
        0 <= from,
    ensures
        field_at(fields, name, from) matches Some(i) ==> from <= i < fields.len()
            && fields[i].key == name,
    decreases fields.len() - from,
{
    if from < fields.len() && fields[from].key != name {
        lemma_field_at(fields, name, from + 1);
    }
}

/// The output that a record carries is shorter than the value it was read
/// from weighs.
pub proof fn lemma_entry_output(value: JsonView)
    ensures
        entry_in(value) matches Some(entry) ==> (entry.output matches Some(o) ==> o.len() + 3
            <= value.weight()),
{
    if let JsonView::Object(fields) = value {
        lemma_field_at(fields, "Output"@, 0);
        if let Some(i) = field_at(fields, "Output"@, 0) {
            crate::json::lemma_field_weight(fields, i);
        }
    }
}

impl GoTestAction {
    /// The name of the action as records spell it.
    pub fn name(&self) -> (r: String)
        ensures
            r@ == action_name(*self),
    {
        match self {
            GoTestAction::Pass => String::from_str("pass"),
            GoTestAction::Fail => String::from_str("fail"),
            GoTestAction::Output => String::from_str("output"),
        }
    }

    /// The action that `name` spells.
    pub fn named(name: &String) -> (r: Option<GoTestAction>)
        ensures
            r == action_named(name@),
    {
        if *name == String::from_str("pass") {
            Some(GoTestAction::Pass)
        } else if *name == String::from_str("fail") {
            Some(GoTestAction::Fail)
        } else if *name == String::from_str("output") {
            Some(GoTestAction::Output)
        } else {
            None
        }
    }
}

/// Finds the first field called `name`.
fn find_field(fields: &Vec<Field>, name: &str) -> (r: Option<usize>)
    ensures
        match r {
            Some(i) => field_at(field_views(*fields), name@, 0) == Some(i as int) && i
                < fields.len(),
            None => field_at(field_views(*fields), name@, 0) is None,
        },
{
    let wanted = String::from_str(name);
    let ghost all = field_views(*fields);
    proof {
        lemma_field_views(*fields);
    }
    let mut i: usize = 0;
    while i < fields.len()
        invariant
            i <= fields.len(),
            wanted@ == name@,
            all == field_views(*fields),
            all.len() == fields.len(),
            forall|k: int| 0 <= k < fields.len() ==> (#[trigger] all[k]).key == fields[k].key@,
            field_at(all, name@, 0) == field_at(all, name@, i as int),
        decreases fields.len() - i,
    {
        if fields[i].key == wanted {
            return Some(i);
        }
        i = i + 1;
    }
    None
}

/// Reads a field that must hold a string.
fn read_required(fields: &Vec<Field>, name: &str) -> (r: Option<String>)
    ensures
        text_view(r) == required_text(field_views(*fields), name@),
{
    proof {
        lemma_field_views(*fields);
    }
    match find_field(fields, name) {
        Some(i) => match &fields[i].value {
            Json::String(s) => Some(s.clone()),
            _ => None,
        },
        None => None,
    }
}

/// Reads a field that may hold a string, may hold `null` and may be missing.
fn read_optional(fields: &Vec<Field>, name: &str) -> (r: Option<Option<String>>)
    ensures
        match r {
            Some(t) => optional_text(field_views(*fields), name@) == Some(text_view(t)),
            None => optional_text(field_views(*fields), name@) is None,
        },
{
    proof {
        lemma_field_views(*fields);
    }
    match find_field(fields, name) {
        Some(i) => match &fields[i].value {
            Json::String(s) => Some(Some(s.clone())),
            Json::Null => Some(None),
            _ => None,
        },
        None => Some(None),
    }
}

impl GoTestEntry {
    /// The stream that the record belongs to.
    pub fn key(&self) -> (k: GoTestKey)
        ensures
            k@ == self@.key(),
    {
        GoTestKey { package: self.package.clone(), test: self.test.clone() }
    }

    /// Reads a record out of a JSON value.
    pub fn from_json(value: &Json) -> (r: Option<GoTestEntry>)
        ensures
            entry_view(r) == entry_in(value@),
    {
        match value {
            Json::Object(fields) => {
                let time = read_required(fields, "Time");
                let action = match read_required(fields, "Action") {
                    Some(name) => GoTestAction::named(&name),
                    None => None,
                };
                let package = read_optional(fields, "Package");
                let test = read_optional(fields, "Test");
                let output = read_optional(fields, "Output");
                match (time, action, package, test, output) {
                    (Some(time), Some(action), Some(package), Some(test), Some(output)) => Some(
                        GoTestEntry { time, action, package, test, output },
                    ),
                    _ => None,
                }
            },
            _ => None,
        }
    }
}

} // verus!
