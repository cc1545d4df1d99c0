//! The prettifier: a renderer that gathers the output of tests.
//!
//! A test runner writes one record for every line that a test prints and one
//! more when the test has passed or failed. Shown one by one these are hard to
//! read, so the prettifier holds the output back and writes it with the record
//! that ends the test.
//!
//! Records are looked for in strings at indent 0, and only where the
//! prettifier is set to gather them. What is rendered there can change the
//! buffer, and `top_interpret`, `top_render` and `consume` say what is
//! written and what the buffer holds afterwards. Everything else is rendered
//! as `render` and `interpret` say and leaves the buffer alone.

use crate::buffer::{
    distinct, held, lemma_mass_with_more, lemma_mass_without, mass, with_more, without, Buffer,
    PendingView,
};
use crate::event::{
    action_name, entry_in, entry_view, lemma_entry_output, text_view, EntryView, GoTestAction,
    GoTestEntry,
};
use crate::json::{
    item_views, items_weight, lemma_item_views, lemma_items_weight_prefix, lemma_weight_positive,
    read, read_json, Field, FieldView, Json, JsonView,
};
use crate::options::Options;
use crate::render::{
    array_block, array_lines, bullet, embedded, find_embedded, interpret, interpret_behind,
    interpret_text, lemma_embedded_from, plain, push_item, render, render_behind, render_value,
    Style,
};
use crate::text::{
    chars_of, join_with, joined, lay_out, lemma_split_lines, lemma_total_len_prefix, pad_join,
    spaces, split_at_newlines, split_lines, text_of, total_len, views,
};
use vstd::prelude::*;
use vstd::string::*;

verus! {

/// What a step gives: the text to write, if any, and the buffer as it leaves it.
pub ghost struct Outcome {
    pub text: Option<Seq<char>>,
    pub buffer: Seq<PendingView>,
}

/// What a run of steps gives: the texts to write, and the buffer as the last
/// step leaves it.
pub ghost struct Run {
    pub texts: Seq<Seq<char>>,
    pub buffer: Seq<PendingView>,
}

/// `texts` with the text of one more step, where that step wrote one.
pub open spec fn kept(texts: Seq<Seq<char>>, text: Option<Seq<char>>) -> Seq<Seq<char>> {
    match text {
        Some(t) => texts.push(t),
        None => texts,
    }
}

/// The buffer that a step hands to the next one. A step leaves no more in the
/// buffer than it found there and was given to read, so `limit` is never
/// passed and this is `after` itself (`laws::lemma_carried`); to say so here
/// is what lets the definitions below go round. What they come to without it
/// is stated in `laws::lemma_top_items_step`, `laws::lemma_top_lines_step` and
/// `laws::lemma_no_record`.
pub open spec fn carried(after: Seq<PendingView>, limit: nat) -> Seq<PendingView> {
    if mass(after) <= limit {
        after
    } else {
        Seq::empty()
    }
}

/// The record that a line spells, if it spells one. A record is an object, so
/// a line without an opening brace spells none.
pub open spec fn record_in(raw: Seq<char>) -> Option<EntryView> {
    if raw.contains('{') {
        match read(raw) {
            Some(value) => entry_in(value),
            None => None,
        }
    } else {
        None
    }
}

/// The fields of the summary of a finished test: the package and the test
/// where the record names them, the gathered output where there is any, the
/// time and the action.
pub open spec fn summary(entry: EntryView, output: Seq<char>) -> Seq<FieldView> {
    let package = match entry.package {
        Some(p) => seq![FieldView { key: "Package"@, value: JsonView::Text(p) }],
        None => Seq::empty(),
    };
    let test = match entry.test {
        Some(t) => seq![FieldView { key: "Test"@, value: JsonView::Text(t) }],
        None => Seq::empty(),
    };
    let gathered = if output.len() > 0 {
        seq![FieldView { key: "Output"@, value: JsonView::Text(output) }]
    } else {
        Seq::empty()
    };
    package + test + gathered + seq![
        FieldView { key: "Time"@, value: JsonView::Text(entry.time) },
        FieldView { key: "Action"@, value: JsonView::Text(action_name(entry.action)) },
    ]
}

/// The summary of a finished test whose gathered output, line by line, came
/// out as `lines`.
pub open spec fn settled(style: Style, entry: EntryView, lines: Run) -> Outcome {
    Outcome {
        text: Some(
            render(style, 0, JsonView::Object(summary(entry, joined(lines.texts, seq!['\n'])))),
        ),
        buffer: lines.buffer,
    }
}

/// What a record of output does: it adds the output to what is held for its
/// stream and writes nothing.
pub open spec fn absorbed(buffer: Seq<PendingView>, entry: EntryView) -> Outcome {
    Outcome {
        text: None,
        buffer: match entry.output {
            Some(o) => with_more(buffer, entry.key(), o),
            None => buffer,
        },
    }
}

/// A string at indent 0 where records are gathered.
///
/// A line that spells a record is consumed. Any other is rendered as
/// `interpret` says, but that what stands inside it at indent 0 is read in
/// this way again.
pub open spec fn top_interpret(style: Style, buffer: Seq<PendingView>, raw: Seq<char>) -> Outcome
    decreases 2 * (mass(buffer) + raw.len()) + 1, 0nat,
{
    match record_in(raw) {
        Some(entry) => {
            proof {
                lemma_weight_positive(read(raw)->0);
            }
            consume(style, buffer, entry)
        },
        None => match embedded(raw) {
            Some(found) => {
                proof {
                    lemma_embedded_from(raw, 0);
                }
                if found.at == 0 {
                    top_render(style, buffer, found.value)
                } else {
                    let first = top_interpret(style, buffer, raw.take(found.at));
                    let second = top_render(
                        style,
                        carried(first.buffer, mass(buffer) + found.at as nat),
                        found.value,
                    );
                    Outcome {
                        text: Some(
                            array_block(0, kept(kept(Seq::empty(), first.text), second.text)),
                        ),
                        buffer: second.buffer,
                    }
                }
            },
            None => Outcome { text: Some(plain(style, 0, raw)), buffer },
        },
    }
}

/// A value at indent 0 where records are gathered.
pub open spec fn top_render(style: Style, buffer: Seq<PendingView>, value: JsonView) -> Outcome
    decreases 2 * (mass(buffer) + value.weight()), 0nat,
{
    match value {
        JsonView::Text(s) => top_interpret(style, buffer, s),
        JsonView::Array(items) => {
            let run = top_items(style, buffer, items);
            Outcome { text: Some(array_block(0, run.texts)), buffer: run.buffer }
        },
        _ => Outcome { text: Some(render(style, 0, value)), buffer },
    }
}

/// The items of an array at indent 0, one after the other.
pub open spec fn top_items(style: Style, buffer: Seq<PendingView>, items: Seq<JsonView>) -> Run
    decreases 2 * (mass(buffer) + items_weight(items)) + 1, items.len(),
{
    if items.len() == 0 {
        Run { texts: Seq::empty(), buffer }
    } else {
        let before = top_items(style, buffer, items.drop_last());
        let last = top_render(
            style,
            carried(before.buffer, mass(buffer) + items_weight(items.drop_last())),
            items.last(),
        );
        Run { texts: kept(before.texts, last.text), buffer: last.buffer }
    }
}

/// The lines of a gathered output, one after the other.
pub open spec fn top_lines(style: Style, buffer: Seq<PendingView>, lines: Seq<Seq<char>>) -> Run
    decreases 2 * (mass(buffer) + total_len(lines)) + 1, lines.len(),
{
    if lines.len() == 0 {
        Run { texts: Seq::empty(), buffer }
    } else {
        let before = top_lines(style, buffer, lines.drop_last());
        let last = top_interpret(
            style,
            carried(before.buffer, mass(buffer) + total_len(lines.drop_last())),
            lines.last(),
        );
        Run { texts: kept(before.texts, last.text), buffer: last.buffer }
    }
}

/// What a record does where records are gathered.
///
/// Output is absorbed. A pass or a fail takes what was gathered for its
/// stream out of the buffer, reads it line by line, and writes the summary.
pub open spec fn consume(style: Style, buffer: Seq<PendingView>, entry: EntryView) -> Outcome
    decreases 2 * mass(buffer) + 2, 0nat,
{
    match entry.action {
        GoTestAction::Output => absorbed(buffer, entry),
        _ => {
            proof {
                lemma_mass_without(buffer, entry.key());
                lemma_split_lines(held(buffer, entry.key()));
            }
            settled(
                style,
                entry,
                top_lines(
                    style,
                    without(buffer, entry.key()),
                    split_lines(held(buffer, entry.key())),
                ),
            )
        },
    }
}

/// Each of `lines` as a string at indent 0 where no records are gathered.
pub open spec fn plain_lines(style: Style, lines: Seq<Seq<char>>) -> Seq<Seq<char>>
    decreases lines.len(),
{
    if lines.len() == 0 {
        Seq::empty()
    } else {
        plain_lines(style, lines.drop_last()).push(interpret(style, 0, lines.last()))
    }
}

/// What rendering the string `raw` at `indent` writes and does to the buffer.
/// Records are looked for at indent 0 only, and only where `gather` is set.
pub open spec fn interpret_at(
    style: Style,
    gather: bool,
    buffer: Seq<PendingView>,
    indent: nat,
    raw: Seq<char>,
) -> Outcome {
    if gather && indent == 0 {
        top_interpret(style, buffer, raw)
    } else {
        Outcome { text: Some(interpret(style, indent, raw)), buffer }
    }
}

/// What rendering `value` at `indent` writes and does to the buffer.
pub open spec fn render_at(
    style: Style,
    gather: bool,
    buffer: Seq<PendingView>,
    indent: nat,
    value: JsonView,
) -> Outcome {
    if gather && indent == 0 {
        top_render(style, buffer, value)
    } else {
        Outcome { text: Some(render(style, indent, value)), buffer }
    }
}

/// What the record `entry` writes and does to the buffer.
pub open spec fn consume_at(
    style: Style,
    gather: bool,
    buffer: Seq<PendingView>,
    entry: EntryView,
) -> Outcome {
    if gather {
        consume(style, buffer, entry)
    } else {
        match entry.action {
            GoTestAction::Output => absorbed(buffer, entry),
            _ => settled(
                style,
                entry,
                Run {
                    texts: plain_lines(style, split_lines(held(buffer, entry.key()))),
                    buffer: without(buffer, entry.key()),
                },
            ),
        }
    }
}

/// Whether `chars` holds an opening brace.
fn has_brace(chars: &Vec<char>) -> (r: bool)
    ensures
        r == chars@.contains('{'),
{
    let mut i: usize = 0;
    while i < chars.len()
        invariant
            i <= chars.len(),
            forall|k: int| 0 <= k < i ==> chars@[k] != '{',
        decreases chars.len() - i,
    {
        if chars[i] == '{' {
            return true;
        }
        i = i + 1;
    }
    false
}

/// Reads a line as a record.
fn read_record(raw: &str, chars: &Vec<char>) -> (r: Option<GoTestEntry>)
    requires
        chars@ == raw@,
    ensures
        entry_view(r) == record_in(raw@),
{
    if has_brace(chars) {
        match read_json(raw) {
            Some(value) => GoTestEntry::from_json(&value),
            None => None,
        }
    } else {
        None
    }
}

/// Builds the summary of a finished test.
fn summarize(entry: GoTestEntry, output: String) -> (r: Json)
    ensures
        r@ == JsonView::Object(summary(entry@, output@)),
{
    let mut fields: Vec<Field> = Vec::new();
    if let Some(package) = entry.package {
        fields.push(Field { key: String::from_str("Package"), value: Json::String(package) });
    }
    if let Some(test) = entry.test {
        fields.push(Field { key: String::from_str("Test"), value: Json::String(test) });
    }
    if !output.as_str().is_empty() {
        fields.push(Field { key: String::from_str("Output"), value: Json::String(output) });
    }
    fields.push(Field { key: String::from_str("Time"), value: Json::String(entry.time) });
    fields.push(
        Field { key: String::from_str("Action"), value: Json::String(entry.action.name()) },
    );
    proof {
        crate::json::lemma_field_views(fields);
        assert(crate::json::field_views(fields) =~= summary(entry@, output@));
    }
    Json::Object(fields)
}

/// A renderer that gathers the output of running tests and writes it with
/// the record that ends the test.
#[derive(Debug)]
pub struct Prettifier {
    pub width: Option<u16>,
    pub use_bold: bool,
    pub parse_go_test_output: bool,
    pub go_test_entries: Buffer,
}

impl Prettifier {
    /// How the prettifier renders.
    pub open spec fn style(&self) -> Style {
        Style { width: self.width, use_bold: self.use_bold }
    }

    /// Whether two prettifiers are set up alike.
    pub open spec fn set_like(&self, other: &Prettifier) -> bool {
        &&& self.width == other.width
        &&& self.use_bold == other.use_bold
        &&& self.parse_go_test_output == other.parse_go_test_output
    }

    /// A prettifier that holds no output yet.
    pub fn new(width: Option<u16>, use_bold: bool, parse_go_test_output: bool) -> (r: Prettifier)
        ensures
            r.width == width,
            r.use_bold == use_bold,
            r.parse_go_test_output == parse_go_test_output,
            r.go_test_entries@ == Seq::<PendingView>::empty(),
    {
        Prettifier { width, use_bold, parse_go_test_output, go_test_entries: Buffer::new() }
    }

    /// A prettifier for the given switches. It holds no output and wraps no
    /// lines until it is told a width.
    pub fn with_options(options: Options) -> (r: Prettifier)
        ensures
            r.width is None,
            r.use_bold == options.use_bold,
            r.parse_go_test_output == options.parse_go_test_output,
            r.go_test_entries@ == Seq::<PendingView>::empty(),
    {
        Prettifier::new(None, options.use_bold, options.parse_go_test_output)
    }

    /// Takes one line of input: sets the width to wrap to, which may have
    /// changed since the line before, and renders the line at indent 0. The
    /// result is what to write, if anything.
    pub fn feed(&mut self, width: Option<u16>, line: String) -> (out: Option<String>)
        ensures
            final(self).width == width,
            final(self).use_bold == old(self).use_bold,
            final(self).parse_go_test_output == old(self).parse_go_test_output,
            (Outcome { text: text_view(out), buffer: final(self).go_test_entries@ })
                == interpret_at(
                Style { width, use_bold: old(self).use_bold },
                old(self).parse_go_test_output,
                old(self).go_test_entries@,
                0,
                line@,
            ),
            mass(final(self).go_test_entries@) <= mass(old(self).go_test_entries@) + line@.len(),
            distinct(final(self).go_test_entries@),
    {
        self.width = width;
        self.parse_string(0, line)
    }

    /// `s` in bold where the prettifier sets keys in bold, `s` itself where it
    /// does not.
    pub fn bold(&self, s: String) -> (r: String)
        ensures
            r@ == if self.use_bold {
                crate::render::emboldened(s@)
            } else {
                s@
            },
    {
        let style = Style { width: self.width, use_bold: self.use_bold };
        style.bold(s)
    }

    /// Renders `value` at `indent`.
    ///
    /// The result is `None` only where the value is a string that spells a
    /// record of output, which is gathered and not written.
    pub fn dive(&mut self, indent: usize, value: Json) -> (out: Option<String>)
        ensures
            final(self).set_like(old(self)),
            (Outcome { text: text_view(out), buffer: final(self).go_test_entries@ }) == render_at(
                old(self).style(),
                old(self).parse_go_test_output,
                old(self).go_test_entries@,
                indent as nat,
                value@,
            ),
            mass(final(self).go_test_entries@) <= mass(old(self).go_test_entries@)
                + value@.weight(),
            distinct(final(self).go_test_entries@),
    {
        let out = if self.parse_go_test_output && indent == 0 {
            self.render_top(&value)
        } else {
            let style = Style { width: self.width, use_bold: self.use_bold };
            Some(render_value(style, indent, &value))
        };
        proof {
            use_type_invariant(&self.go_test_entries);
        }
        out
    }

    /// Renders the string `s` at `indent`: as a record, as the JSON value that
    /// stands in it, or as plain text.
    ///
    /// The result is `None` only where `s` spells a record of output, which is
    /// gathered and not written.
    pub fn parse_string(&mut self, indent: usize, s: String) -> (out: Option<String>)
        ensures
            final(self).set_like(old(self)),
            (Outcome { text: text_view(out), buffer: final(self).go_test_entries@ })
                == interpret_at(
                old(self).style(),
                old(self).parse_go_test_output,
                old(self).go_test_entries@,
                indent as nat,
                s@,
            ),
            mass(final(self).go_test_entries@) <= mass(old(self).go_test_entries@) + s@.len(),
            distinct(final(self).go_test_entries@),
    {
        let out = if self.parse_go_test_output && indent == 0 {
            self.interpret_top(s.as_str())
        } else {
            let style = Style { width: self.width, use_bold: self.use_bold };
            Some(interpret_text(style, indent, s.as_str()))
        };
        proof {
            use_type_invariant(&self.go_test_entries);
        }
        out
    }

    /// Consumes a record: gathers its output, or writes the summary of the
    /// test that it ends.
    pub fn parse_go_test_entry(&mut self, go_test_entry: GoTestEntry) -> (out: Option<String>)
        ensures
            final(self).set_like(old(self)),
            (Outcome { text: text_view(out), buffer: final(self).go_test_entries@ })
                == consume_at(
                old(self).style(),
                old(self).parse_go_test_output,
                old(self).go_test_entries@,
                go_test_entry@,
            ),
            mass(final(self).go_test_entries@) <= mass(old(self).go_test_entries@) + (
            match go_test_entry@.output {
                Some(o) => o.len(),
                None => 0,
            }),
            distinct(final(self).go_test_entries@),
    {
        let out = if self.parse_go_test_output {
            self.consume_top(go_test_entry)
        } else {
            self.consume_plain(go_test_entry)
        };
        proof {
            use_type_invariant(&self.go_test_entries);
        }
        out
    }

    /// Consumes a record where no records are gathered from the strings that
    /// are rendered.
    fn consume_plain(&mut self, entry: GoTestEntry) -> (out: Option<String>)
        requires
            !old(self).parse_go_test_output,
        ensures
            final(self).set_like(old(self)),
            (Outcome { text: text_view(out), buffer: final(self).go_test_entries@ })
                == consume_at(old(self).style(), false, old(self).go_test_entries@, entry@),
            mass(final(self).go_test_entries@) <= mass(old(self).go_test_entries@) + (
            match entry@.output {
                Some(o) => o.len(),
                None => 0,
            }),
    {
        let style = Style { width: self.width, use_bold: self.use_bold };
        let ghost start = self.go_test_entries@;
        match entry.action {
            GoTestAction::Output => {
                let key = entry.key();
                if let Some(output) = &entry.output {
                    proof {
                        lemma_mass_with_more(start, key@, output@);
                    }
                    self.go_test_entries.append(key, output.as_str());
                }
                None
            },
            _ => {
                let key = entry.key();
                let gathered = self.go_test_entries.take(&key);
                let ghost all = split_lines(gathered@);
                proof {
                    lemma_mass_without(start, key@);
                    reveal_strlit("\n");
                    assert("\n"@ =~= seq!['\n']);
                    reveal_strlit("");
                    assert(""@ =~= spaces(0));
                }
                let chars = chars_of(gathered.as_str());
                let pieces = split_at_newlines(&chars);
                let mut texts: Vec<String> = Vec::new();
                let mut i: usize = 0;
                assert(all.take(0) =~= Seq::<Seq<char>>::empty());
                assert(views(texts@) =~= Seq::<Seq<char>>::empty());
                while i < pieces.len()
                    invariant
                        i <= pieces.len(),
                        pieces@.len() == all.len(),
                        forall|k: int| 0 <= k < pieces@.len() ==> (#[trigger] pieces@[k])@ == all[k],
                        ""@ == spaces(0),
                        views(texts@) == plain_lines(style, all.take(i as int)),
                    decreases pieces.len() - i,
                {
                    proof {
                        assert(all.take(i + 1).drop_last() =~= all.take(i as int));
                    }
                    let line = text_of(&pieces[i]);
                    let ghost before = views(texts@);
                    let text = interpret_behind(style, "", line.as_str());
                    texts.push(text);
                    assert(views(texts@) =~= before.push(text@));
                    i = i + 1;
                }
                assert(all.take(i as int) =~= all);
                let output = join_with(&texts, "\n");
                let object = summarize(entry, output);
                Some(render_behind(style, "", &object))
            },
        }
    }

    /// Renders a string at indent 0 where records are gathered.
    fn interpret_top(&mut self, raw: &str) -> (out: Option<String>)
        requires
            old(self).parse_go_test_output,
        ensures
            final(self).set_like(old(self)),
            (Outcome { text: text_view(out), buffer: final(self).go_test_entries@ })
                == top_interpret(old(self).style(), old(self).go_test_entries@, raw@),
            mass(final(self).go_test_entries@) <= mass(old(self).go_test_entries@) + raw@.len(),
        decreases 2 * (mass(old(self).go_test_entries@) + raw@.len()) + 1, 0nat,
    {
        let style = Style { width: self.width, use_bold: self.use_bold };
        let ghost start = self.go_test_entries@;
        let chars = chars_of(raw);
        match read_record(raw, &chars) {
            Some(entry) => {
                proof {
                    lemma_weight_positive(read(raw@)->0);
                    lemma_entry_output(read(raw@)->0);
                }
                self.consume_top(entry)
            },
            None => {
                match find_embedded(raw, &chars) {
                    Some(found) => {
                        proof {
                            lemma_embedded_from(raw@, 0);
                        }
                        let at = found.0;
                        let value = found.1;
                        if at == 0 {
                            self.render_top(&value)
                        } else {
                            let prefix = raw.substring_char(0, at);
                            assert(prefix@ =~= raw@.take(at as int));
                            let first = self.interpret_top(prefix);
                            let second = self.render_top(&value);
                            let mut parts: Vec<String> = Vec::new();
                            assert(views(parts@) =~= Seq::<Seq<char>>::empty());
                            proof {
                                reveal_strlit("");
                                assert(""@ =~= bullet(0));
                                assert(""@ =~= spaces(0));
                                reveal_with_fuel(array_lines, 3);
                                let texts = kept(
                                    kept(Seq::empty(), text_view(first)),
                                    text_view(second),
                                );
                                if first is Some && second is Some {
                                    assert(texts.drop_last() =~= seq![first->0@]);
                                    assert(seq![first->0@].drop_last() =~= Seq::<
                                        Seq<char>,
                                    >::empty());
                                } else if first is Some {
                                    assert(texts.drop_last() =~= Seq::<Seq<char>>::empty());
                                } else if second is Some {
                                    assert(texts.drop_last() =~= Seq::<Seq<char>>::empty());
                                }
                            }
                            if let Some(text) = first {
                                push_item(&mut parts, "", text);
                            }
                            if let Some(text) = second {
                                push_item(&mut parts, "", text);
                            }
                            Some(pad_join(&parts, ""))
                        }
                    },
                    None => {
                        proof {
                            reveal_strlit("");
                            assert(""@ =~= spaces(0));
                        }
                        let lines = lay_out(raw, style.wrap_at(0));
                        Some(pad_join(&lines, ""))
                    },
                }
            },
        }
    }

    /// Renders a value at indent 0 where records are gathered.
    fn render_top(&mut self, value: &Json) -> (out: Option<String>)
        requires
            old(self).parse_go_test_output,
        ensures
            final(self).set_like(old(self)),
            (Outcome { text: text_view(out), buffer: final(self).go_test_entries@ }) == top_render(
                old(self).style(),
                old(self).go_test_entries@,
                value@,
            ),
            mass(final(self).go_test_entries@) <= mass(old(self).go_test_entries@)
                + value@.weight(),
        decreases 2 * (mass(old(self).go_test_entries@) + value@.weight()), 0nat,
    {
        let style = Style { width: self.width, use_bold: self.use_bold };
        let ghost start = self.go_test_entries@;
        proof {
            reveal_strlit("");
            assert(""@ =~= spaces(0));
            assert(""@ =~= bullet(0));
        }
        match value {
            Json::String(s) => self.interpret_top(s.as_str()),
            Json::Array(items) => {
                let ghost all = item_views(*items);
                proof {
                    lemma_item_views(*items);
                }
                let mut parts: Vec<String> = Vec::new();
                let mut i: usize = 0;
                assert(all.take(0) =~= Seq::<JsonView>::empty());
                assert(views(parts@) =~= Seq::<Seq<char>>::empty());
                while i < items.len()
                    invariant
                        i <= items.len(),
                        value@ == JsonView::Array(all),
                        all == item_views(*items),
                        all.len() == items.len(),
                        forall|k: int| 0 <= k < items.len() ==> #[trigger] all[k] == items[k]@,
                        self.set_like(old(self)),
                        self.parse_go_test_output,
                        style == old(self).style(),
                        start == old(self).go_test_entries@,
                        ""@ == bullet(0),
                        views(parts@) == array_lines(
                            bullet(0),
                            top_items(style, start, all.take(i as int)).texts,
                        ),
                        self.go_test_entries@ == top_items(style, start, all.take(i as int)).buffer,
                        mass(self.go_test_entries@) <= mass(start) + items_weight(
                            all.take(i as int),
                        ),
                    decreases items.len() - i,
                {
                    proof {
                        lemma_items_weight_prefix(all, i as int);
                        lemma_items_weight_prefix(all, i + 1);
                        assert(all.take(i + 1).drop_last() =~= all.take(i as int));
                    }
                    let ghost before = top_items(style, start, all.take(i as int));
                    let text = self.render_top(&items[i]);
                    proof {
                        let after = top_items(style, start, all.take(i + 1));
                        assert(after.texts == kept(before.texts, text_view(text)));
                        if text is Some {
                            assert(after.texts.drop_last() =~= before.texts);
                        }
                    }
                    if let Some(t) = text {
                        push_item(&mut parts, "", t);
                    }
                    i = i + 1;
                }
                assert(all.take(i as int) =~= all);
                Some(pad_join(&parts, ""))
            },
            _ => Some(render_behind(style, "", value)),
        }
    }

    /// Consumes a record where records are gathered.
    fn consume_top(&mut self, entry: GoTestEntry) -> (out: Option<String>)
        requires
            old(self).parse_go_test_output,
        ensures
            final(self).set_like(old(self)),
            (Outcome { text: text_view(out), buffer: final(self).go_test_entries@ }) == consume(
                old(self).style(),
                old(self).go_test_entries@,
                entry@,
            ),
            mass(final(self).go_test_entries@) <= mass(old(self).go_test_entries@) + (
            match entry@.output {
                Some(o) => o.len(),
                None => 0,
            }),
        decreases 2 * mass(old(self).go_test_entries@) + 2, 0nat,
    {
        let style = Style { width: self.width, use_bold: self.use_bold };
        let ghost start = self.go_test_entries@;
        match entry.action {
            GoTestAction::Output => {
                let key = entry.key();
                if let Some(output) = &entry.output {
                    proof {
                        lemma_mass_with_more(start, key@, output@);
                    }
                    self.go_test_entries.append(key, output.as_str());
                }
                None
            },
            _ => {
                let key = entry.key();
                let gathered = self.go_test_entries.take(&key);
                let ghost rest = without(start, key@);
                let ghost all = split_lines(gathered@);
                proof {
                    lemma_mass_without(start, key@);
                    lemma_split_lines(gathered@);
                }
                let chars = chars_of(gathered.as_str());
                let pieces = split_at_newlines(&chars);
                let mut texts: Vec<String> = Vec::new();
                let mut i: usize = 0;
                assert(all.take(0) =~= Seq::<Seq<char>>::empty());
                assert(views(texts@) =~= Seq::<Seq<char>>::empty());
                while i < pieces.len()
                    invariant
                        i <= pieces.len(),
                        pieces@.len() == all.len(),
                        forall|k: int| 0 <= k < pieces@.len() ==> (#[trigger] pieces@[k])@ == all[k],
                        self.set_like(old(self)),
                        self.parse_go_test_output,
                        style == old(self).style(),
                        mass(rest) + total_len(all) <= mass(start),
                        start == old(self).go_test_entries@,
                        views(texts@) == top_lines(style, rest, all.take(i as int)).texts,
                        self.go_test_entries@ == top_lines(style, rest, all.take(i as int)).buffer,
                        mass(self.go_test_entries@) <= mass(rest) + total_len(all.take(i as int)),
                    decreases pieces.len() - i,
                {
                    proof {
                        lemma_total_len_prefix(all, i as int);
                        lemma_total_len_prefix(all, i + 1);
                        assert(all.take(i + 1).drop_last() =~= all.take(i as int));
                    }
                    let line = text_of(&pieces[i]);
                    let ghost before = views(texts@);
                    let text = self.interpret_top(line.as_str());
                    if let Some(t) = text {
                        texts.push(t);
                        assert(views(texts@) =~= before.push(t@));
                    }
                    i = i + 1;
                }
                assert(all.take(i as int) =~= all);
                proof {
                    reveal_strlit("\n");
                    assert("\n"@ =~= seq!['\n']);
                    reveal_strlit("");
                    assert(""@ =~= spaces(0));
                }
                let output = join_with(&texts, "\n");
                let object = summarize(entry, output);
                Some(render_behind(style, "", &object))
            },
        }
    }
}

} // verus!
