//! What holds of every rendering.

use crate::buffer::{
    distinct, held, lemma_held_with_more, lemma_held_without, lemma_mass_with_more,
    lemma_mass_without, mass, slot, without, PendingView,
};
use crate::event::{lemma_entry_output, EntryView, GoTestAction};
use crate::json::{items_weight, lemma_weight_positive, read, FieldView, JsonView};
use crate::prettifier::{
    absorbed, carried, consume, consume_at, interpret_at, kept, record_in, render_at,
    top_interpret, top_items, top_lines, top_render, Outcome, Run,
};
use crate::render::{
    array_block, array_lines, bullet, embedded, embedded_from, interpret, key_span, key_width,
    label, lemma_embedded_from, lemma_render_values, object_lines, plain, render, render_items, render_values,
    wrap_size, Style,
};
use crate::text::{
    chunked, expand_tabs, joined, laid_out, lemma_chunked, lemma_join_split,
    lemma_padded_at_zero, lemma_split_lines, lemma_wrapped_fits, padded, spaces, split_lines,
    total_len, wrapped,
};
use vstd::prelude::*;

verus! {

/// The canonical text of a scalar: `null`, `true` or `false`, or the text of
/// the number.
pub open spec fn canonical(value: JsonView) -> Seq<char> {
    match value {
        JsonView::Bool(b) => if b {
            "true"@
        } else {
            "false"@
        },
        JsonView::Number(text) => text,
        _ => "null"@,
    }
}

/// A scalar renders as its canonical text and nothing else, at every indent,
/// in every style, and leaves the buffer as it is.
pub proof fn lemma_scalar(
    style: Style,
    gather: bool,
    buffer: Seq<PendingView>,
    indent: nat,
    value: JsonView,
)
    requires
        value is Null || value is Bool || value is Number,
    ensures
        render(style, indent, value) == canonical(value),
        render_at(style, gather, buffer, indent, value) == (Outcome {
            text: Some(canonical(value)),
            buffer,
        }),
{
}

/// An object of `n` fields renders as `n` lines, joined by newlines and all but
/// the first behind the indent. Each line begins with its key as it is shown,
/// padded with spaces to the widest key, then a colon and a space, and goes
/// on with the value rendered that much further in.
pub proof fn lemma_object(style: Style, indent: nat, fields: Seq<FieldView>)
    ensures
        ({
            let deeper = indent + key_span(fields) + 2;
            let lines = object_lines(style, indent, fields, render_values(style, deeper, fields));
            &&& render(style, indent, JsonView::Object(fields)) == padded(lines, indent)
            &&& forall|gather: bool, buffer: Seq<PendingView>| #[trigger]
                render_at(style, gather, buffer, indent, JsonView::Object(fields)) == (Outcome {
                    text: Some(padded(lines, indent)),
                    buffer,
                })
            &&& lines.len() == fields.len()
            &&& forall|i: int|
                0 <= i < fields.len() ==> #[trigger] lines[i] == label(style, indent, fields[i].key)
                    + spaces((key_span(fields) - key_width(fields[i].key)) as nat) + seq![':', ' ']
                    + render(style, deeper, fields[i].value)
        }),
{
    let deeper = indent + key_span(fields) + 2;
    let lines = object_lines(style, indent, fields, render_values(style, deeper, fields));
    assert forall|i: int| 0 <= i < fields.len() implies #[trigger] lines[i] == label(
        style,
        indent,
        fields[i].key,
    ) + spaces((key_span(fields) - key_width(fields[i].key)) as nat) + seq![':', ' '] + render(
        style,
        deeper,
        fields[i].value,
    ) by {
        lemma_render_values(style, deeper, fields, i);
    }
}

/// A text without brace and bracket holds no JSON value.
pub proof fn lemma_nothing_embedded(raw: Seq<char>, from: int)
    requires
        0 <= from,
        !raw.contains('{'),
        !raw.contains('['),
    ensures
        embedded_from(raw, from) is None,
    decreases raw.len() - from,
{
    if from < raw.len() && raw[from] != '\n' {
        assert(raw.contains(raw[from]));
        lemma_nothing_embedded(raw, from + 1);
    }
}

/// A text without a newline is one line.
pub proof fn lemma_one_line(raw: Seq<char>)
    requires
        !raw.contains('\n'),
    ensures
        split_lines(raw) == seq![raw],
    decreases raw.len(),
{
    if raw.len() == 0 {
        assert(raw =~= Seq::<char>::empty());
    } else {
        assert(raw.contains(raw.last()));
        assert forall|c: char| raw.drop_last().contains(c) implies raw.contains(c) by {
            let i = choose|i: int| 0 <= i < raw.drop_last().len() && raw.drop_last()[i] == c;
            assert(raw[i] == c);
        }
        lemma_one_line(raw.drop_last());
        let before = seq![raw.drop_last()];
        assert(raw.drop_last().push(raw.last()) =~= raw);
        assert(before.last().push(raw.last()) == raw);
        assert(before.drop_last().push(before.last().push(raw.last())) =~= seq![raw]);
    }
}

/// A text without a tab stays as it is when tabs are expanded.
pub proof fn lemma_no_tabs(raw: Seq<char>)
    requires
        !raw.contains('\t'),
    ensures
        expand_tabs(raw) == raw,
    decreases raw.len(),
{
    if raw.len() == 0 {
        assert(raw =~= Seq::<char>::empty());
    } else {
        assert(raw.contains(raw.last()));
        assert forall|c: char| raw.drop_last().contains(c) implies raw.contains(c) by {
            let i = choose|i: int| 0 <= i < raw.drop_last().len() && raw.drop_last()[i] == c;
            assert(raw[i] == c);
        }
        lemma_no_tabs(raw.drop_last());
        assert(raw.drop_last().push(raw.last()) =~= raw);
    }
}

/// A plain text of one line that is shorter than the width to wrap to renders
/// as itself whatever the indent: no line follows the first, so no padding is
/// written. Where records are gathered it is no record, and the buffer stays
/// as it is.
///
/// Where lines are wrapped at some indent, which takes a width of more than
/// 10, the text must hold no tab: a tab is expanded only at an indent at which
/// lines are wrapped.
pub proof fn lemma_plain_text(
    style: Style,
    gather: bool,
    buffer: Seq<PendingView>,
    indent: nat,
    raw: Seq<char>,
)
    requires
        !raw.contains('{'),
        !raw.contains('['),
        !raw.contains('\n'),
        style.width matches Some(w) ==> raw.len() < w && (w > 10 ==> !raw.contains('\t')),
    ensures
        interpret(style, indent, raw) == raw,
        interpret_at(style, gather, buffer, indent, raw) == (Outcome { text: Some(raw), buffer }),
{
    lemma_nothing_embedded(raw, 0);
    lemma_one_line(raw);
    if wrap_size(style, indent) is Some {
        lemma_no_tabs(raw);
    }
    let one = seq![raw];
    assert(one.drop_last() =~= Seq::<Seq<char>>::empty());
    let lines = laid_out(raw, wrap_size(style, indent));
    match wrap_size(style, indent) {
        Some(size) => {
            assert(wrapped(one.drop_last(), size) =~= Seq::<Seq<char>>::empty());
            assert(lines =~= chunked(raw, size));
            if raw.len() == 0 {
                assert(padded(lines, indent) =~= raw);
            } else {
                assert(lines =~= one);
            }
        },
        None => {},
    }
    if raw.len() > 0 {
        let shown = Seq::new(
            one.len(),
            |i: int|
                if i == 0 {
                    one[i]
                } else {
                    spaces(indent) + one[i]
                },
        );
        assert(joined(shown, seq!['\n']) == shown[0]);
    }
    assert(plain(style, indent, raw) == raw);
    assert(record_in(raw) is None);
}

/// Where lines are wrapped, a plain text of one line without tabs is cut into
/// pieces of the width, the last one shorter if it does not divide evenly: as
/// few pieces as hold it, none longer than the width, joined by newlines and
/// all but the first behind the indent.
pub proof fn lemma_long_line(style: Style, indent: nat, raw: Seq<char>)
    requires
        wrap_size(style, indent) is Some,
        embedded(raw) is None,
        !raw.contains('\n'),
        !raw.contains('\t'),
    ensures
        ({
            let size = wrap_size(style, indent)->0;
            let lines = chunked(raw, size);
            &&& interpret(style, indent, raw) == padded(lines, indent)
            &&& forall|i: int| 0 <= i < lines.len() ==> 1 <= (#[trigger] lines[i]).len() <= size
            &&& total_len(lines) == raw.len()
            &&& raw.len() <= lines.len() * size
            &&& raw.len() > 0 ==> (lines.len() - 1) * size < raw.len()
        }),
{
    let size = wrap_size(style, indent)->0;
    lemma_one_line(raw);
    lemma_no_tabs(raw);
    lemma_chunked(raw, size);
    let one = seq![raw];
    assert(one.drop_last() =~= Seq::<Seq<char>>::empty());
    assert(wrapped(one.drop_last(), size) =~= Seq::<Seq<char>>::empty());
    assert(wrapped(one, size) =~= chunked(raw, size));
}

/// Where lines are wrapped, no line of a plain text comes out longer than the
/// width, not counting the padding before it.
pub proof fn lemma_wrapped_text(style: Style, indent: nat, raw: Seq<char>)
    requires
        wrap_size(style, indent) is Some,
    ensures
        ({
            let size = wrap_size(style, indent)->0;
            let lines = laid_out(raw, Some(size));
            &&& plain(style, indent, raw) == padded(lines, indent)
            &&& forall|i: int| 0 <= i < lines.len() ==> (#[trigger] lines[i]).len() <= size
        }),
{
    lemma_wrapped_fits(split_lines(raw), wrap_size(style, indent)->0);
}

/// At indent 0 and with no width to wrap to, a text in which no JSON value
/// stands renders as itself, however many lines it has.
pub proof fn lemma_unwrapped_text(style: Style, raw: Seq<char>)
    requires
        style.width is None,
        embedded(raw) is None,
    ensures
        interpret(style, 0, raw) == raw,
{
    lemma_join_split(raw);
    lemma_padded_at_zero(split_lines(raw));
}

/// An item that comes out empty writes no line.
pub proof fn lemma_array_lines_skip(mark: Seq<char>, texts: Seq<Seq<char>>, i: int)
    requires
        0 <= i < texts.len(),
        texts[i].len() == 0,
    ensures
        array_lines(mark, texts) == array_lines(mark, texts.remove(i)),
    decreases texts.len(),
{
    if i == texts.len() - 1 {
        assert(texts.remove(i) =~= texts.drop_last());
    } else {
        lemma_array_lines_skip(mark, texts.drop_last(), i);
        assert(texts.remove(i).drop_last() =~= texts.drop_last().remove(i));
        assert(texts.remove(i).last() == texts.last());
    }
}

/// `render_items` goes item by item.
pub proof fn lemma_render_items(style: Style, indent: nat, items: Seq<JsonView>, i: int)
    requires
        0 <= i < items.len(),
    ensures
        render_items(style, indent, items).len() == items.len(),
        render_items(style, indent, items)[i] == render(style, indent, items[i]),
        render_items(style, indent, items.remove(i)) == render_items(style, indent, items).remove(
            i,
        ),
    decreases items.len(),
{
    let all = render_items(style, indent, items);
    if items.len() > 1 {
        if i < items.len() - 1 {
            lemma_render_items(style, indent, items.drop_last(), i);
            assert(items.remove(i).drop_last() =~= items.drop_last().remove(i));
            assert(items.remove(i).last() == items.last());
            assert(render_items(style, indent, items.remove(i)) =~= all.remove(i));
        } else {
            lemma_render_items(style, indent, items.drop_last(), 0);
            assert(items.remove(i) =~= items.drop_last());
            assert(all.remove(i) =~= render_items(style, indent, items.drop_last()));
        }
    } else {
        assert(render_items(style, indent, items.drop_last()).len() == 0);
        assert(items.remove(i) =~= items.drop_last());
        assert(all.remove(i) =~= render_items(style, indent, items.drop_last()));
    }
}

/// An item of an array that renders as the empty text is left out: the array
/// renders as it would without that item.
pub proof fn lemma_empty_item(style: Style, indent: nat, items: Seq<JsonView>, i: int)
    requires
        0 <= i < items.len(),
        render(style, indent + bullet(indent).len(), items[i]).len() == 0,
    ensures
        render(style, indent, JsonView::Array(items)) == render(
            style,
            indent,
            JsonView::Array(items.remove(i)),
        ),
{
    let deeper = indent + bullet(indent).len();
    lemma_render_items(style, deeper, items, i);
    lemma_array_lines_skip(bullet(indent), render_items(style, deeper, items), i);
}

/// An array renders as its items do, one after the other, each that is not
/// empty on a line of its own behind the bullet; where records are gathered,
/// an item that was gathered writes nothing.
pub proof fn lemma_array(style: Style, buffer: Seq<PendingView>, indent: nat, items: Seq<JsonView>)
    ensures
        render(style, indent, JsonView::Array(items)) == array_block(
            indent,
            render_items(style, indent + bullet(indent).len(), items),
        ),
        top_render(style, buffer, JsonView::Array(items)).text == Some(
            array_block(0, top_items(style, buffer, items).texts),
        ),
{
}

/// A text that comes out empty among the items of an array is left out of the
/// array: the array is written as it would be without that text.
pub proof fn lemma_array_block_skip(indent: nat, texts: Seq<Seq<char>>, i: int)
    requires
        0 <= i < texts.len(),
        texts[i].len() == 0,
    ensures
        array_block(indent, texts) == array_block(indent, texts.remove(i)),
{
    lemma_array_lines_skip(bullet(indent), texts, i);
}

/// A string with text before the JSON value that stands in it renders as the
/// array of that text and that value does.
pub proof fn lemma_embedded_as_array(style: Style, indent: nat, raw: Seq<char>)
    requires
        embedded(raw) matches Some(found) && found.at > 0,
    ensures
        interpret(style, indent, raw) == render(
            style,
            indent,
            JsonView::Array(
                seq![JsonView::Text(raw.take(embedded(raw)->0.at)), embedded(raw)->0.value],
            ),
        ),
{
    let found = embedded(raw)->0;
    let inner = indent + bullet(indent).len();
    let pair = seq![JsonView::Text(raw.take(found.at)), found.value];
    let head = seq![JsonView::Text(raw.take(found.at))];
    assert(pair.drop_last() =~= head);
    assert(head.drop_last() =~= Seq::<JsonView>::empty());
    assert(render_items(style, inner, head.drop_last()) =~= Seq::<Seq<char>>::empty());
    assert(head.last() == JsonView::Text(raw.take(found.at)));
    assert(pair.last() == found.value);
    assert(render(style, inner, head.last()) == interpret(style, inner, raw.take(found.at)));
    assert(render_items(style, inner, head) =~= seq![
        interpret(style, inner, raw.take(found.at)),
    ]);
    assert(render_items(style, inner, pair) =~= seq![
        interpret(style, inner, raw.take(found.at)),
        render(style, inner, found.value),
    ]);
}

/// Where records are gathered, a line that is no record and has text before
/// the JSON value that stands in it renders, and leaves the buffer, as the
/// array of that text and that value does.
pub proof fn lemma_embedded_as_array_top(style: Style, buffer: Seq<PendingView>, raw: Seq<char>)
    requires
        record_in(raw) is None,
        embedded(raw) matches Some(found) && found.at > 0,
    ensures
        top_interpret(style, buffer, raw) == top_render(
            style,
            buffer,
            JsonView::Array(
                seq![JsonView::Text(raw.take(embedded(raw)->0.at)), embedded(raw)->0.value],
            ),
        ),
{
    let found = embedded(raw)->0;
    lemma_embedded_from(raw, 0);
    let prefix = raw.take(found.at);
    let pair = seq![JsonView::Text(prefix), found.value];
    let head = seq![JsonView::Text(prefix)];
    assert(pair.drop_last() =~= head);
    assert(head.drop_last() =~= Seq::<JsonView>::empty());
    lemma_top_interpret_bound(style, buffer, prefix);
    let none = top_items(style, buffer, head.drop_last());
    assert(none.buffer == buffer);
    assert(items_weight(head.drop_last()) == 0);
    assert(carried(buffer, mass(buffer)) == buffer);
    let first = top_interpret(style, buffer, prefix);
    assert(head.last() == JsonView::Text(prefix));
    assert(pair.last() == found.value);
    assert(top_render(style, buffer, head.last()) == first);
    assert(items_weight(head) == items_weight(head.drop_last()) + head.last().weight());
    assert(top_items(style, buffer, head).buffer == first.buffer);
    assert(top_items(style, buffer, head).texts == kept(Seq::empty(), first.text));
    assert(items_weight(head) == prefix.len() + 1);
}

/// Where no records are gathered from what is rendered, the record that ends
/// a test leaves nothing behind for its stream.
pub proof fn lemma_finished_test_is_dropped(
    style: Style,
    buffer: Seq<PendingView>,
    entry: EntryView,
)
    requires
        distinct(buffer),
        entry.action != GoTestAction::Output,
    ensures
        slot(consume_at(style, false, buffer, entry).buffer, entry.key(), 0) is None,
        consume_at(style, false, buffer, entry).text is Some,
{
    lemma_held_without(buffer, entry.key(), entry.key());
}

/// A record of output writes nothing, and its output joins what is held for
/// its stream, behind what came before.
pub proof fn lemma_output_is_held(
    style: Style,
    gather: bool,
    buffer: Seq<PendingView>,
    entry: EntryView,
)
    requires
        entry.action == GoTestAction::Output,
    ensures
        consume_at(style, gather, buffer, entry) == absorbed(buffer, entry),
        absorbed(buffer, entry).text is None,
        held(absorbed(buffer, entry).buffer, entry.key()) == held(buffer, entry.key()) + (
        match entry.output {
            Some(o) => o,
            None => Seq::empty(),
        }),
{
    match entry.output {
        Some(o) => {
            lemma_held_with_more(buffer, entry.key(), o, entry.key());
        },
        None => {
            assert(held(buffer, entry.key()) + Seq::<char>::empty() =~= held(buffer, entry.key()));
        },
    }
}

/// Nothing is written only for a string at indent 0 where records are
/// gathered: any other value, and any string elsewhere, is written, if only as
/// the empty text.
pub proof fn lemma_what_is_written(
    style: Style,
    gather: bool,
    buffer: Seq<PendingView>,
    indent: nat,
    raw: Seq<char>,
    value: JsonView,
)
    ensures
        interpret_at(style, gather, buffer, indent, raw).text is None ==> gather && indent == 0,
        render_at(style, gather, buffer, indent, value).text is None ==> gather && indent == 0
            && value is Text,
{
}

/// Where no records are gathered, rendering a string or a value always writes
/// a text and leaves the buffer as it is.
pub proof fn lemma_nothing_gathered(
    style: Style,
    buffer: Seq<PendingView>,
    indent: nat,
    raw: Seq<char>,
    value: JsonView,
)
    ensures
        interpret_at(style, false, buffer, indent, raw) == (Outcome {
            text: Some(interpret(style, indent, raw)),
            buffer,
        }),
        render_at(style, false, buffer, indent, value) == (Outcome {
            text: Some(render(style, indent, value)),
            buffer,
        }),
{
}

/// Every item that is written is written behind the bullet, and there are no
/// more lines than items.
pub proof fn lemma_array_lines(mark: Seq<char>, texts: Seq<Seq<char>>)
    ensures
        array_lines(mark, texts).len() <= texts.len(),
        (forall|i: int| 0 <= i < texts.len() ==> (#[trigger] texts[i]).len() > 0) ==> array_lines(
            mark,
            texts,
        ).len() == texts.len(),
    decreases texts.len(),
{
    if texts.len() > 0 {
        lemma_array_lines(mark, texts.drop_last());
        if forall|i: int| 0 <= i < texts.len() ==> (#[trigger] texts[i]).len() > 0 {
            assert forall|i: int| 0 <= i < texts.drop_last().len() implies (
            #[trigger] texts.drop_last()[i]).len() > 0 by {
                assert(texts.drop_last()[i] == texts[i]);
            }
            assert(texts.last() == texts[texts.len() - 1]);
        }
    }
}

/// The length of the output that a record carries; 0 where it carries none.
pub open spec fn output_len(entry: EntryView) -> nat {
    match entry.output {
        Some(o) => o.len(),
        None => 0,
    }
}

/// Rendering a string leaves no more in the buffer than was there and the
/// string has characters.
pub proof fn lemma_top_interpret_bound(style: Style, buffer: Seq<PendingView>, raw: Seq<char>)
    ensures
        mass(top_interpret(style, buffer, raw).buffer) <= mass(buffer) + raw.len(),
    decreases 2 * (mass(buffer) + raw.len()) + 1, 0nat,
{
    match record_in(raw) {
        Some(entry) => {
            lemma_weight_positive(read(raw)->0);
            lemma_entry_output(read(raw)->0);
            lemma_consume_bound(style, buffer, entry);
        },
        None => match embedded(raw) {
            Some(found) => {
                lemma_embedded_from(raw, 0);
                if found.at == 0 {
                    lemma_top_render_bound(style, buffer, found.value);
                } else {
                    lemma_top_interpret_bound(style, buffer, raw.take(found.at));
                    let first = top_interpret(style, buffer, raw.take(found.at));
                    lemma_top_render_bound(style, first.buffer, found.value);
                }
            },
            None => {},
        },
    }
}

/// Rendering a value leaves no more in the buffer than was there and the
/// value weighs.
pub proof fn lemma_top_render_bound(style: Style, buffer: Seq<PendingView>, value: JsonView)
    ensures
        mass(top_render(style, buffer, value).buffer) <= mass(buffer) + value.weight(),
    decreases 2 * (mass(buffer) + value.weight()), 0nat,
{
    match value {
        JsonView::Text(s) => {
            lemma_top_interpret_bound(style, buffer, s);
        },
        JsonView::Array(items) => {
            lemma_top_items_bound(style, buffer, items);
        },
        _ => {},
    }
}

/// Rendering the items of an array leaves no more in the buffer than was there
/// and the items weigh.
pub proof fn lemma_top_items_bound(style: Style, buffer: Seq<PendingView>, items: Seq<JsonView>)
    ensures
        mass(top_items(style, buffer, items).buffer) <= mass(buffer) + items_weight(items),
    decreases 2 * (mass(buffer) + items_weight(items)) + 1, items.len(),
{
    if items.len() > 0 {
        lemma_top_items_bound(style, buffer, items.drop_last());
        let before = top_items(style, buffer, items.drop_last());
        lemma_top_render_bound(style, before.buffer, items.last());
    }
}

/// Rendering lines leaves no more in the buffer than was there and the lines
/// have characters.
pub proof fn lemma_top_lines_bound(style: Style, buffer: Seq<PendingView>, lines: Seq<Seq<char>>)
    ensures
        mass(top_lines(style, buffer, lines).buffer) <= mass(buffer) + total_len(lines),
    decreases 2 * (mass(buffer) + total_len(lines)) + 1, lines.len(),
{
    if lines.len() > 0 {
        lemma_top_lines_bound(style, buffer, lines.drop_last());
        let before = top_lines(style, buffer, lines.drop_last());
        lemma_top_interpret_bound(style, before.buffer, lines.last());
    }
}

/// A record adds no more to the buffer than the output it carries.
pub proof fn lemma_consume_bound(style: Style, buffer: Seq<PendingView>, entry: EntryView)
    ensures
        mass(consume(style, buffer, entry).buffer) <= mass(buffer) + output_len(entry),
    decreases 2 * mass(buffer) + 2, 0nat,
{
    match entry.action {
        GoTestAction::Output => {
            if let Some(o) = entry.output {
                lemma_mass_with_more(buffer, entry.key(), o);
            }
        },
        _ => {
            lemma_mass_without(buffer, entry.key());
            lemma_split_lines(held(buffer, entry.key()));
            lemma_top_lines_bound(
                style,
                without(buffer, entry.key()),
                split_lines(held(buffer, entry.key())),
            );
        },
    }
}

/// The items of an array are rendered one after the other, each in the buffer
/// that the one before it left.
pub proof fn lemma_top_items_step(
    style: Style,
    buffer: Seq<PendingView>,
    items: Seq<JsonView>,
    next: JsonView,
)
    ensures
        ({
            let before = top_items(style, buffer, items);
            let last = top_render(style, before.buffer, next);
            top_items(style, buffer, items.push(next)) == (Run {
                texts: kept(before.texts, last.text),
                buffer: last.buffer,
            })
        }),
{
    lemma_top_items_bound(style, buffer, items);
    assert(items.push(next).drop_last() =~= items);
}

/// The lines of a gathered output are rendered one after the other, each in
/// the buffer that the one before it left.
pub proof fn lemma_top_lines_step(
    style: Style,
    buffer: Seq<PendingView>,
    lines: Seq<Seq<char>>,
    next: Seq<char>,
)
    ensures
        ({
            let before = top_lines(style, buffer, lines);
            let last = top_interpret(style, before.buffer, next);
            top_lines(style, buffer, lines.push(next)) == (Run {
                texts: kept(before.texts, last.text),
                buffer: last.buffer,
            })
        }),
{
    lemma_top_lines_bound(style, buffer, lines);
    assert(lines.push(next).drop_last() =~= lines);
}

/// A line that spells no record is rendered as the JSON value that stands in
/// it, or as the array of the text before that value and the value, or, where
/// no value stands in it, as plain text.
pub proof fn lemma_no_record(style: Style, buffer: Seq<PendingView>, raw: Seq<char>)
    requires
        record_in(raw) is None,
    ensures
        top_interpret(style, buffer, raw) == match embedded(raw) {
            Some(found) => if found.at == 0 {
                top_render(style, buffer, found.value)
            } else {
                top_render(
                    style,
                    buffer,
                    JsonView::Array(seq![JsonView::Text(raw.take(found.at)), found.value]),
                )
            },
            None => Outcome { text: Some(plain(style, 0, raw)), buffer },
        },
{
    if let Some(found) = embedded(raw) {
        if found.at != 0 {
            lemma_embedded_from(raw, 0);
            lemma_embedded_as_array_top(style, buffer, raw);
        }
    }
}

/// The buffer that a step leaves is the buffer that the next step finds:
/// between two items of an array, between two lines of a gathered output, and
/// between the text before an embedded value and the value.
pub proof fn lemma_carried(
    style: Style,
    buffer: Seq<PendingView>,
    items: Seq<JsonView>,
    lines: Seq<Seq<char>>,
    raw: Seq<char>,
    at: int,
)
    requires
        0 <= at <= raw.len(),
    ensures
        carried(top_items(style, buffer, items).buffer, mass(buffer) + items_weight(items))
            == top_items(style, buffer, items).buffer,
        carried(top_lines(style, buffer, lines).buffer, mass(buffer) + total_len(lines))
            == top_lines(style, buffer, lines).buffer,
        carried(top_interpret(style, buffer, raw.take(at)).buffer, mass(buffer) + at as nat)
            == top_interpret(style, buffer, raw.take(at)).buffer,
{
    lemma_top_items_bound(style, buffer, items);
    lemma_top_lines_bound(style, buffer, lines);
    lemma_top_interpret_bound(style, buffer, raw.take(at));
}

} // verus!
