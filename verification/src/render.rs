//! Rendering a JSON value as an indented outline.

use crate::json::{
    field_views, fields_weight, item_views, items_weight, lemma_field_views, lemma_fields_weight_prefix,
    lemma_item_views, lemma_items_weight_prefix, read, read_json, Field, FieldView, Json, JsonView,
};
use crate::text::{blanks, chars_of, laid_out, lay_out, pad_join, padded, spaces, views};
use vstd::prelude::*;
use vstd::string::*;
use vstd::utf8::encode_utf8;

verus! {

/// How to render: the width to wrap to, if any, and whether the keys of an
/// object at indent 0 are set in bold.
#[derive(Debug, Clone, Copy)]
pub struct Style {
    pub width: Option<u16>,
    pub use_bold: bool,
}

/// The marker before an item of an array: none at indent 0, a dash elsewhere.
pub open spec fn bullet(indent: nat) -> Seq<char> {
    if indent == 0 {
        Seq::empty()
    } else {
        seq!['-', ' ']
    }
}

/// The size to wrap to at `indent`: the width, where one is set and more than
/// 10 columns of it are left at that indent. Lines are cut to the width
/// itself, not to what is left of it.
pub open spec fn wrap_size(style: Style, indent: nat) -> Option<nat> {
    match style.width {
        Some(w) => if w - indent > 10 {
            Some(w as nat)
        } else {
            None
        },
        None => None,
    }
}

/// A plain text at `indent`: its physical lines, joined and padded.
pub open spec fn plain(style: Style, indent: nat, raw: Seq<char>) -> Seq<char> {
    padded(laid_out(raw, wrap_size(style, indent)), indent)
}

/// A JSON value found inside a text, and the place where it begins.
pub ghost struct Embedded {
    pub at: int,
    pub value: JsonView,
}

/// The first place at or after `from`, and before the first newline, at which
/// an opening brace or bracket stands and the rest of `raw` reads as one JSON
/// value.
pub open spec fn embedded_from(raw: Seq<char>, from: int) -> Option<Embedded>
    decreases raw.len() - from,
{
    if from < 0 || from >= raw.len() || raw[from] == '\n' {
        None
    } else if (raw[from] == '{' || raw[from] == '[') && read(raw.skip(from)) is Some {
        Some(Embedded { at: from, value: read(raw.skip(from))->0 })
    } else {
        embedded_from(raw, from + 1)
    }
}

/// The JSON value inside `raw`, if there is one on its first line.
pub open spec fn embedded(raw: Seq<char>) -> Option<Embedded> {
    embedded_from(raw, 0)
}

/// What is found lies inside the text and weighs no more than the text from
/// there on has characters.
pub proof fn lemma_embedded_from(raw: Seq<char>, from: int)
    requires
        0 <= from,
    ensures
        embedded_from(raw, from) matches Some(e) ==> from <= e.at < raw.len() && e.value.weight()
            <= raw.len() - e.at && read(raw.skip(e.at)) == Some(e.value) && (raw[e.at] == '{'
            || raw[e.at] == '['),
    decreases raw.len() - from,
{
    if from < raw.len() && raw[from] != '\n' && !((raw[from] == '{' || raw[from] == '[') && read(
        raw.skip(from),
    ) is Some) {
        lemma_embedded_from(raw, from + 1);
    }
}

/// The lines of an array: each text of `texts` that is not empty, behind the
/// bullet.
pub open spec fn array_lines(mark: Seq<char>, texts: Seq<Seq<char>>) -> Seq<Seq<char>>
    decreases texts.len(),
{
    if texts.len() == 0 {
        Seq::empty()
    } else if texts.last().len() == 0 {
        array_lines(mark, texts.drop_last())
    } else {
        array_lines(mark, texts.drop_last()).push(mark + texts.last())
    }
}

/// An array at `indent` whose items have been rendered as `texts`.
pub open spec fn array_block(indent: nat, texts: Seq<Seq<char>>) -> Seq<char> {
    padded(array_lines(bullet(indent), texts), indent)
}

/// The width of a key: the number of bytes of its UTF-8 form.
pub open spec fn key_width(key: Seq<char>) -> nat {
    encode_utf8(key).len()
}

/// The width of the widest key of `fields`; 0 where there is none.
pub open spec fn key_span(fields: Seq<FieldView>) -> nat
    decreases fields.len(),
{
    if fields.len() == 0 {
        0
    } else {
        let before = key_span(fields.drop_last());
        let last = key_width(fields.last().key);
        if last > before {
            last
        } else {
            before
        }
    }
}

/// `s` set in bold: behind the escape sequence that switches bold on and
/// before the one that restores the default colours. A text that begins with
/// an escape sequence of its own has bold added to that sequence instead.
pub open spec fn emboldened(s: Seq<char>) -> Seq<char> {
    if s.len() >= 2 && s[0] == '\u{1b}' && s[1] == '[' {
        seq!['\u{1b}', '[', '1', ';'] + s.skip(2)
    } else {
        seq!['\u{1b}', '[', '1', 'm'] + s + seq![
            '\u{1b}',
            '[',
            '0',
            ';',
            '3',
            '9',
            ';',
            '4',
            '9',
            'm',
        ]
    }
}

/// A key as it is shown: in bold at indent 0 where the style asks for it.
pub open spec fn label(style: Style, indent: nat, key: Seq<char>) -> Seq<char> {
    if indent == 0 && style.use_bold {
        emboldened(key)
    } else {
        key
    }
}

/// The lines of an object at `indent`, one for each field: the key as it is
/// shown, spaces up to the widest key, a colon and a space, and the field's
/// value as rendered in `texts`.
pub open spec fn object_lines(
    style: Style,
    indent: nat,
    fields: Seq<FieldView>,
    texts: Seq<Seq<char>>,
) -> Seq<Seq<char>> {
    Seq::new(
        fields.len(),
        |i: int|
            label(style, indent, fields[i].key) + spaces(
                (key_span(fields) - key_width(fields[i].key)) as nat,
            ) + seq![':', ' '] + texts[i],
    )
}

/// An object at `indent` whose values have been rendered as `texts`.
pub open spec fn object_block(
    style: Style,
    indent: nat,
    fields: Seq<FieldView>,
    texts: Seq<Seq<char>>,
) -> Seq<char> {
    padded(object_lines(style, indent, fields, texts), indent)
}

/// The outline of `value` at `indent`.
///
/// A scalar is its canonical text. A string is interpreted. An array is its
/// items, each rendered behind the bullet, those that come out empty left out.
/// An object is its fields, the values rendered behind the widest key, a colon
/// and a space.
pub open spec fn render(style: Style, indent: nat, value: JsonView) -> Seq<char>
    decreases 2 * value.weight(), 0nat,
{
    match value {
        JsonView::Null => "null"@,
        JsonView::Bool(b) => if b {
            "true"@
        } else {
            "false"@
        },
        JsonView::Number(text) => text,
        JsonView::Text(s) => interpret(style, indent, s),
        JsonView::Array(items) => array_block(
            indent,
            render_items(style, indent + bullet(indent).len(), items),
        ),
        JsonView::Object(fields) => object_block(
            style,
            indent,
            fields,
            render_values(style, indent + key_span(fields) + 2, fields),
        ),
    }
}

/// Each of `items` rendered at `indent`.
pub open spec fn render_items(style: Style, indent: nat, items: Seq<JsonView>) -> Seq<Seq<char>>
    decreases 2 * items_weight(items) + 1, items.len(),
{
    if items.len() == 0 {
        Seq::empty()
    } else {
        render_items(style, indent, items.drop_last()).push(render(style, indent, items.last()))
    }
}

/// The value of each of `fields` rendered at `indent`.
pub open spec fn render_values(style: Style, indent: nat, fields: Seq<FieldView>) -> Seq<
    Seq<char>,
>
    decreases 2 * fields_weight(fields) + 1, fields.len(),
{
    if fields.len() == 0 {
        Seq::empty()
    } else {
        render_values(style, indent, fields.drop_last()).push(
            render(style, indent, fields.last().value),
        )
    }
}

/// The outline of a string at `indent`.
///
/// Where a JSON value stands on its first line, the string is rendered as that
/// value, or, where text comes before the value, as the array of that text and
/// the value would be. Any other string is plain text.
pub open spec fn interpret(style: Style, indent: nat, raw: Seq<char>) -> Seq<char>
    decreases 2 * raw.len() + 1, 0nat,
{
    match embedded(raw) {
        Some(found) => {
            proof {
                lemma_embedded_from(raw, 0);
            }
            if found.at == 0 {
                render(style, indent, found.value)
            } else {
                let inner = indent + bullet(indent).len();
                array_block(
                    indent,
                    seq![
                        interpret(style, inner, raw.take(found.at)),
                        render(style, inner, found.value),
                    ],
                )
            }
        },
        None => plain(style, indent, raw),
    }
}

/// Calls `colorize::reset` and then `AnsiColor::bold`. The first puts the
/// thread's colours back to the defaults, 39 and 49, which `bold` writes into
/// the closing sequence; `bold` itself puts `ESC [ 1 m` before the text and that
/// sequence behind it, or, where the text begins with `ESC [`, puts `1;` behind
/// those two characters and nothing at the end.
#[verifier::external_body]
fn ansi_bold(s: String) -> (r: String)
    ensures
        r@ == emboldened(s@),
{
    colorize::reset();
    colorize::AnsiColor::bold(s)
}

impl Style {
    /// `s` in bold where the style asks for bold, `s` itself where it does not.
    pub fn bold(&self, s: String) -> (r: String)
        ensures
            r@ == if self.use_bold {
                emboldened(s@)
            } else {
                s@
            },
    {
        if self.use_bold {
            ansi_bold(s)
        } else {
            s
        }
    }

    /// The size to wrap to at `indent`.
    pub fn wrap_at(&self, indent: usize) -> (r: Option<usize>)
        ensures
            r matches Some(size) ==> size > 0,
            wrap_size(*self, indent as nat) == match r {
                Some(size) => Some(size as nat),
                None => None,
            },
    {
        match self.width {
            Some(w) => {
                let width = w as usize;
                if indent < width && width - indent > 10 {
                    Some(width)
                } else {
                    None
                }
            },
            None => None,
        }
    }
}

/// The padding one level further in under an array: two more spaces, but at
/// indent 0, where there is no bullet.
pub(crate) fn array_pad(pad: &str) -> (r: String)
    requires
        pad@ == spaces(pad@.len()),
    ensures
        r@ == spaces(pad@.len() + bullet(pad@.len()).len()),
{
    if pad.is_empty() {
        assert(pad@ =~= spaces(0));
        String::new()
    } else {
        proof {
            reveal_strlit("  ");
            assert(pad@ + "  "@ =~= spaces(pad@.len() + 2));
        }
        String::from_str(pad).concat("  ")
    }
}

/// The bullet behind `pad`.
pub(crate) fn array_mark(pad: &str) -> (r: &'static str)
    ensures
        r@ == bullet(pad@.len()),
{
    if pad.is_empty() {
        proof {
            reveal_strlit("");
            assert(""@ =~= Seq::<char>::empty());
        }
        ""
    } else {
        proof {
            reveal_strlit("- ");
            assert("- "@ =~= seq!['-', ' ']);
        }
        "- "
    }
}

/// Adds a rendered item to the lines of an array, unless it is empty.
pub(crate) fn push_item(parts: &mut Vec<String>, mark: &str, text: String)
    ensures
        views(final(parts)@) == if text@.len() == 0 {
            views(old(parts)@)
        } else {
            views(old(parts)@).push(mark@ + text@)
        },
{
    if !text.as_str().is_empty() {
        let line = String::from_str(mark).concat(text.as_str());
        parts.push(line);
        assert(views(parts@) =~= views(old(parts)@).push(mark@ + text@));
    }
}

/// The width of the widest key.
fn widest_key(fields: &Vec<Field>) -> (span: usize)
    ensures
        span == key_span(field_views(*fields)),
{
    let ghost all = field_views(*fields);
    proof {
        lemma_field_views(*fields);
    }
    let mut span: usize = 0;
    let mut i: usize = 0;
    assert(all.take(0) =~= Seq::<FieldView>::empty());
    while i < fields.len()
        invariant
            i <= fields.len(),
            all == field_views(*fields),
            all.len() == fields.len(),
            forall|k: int| 0 <= k < fields.len() ==> (#[trigger] all[k]).key == fields[k].key@,
            span == key_span(all.take(i as int)),
        decreases fields.len() - i,
    {
        proof {
            assert(all.take(i + 1).drop_last() =~= all.take(i as int));
        }
        let width = fields[i].key.as_str().as_bytes().len();
        if width > span {
            span = width;
        }
        i = i + 1;
    }
    assert(all.take(i as int) =~= all);
    span
}

/// No key is wider than the widest.
pub proof fn lemma_key_span(fields: Seq<FieldView>, i: int)
    requires
        0 <= i < fields.len(),
    ensures
        key_width(fields[i].key) <= key_span(fields),
    decreases fields.len(),
{
    if i < fields.len() - 1 {
        lemma_key_span(fields.drop_last(), i);
    }
}

/// Looks on the first line of `raw` for a JSON value.
pub(crate) fn find_embedded(raw: &str, chars: &Vec<char>) -> (r: Option<(usize, Json)>)
    requires
        chars@ == raw@,
    ensures
        match r {
            Some(found) => embedded(raw@) == Some(Embedded { at: found.0 as int, value: found.1@ }),
            None => embedded(raw@) is None,
        },
{
    let mut i: usize = 0;
    while i < chars.len()
        invariant
            i <= chars.len(),
            chars@ == raw@,
            embedded(raw@) == embedded_from(raw@, i as int),
        decreases chars.len() - i,
    {
        let c = chars[i];
        if c == '\n' {
            return None;
        }
        if c == '{' || c == '[' {
            let rest = raw.substring_char(i, chars.len());
            assert(rest@ =~= raw@.skip(i as int));
            match read_json(rest) {
                Some(value) => {
                    return Some((i, value));
                },
                None => {},
            }
        }
        i = i + 1;
    }
    None
}

/// Renders `value` behind the padding `pad`, which stands for the indent.
pub(crate) fn render_behind(style: Style, pad: &str, value: &Json) -> (r: String)
    requires
        pad@ == spaces(pad@.len()),
    ensures
        r@ == render(style, pad@.len(), value@),
    decreases 2 * value@.weight(), 0nat,
{
    let ghost indent = pad@.len();
    match value {
        Json::Null => String::from_str("null"),
        Json::Bool(b) => if *b {
            String::from_str("true")
        } else {
            String::from_str("false")
        },
        Json::Number(text) => text.clone(),
        Json::String(s) => interpret_behind(style, pad, s.as_str()),
        Json::Array(items) => {
            let inner = array_pad(pad);
            let mark = array_mark(pad);
            let ghost all = item_views(*items);
            proof {
                lemma_item_views(*items);
            }
            let mut parts: Vec<String> = Vec::new();
            let mut i: usize = 0;
            assert(all.take(0) =~= Seq::<JsonView>::empty());
            assert(views(parts@) =~= Seq::<Seq<char>>::empty());
            while i < items.len()
                invariant
                    i <= items.len(),
                    value@ == JsonView::Array(all),
                    all == item_views(*items),
                    all.len() == items.len(),
                    forall|k: int| 0 <= k < items.len() ==> #[trigger] all[k] == items[k]@,
                    inner@ == spaces(inner@.len()),
                    inner@.len() == indent + bullet(indent).len(),
                    mark@ == bullet(indent),
                    views(parts@) == array_lines(
                        bullet(indent),
                        render_items(style, inner@.len(), all.take(i as int)),
                    ),
                decreases items.len() - i,
            {
                proof {
                    lemma_items_weight_prefix(all, i as int);
                    lemma_items_weight_prefix(all, i + 1);
                    assert(all.take(i + 1).drop_last() =~= all.take(i as int));
                    let texts = render_items(style, inner@.len(), all.take(i + 1));
                    assert(texts.drop_last() =~= render_items(
                        style,
                        inner@.len(),
                        all.take(i as int),
                    ));
                }
                let text = render_behind(style, inner.as_str(), &items[i]);
                push_item(&mut parts, mark, text);
                i = i + 1;
            }
            assert(all.take(i as int) =~= all);
            pad_join(&parts, pad)
        },
        Json::Object(fields) => {
            let span = widest_key(fields);
            let ghost all = field_views(*fields);
            proof {
                lemma_field_views(*fields);
            }
            let inner = String::from_str(pad).concat(blanks(span).as_str()).concat("  ");
            let ghost deeper: nat = (indent + span + 2) as nat;
            proof {
                reveal_strlit("  ");
                reveal_strlit(": ");
                assert(inner@ =~= spaces(deeper));
                assert(": "@ =~= seq![':', ' ']);
            }
            let mut lines: Vec<String> = Vec::new();
            let mut i: usize = 0;
            assert(all.take(0) =~= Seq::<FieldView>::empty());
            while i < fields.len()
                invariant
                    i <= fields.len(),
                    value@ == JsonView::Object(all),
                    all == field_views(*fields),
                    all.len() == fields.len(),
                    forall|k: int|
                        0 <= k < fields.len() ==> #[trigger] all[k] == (FieldView {
                            key: fields[k].key@,
                            value: fields[k].value@,
                        }),
                    span == key_span(all),
                    inner@ == spaces(inner@.len()),
                    inner@.len() == deeper,
                    deeper == indent + span + 2,
                    pad@.len() == indent,
                    ": "@ == seq![':', ' '],
                    lines@.len() == i,
                    forall|k: int|
                        0 <= k < i ==> (#[trigger] lines@[k])@ == object_lines(
                            style,
                            indent,
                            all,
                            render_values(style, deeper, all),
                        )[k],
                decreases fields.len() - i,
            {
                proof {
                    lemma_fields_weight_prefix(all, i as int);
                    lemma_fields_weight_prefix(all, i + 1);
                    lemma_key_span(all, i as int);
                    lemma_render_values(style, deeper, all, i as int);
                }
                let text = render_behind(style, inner.as_str(), &fields[i].value);
                let width = fields[i].key.as_str().as_bytes().len();
                let shown = if pad.is_empty() {
                    style.bold(fields[i].key.clone())
                } else {
                    fields[i].key.clone()
                };
                let line = shown.concat(blanks(span - width).as_str()).concat(": ").concat(
                    text.as_str(),
                );
                lines.push(line);
                i = i + 1;
            }
            assert(views(lines@) =~= object_lines(
                style,
                indent,
                all,
                render_values(style, deeper, all),
            ));
            pad_join(&lines, pad)
        },
    }
}

/// `render_values` goes field by field.
pub proof fn lemma_render_values(style: Style, indent: nat, fields: Seq<FieldView>, i: int)
    requires
        0 <= i < fields.len(),
    ensures
        render_values(style, indent, fields).len() == fields.len(),
        render_values(style, indent, fields)[i] == render(style, indent, fields[i].value),
    decreases fields.len(),
{
    if fields.len() > 1 {
        if i < fields.len() - 1 {
            lemma_render_values(style, indent, fields.drop_last(), i);
        } else {
            lemma_render_values(style, indent, fields.drop_last(), 0);
        }
    } else {
        assert(render_values(style, indent, fields.drop_last()).len() == 0);
    }
}

/// Renders the string `raw` behind the padding `pad`, which stands for the
/// indent.
pub(crate) fn interpret_behind(style: Style, pad: &str, raw: &str) -> (r: String)
    requires
        pad@ == spaces(pad@.len()),
    ensures
        r@ == interpret(style, pad@.len(), raw@),
    decreases 2 * raw@.len() + 1, 0nat,
{
    let chars = chars_of(raw);
    match find_embedded(raw, &chars) {
        Some(found) => {
            proof {
                lemma_embedded_from(raw@, 0);
            }
            let at = found.0;
            let value = found.1;
            if at == 0 {
                render_behind(style, pad, &value)
            } else {
                let inner = array_pad(pad);
                let mark = array_mark(pad);
                let prefix = raw.substring_char(0, at);
                assert(prefix@ =~= raw@.take(at as int));
                let first = interpret_behind(style, inner.as_str(), prefix);
                let second = render_behind(style, inner.as_str(), &value);
                let mut parts: Vec<String> = Vec::new();
                assert(views(parts@) =~= Seq::<Seq<char>>::empty());
                let ghost texts = seq![first@, second@];
                proof {
                    assert(texts.drop_last() =~= seq![first@]);
                    assert(seq![first@].drop_last() =~= Seq::<Seq<char>>::empty());
                    reveal_with_fuel(array_lines, 3);
                }
                push_item(&mut parts, mark, first);
                push_item(&mut parts, mark, second);
                pad_join(&parts, pad)
            }
        },
        None => {
            let lines = lay_out(raw, style.wrap_at(pad.unicode_len()));
            pad_join(&lines, pad)
        },
    }
}

/// Renders `value` at `indent`, gathering no records.
pub fn render_value(style: Style, indent: usize, value: &Json) -> (r: String)
    ensures
        r@ == render(style, indent as nat, value@),
{
    let pad = blanks(indent);
    render_behind(style, pad.as_str(), value)
}

/// Renders the string `raw` at `indent`, gathering no records.
pub fn interpret_text(style: Style, indent: usize, raw: &str) -> (r: String)
    ensures
        r@ == interpret(style, indent as nat, raw@),
{
    let pad = blanks(indent);
    interpret_behind(style, pad.as_str(), raw)
}

} // verus!
