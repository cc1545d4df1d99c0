//! JSON values as the renderer reads them.

use vstd::prelude::*;
use vstd::string::*;

verus! {

/// A JSON value. A number is held as its canonical text, an object as its
/// fields in the order in which they were written.
#[derive(Debug)]
pub enum Json {
    Null,
    Bool(bool),
    Number(String),
    String(String),
    Array(Vec<Json>),
    Object(Vec<Field>),
}

/// One field of an object: its key and its value.
#[derive(Debug)]
pub struct Field {
    pub key: String,
    pub value: Json,
}

/// The mathematical value of a [`Json`].
pub ghost enum JsonView {
    Null,
    Bool(bool),
    Number(Seq<char>),
    Text(Seq<char>),
    Array(Seq<JsonView>),
    Object(Seq<FieldView>),
}

/// The mathematical value of a [`Field`].
pub ghost struct FieldView {
    pub key: Seq<char>,
    pub value: JsonView,
}

impl View for Json {
    type V = JsonView;

    open spec fn view(&self) -> JsonView
        decreases self,
    {
        match self {
            Json::Null => JsonView::Null,
            Json::Bool(b) => JsonView::Bool(*b),
            Json::Number(t) => JsonView::Number(t@),
            Json::String(s) => JsonView::Text(s@),
            Json::Array(items) => JsonView::Array(
                Seq::new(
                    items.len() as nat,
                    |i: int|
                        if 0 <= i < items.len() {
                            items[i]@
                        } else {
                            JsonView::Null
                        },
                ),
            ),
            Json::Object(fields) => JsonView::Object(
                Seq::new(
                    fields.len() as nat,
                    |i: int|
                        if 0 <= i < fields.len() {
                            FieldView { key: fields[i].key@, value: fields[i].value@ }
                        } else {
                            FieldView { key: Seq::empty(), value: JsonView::Null }
                        },
                ),
            ),
        }
    }
}

impl JsonView {
    /// One for every node, two for an array or object, and one for every
    /// character of a string or of a key.
    pub open spec fn weight(self) -> nat
        decreases self,
    {
        match self {
            JsonView::Null => 1,
            JsonView::Bool(_) => 1,
            JsonView::Number(_) => 1,
            JsonView::Text(s) => s.len() + 1,
            JsonView::Array(items) => 2 + items_weight(items),
            JsonView::Object(fields) => 2 + fields_weight(fields),
        }
    }
}

/// The weights of `items`, added up.
pub open spec fn items_weight(items: Seq<JsonView>) -> nat
    decreases items,
{
    if items.len() == 0 {
        0
    } else {
        items_weight(items.drop_last()) + items.last().weight()
    }
}

/// The weights of the values of `fields` and the lengths of their keys, added up.
pub open spec fn fields_weight(fields: Seq<FieldView>) -> nat
    decreases fields,
{
    if fields.len() == 0 {
        0
    } else {
        fields_weight(fields.drop_last()) + fields.last().key.len() + fields.last().value.weight()
    }
}

/// The views of the items of an array.
pub open spec fn item_views(items: Vec<Json>) -> Seq<JsonView> {
    Json::Array(items)@->Array_0
}

/// The views of the fields of an object.
pub open spec fn field_views(fields: Vec<Field>) -> Seq<FieldView> {
    Json::Object(fields)@->Object_0
}

/// `item_views` goes item by item.
pub proof fn lemma_item_views(items: Vec<Json>)
    ensures
        Json::Array(items)@ == JsonView::Array(item_views(items)),
        item_views(items).len() == items.len(),
        forall|i: int| 0 <= i < items.len() ==> #[trigger] item_views(items)[i] == items[i]@,
{
}

/// `field_views` goes field by field.
pub proof fn lemma_field_views(fields: Vec<Field>)
    ensures
        Json::Object(fields)@ == JsonView::Object(field_views(fields)),
        field_views(fields).len() == fields.len(),
        forall|i: int|
            0 <= i < fields.len() ==> #[trigger] field_views(fields)[i] == (FieldView {
                key: fields[i].key@,
                value: fields[i].value@,
            }),
{
}

/// The view of an optional value.
pub open spec fn view_of(value: Option<Json>) -> Option<JsonView> {
    match value {
        Some(v) => Some(v@),
        None => None,
    }
}

/// Every value weighs something.
pub proof fn lemma_weight_positive(value: JsonView)
    ensures
        value.weight() >= 1,
{
}

/// A field's key and value weigh less than the object that holds them.
pub proof fn lemma_field_weight(fields: Seq<FieldView>, i: int)
    requires
        0 <= i < fields.len(),
    ensures
        fields[i].key.len() + fields[i].value.weight() <= fields_weight(fields),
{
    lemma_fields_weight_prefix(fields, i);
    lemma_fields_weight_prefix(fields, i + 1);
}

/// `items_weight` grows with every item.
pub proof fn lemma_items_weight_prefix(items: Seq<JsonView>, n: int)
    requires
        0 <= n <= items.len(),
    ensures
        items_weight(items.take(n)) <= items_weight(items),
        n < items.len() ==> items_weight(items.take(n + 1)) == items_weight(items.take(n))
            + items[n].weight(),
    decreases items.len(),
{
    if n < items.len() {
        assert(items.take(n + 1).drop_last() =~= items.take(n));
        assert(items.take(n + 1).last() == items[n]);
        if n + 1 < items.len() {
            lemma_items_weight_prefix(items.drop_last(), n + 1);
            assert(items.drop_last().take(n + 1) =~= items.take(n + 1));
        } else {
            assert(items.take(n + 1) =~= items);
        }
    } else {
        assert(items.take(n) =~= items);
    }
}

/// `fields_weight` grows with every field.
pub proof fn lemma_fields_weight_prefix(fields: Seq<FieldView>, n: int)
    requires
        0 <= n <= fields.len(),
    ensures
        fields_weight(fields.take(n)) <= fields_weight(fields),
        n < fields.len() ==> fields_weight(fields.take(n + 1)) == fields_weight(fields.take(n))
            + fields[n].key.len() + fields[n].value.weight(),
    decreases fields.len(),
{
    if n < fields.len() {
        assert(fields.take(n + 1).drop_last() =~= fields.take(n));
        assert(fields.take(n + 1).last() == fields[n]);
        if n + 1 < fields.len() {
            lemma_fields_weight_prefix(fields.drop_last(), n + 1);
            assert(fields.drop_last().take(n + 1) =~= fields.take(n + 1));
        } else {
            assert(fields.take(n + 1) =~= fields);
        }
    } else {
        assert(fields.take(n) =~= fields);
    }
}

impl Json {
    /// Takes the value's weight from `budget`: what is left, or `None` where
    /// the value weighs more than `budget`.
    pub fn spend(&self, budget: usize) -> (rest: Option<usize>)
        ensures
            match rest {
                Some(left) => self@.weight() + left == budget,
                None => self@.weight() > budget,
            },
        decreases self,
    {
        match self {
            Json::Null | Json::Bool(_) | Json::Number(_) => {
                if budget >= 1 {
                    Some(budget - 1)
                } else {
                    None
                }
            },
            Json::String(s) => {
                let n = s.as_str().unicode_len();
                if n < budget {
                    Some(budget - 1 - n)
                } else {
                    None
                }
            },
            Json::Array(items) => {
                if budget < 2 {
                    return None;
                }
                let ghost all = self@->Array_0;
                let mut left: usize = budget - 2;
                let mut i: usize = 0;
                assert(all.take(0) =~= Seq::<JsonView>::empty());
                while i < items.len()
                    invariant
                        i <= items.len(),
                        self == Json::Array(*items),
                        all == self@->Array_0,
                        budget >= 2,
                        items_weight(all.take(i as int)) + left == budget - 2,
                    decreases items.len() - i,
                {
                    proof {
                        lemma_items_weight_prefix(all, i as int);
                        lemma_items_weight_prefix(all, i + 1);
                    }
                    match items[i].spend(left) {
                        Some(l) => {
                            left = l;
                        },
                        None => {
                            return None;
                        },
                    }
                    i = i + 1;
                }
                assert(all.take(i as int) =~= all);
                Some(left)
            },
            Json::Object(fields) => {
                if budget < 2 {
                    return None;
                }
                let ghost all = self@->Object_0;
                let mut left: usize = budget - 2;
                let mut i: usize = 0;
                assert(all.take(0) =~= Seq::<FieldView>::empty());
                while i < fields.len()
                    invariant
                        i <= fields.len(),
                        self == Json::Object(*fields),
                        all == self@->Object_0,
                        budget >= 2,
                        fields_weight(all.take(i as int)) + left == budget - 2,
                    decreases fields.len() - i,
                {
                    proof {
                        lemma_fields_weight_prefix(all, i as int);
                        lemma_fields_weight_prefix(all, i + 1);
                    }
                    let n = fields[i].key.as_str().unicode_len();
                    if n > left {
                        return None;
                    }
                    match fields[i].value.spend(left - n) {
                        Some(l) => {
                            left = l;
                        },
                        None => {
                            return None;
                        },
                    }
                    i = i + 1;
                }
                assert(all.take(i as int) =~= all);
                Some(left)
            },
        }
    }
}

/// `serde_json::Value`, carried about as it is: nothing in this library looks
/// into one but `json_from`.
#[verifier::external_type_specification]
#[verifier::external_body]
pub struct ExValue(serde_json::Value);

/// What `serde_json::from_str` reads out of a text: the value that the text
/// spells, or `None` where the text is not one JSON value.
pub uninterp spec fn json_of(text: Seq<char>) -> Option<JsonView>;

/// What a `serde_json::Value` holds: its variant, and under it the flag, the
/// number as its `Display` writes it, the string, the items in order, or the
/// fields in the order in which its map hands them out.
pub uninterp spec fn value_of(value: serde_json::Value) -> JsonView;

/// Calls `serde_json::from_str` for a `serde_json::Value`. The result is
/// named, not described: the same text always reads as the same value.
#[verifier::external_body]
fn parse_value(text: &str) -> (r: Option<serde_json::Value>)
    ensures
        json_of(text@) == match r {
            Some(value) => Some(value_of(value)),
            None => None,
        },
{
    serde_json::from_str::<serde_json::Value>(text).ok()
}

/// Copies a `serde_json::Value` into a [`Json`], variant by variant, moving
/// what each holds; a number through `Number`'s `to_string`.
#[verifier::external_body]
fn json_from(value: serde_json::Value) -> (r: Json)
    ensures
        r@ == value_of(value),
{
    match value {
        serde_json::Value::Null => Json::Null,
        serde_json::Value::Bool(b) => Json::Bool(b),
        serde_json::Value::Number(n) => Json::Number(n.to_string()),
        serde_json::Value::String(s) => Json::String(s),
        serde_json::Value::Array(a) => Json::Array(a.into_iter().map(json_from).collect()),
        serde_json::Value::Object(o) => Json::Object(
            o.into_iter().map(|(key, v)| Field { key, value: json_from(v) }).collect(),
        ),
    }
}

/// Reads `text` as one JSON value, whatever it weighs.
fn parse_json(text: &str) -> (r: Option<Json>)
    ensures
        view_of(r) == json_of(text@),
{
    match parse_value(text) {
        Some(value) => Some(json_from(value)),
        None => None,
    }
}

/// The value that `text` spells, provided it weighs no more than `text` has
/// characters. A value read from a text never weighs more than that, and it is on
/// this bound that rendering a string inside a string comes to an end.
pub open spec fn read(text: Seq<char>) -> Option<JsonView> {
    match json_of(text) {
        Some(v) => if v.weight() <= text.len() {
            Some(v)
        } else {
            None
        },
        None => None,
    }
}

/// Reads `text` as one JSON value.
pub fn read_json(text: &str) -> (r: Option<Json>)
    ensures
        view_of(r) == read(text@),
{
    match parse_json(text) {
        Some(value) => {
            let budget = text.unicode_len();
            match value.spend(budget) {
                Some(_) => Some(value),
                None => None,
            }
        },
        None => None,
    }
}

} // verus!
