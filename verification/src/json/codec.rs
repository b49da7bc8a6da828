//! JSON text and documents: reading and writing through `serde_json`.
use vstd::prelude::*;

use super::{CarriedNumber, Fields, Json, JsonModel};

verus! {

/// A document in the form of the JSON library.
#[verifier::external_type_specification]
#[verifier::external_body]
pub struct ExValue(serde_json::Value);

/// What a `serde_json::Value` holds.
pub uninterp spec fn contents(value: serde_json::Value) -> JsonModel;

/// What `serde_json::from_str` makes of a text: a document, or a message that
/// says why it is none.
pub uninterp spec fn json_parse(text: Seq<char>) -> Result<JsonModel, Seq<char>>;

/// What `serde_json::from_slice` makes of bytes: a document, or a message that
/// says why they are none.
pub uninterp spec fn json_parse_bytes(bytes: Seq<u8>) -> Result<JsonModel, Seq<char>>;

/// The text that `serde_json::to_string` writes for a document.
pub uninterp spec fn json_text(json: JsonModel) -> Seq<char>;

/// `Value::clone`: the clone is the same document.
pub assume_specification[ <serde_json::Value as Clone>::clone ](
    value: &serde_json::Value,
) -> (r: serde_json::Value)
    ensures
        r == *value,
;

/// The outermost layer of a `serde_json::Value`.
enum Layer {
    Null,
    Bool(bool),
    Unsigned(u64),
    Number(serde_json::Value),
    Text(String),
    Array(Vec<serde_json::Value>),
    Object(Vec<(String, serde_json::Value)>),
}

spec fn all_contents(items: Seq<serde_json::Value>) -> Seq<JsonModel> {
    Seq::new(items.len(), |i: int| contents(items[i]))
}

spec fn entries_contents(entries: Seq<(String, serde_json::Value)>) -> Map<Seq<char>, JsonModel>
    decreases entries.len(),
{
    if entries.len() == 0 {
        Map::empty()
    } else {
        entries_contents(entries.drop_last()).insert(
            entries.last().0@,
            contents(entries.last().1),
        )
    }
}

/// No name stands twice.
spec fn distinct_names(entries: Seq<(String, serde_json::Value)>) -> bool {
    forall|i: int, j: int|
        0 <= i < j < entries.len() ==> (#[trigger] entries[i]).0@ != (#[trigger] entries[j]).0@
}

impl Layer {
    /// The document of which this is the outermost layer.
    spec fn model(self) -> JsonModel {
        match self {
            Layer::Null => JsonModel::Null,
            Layer::Bool(b) => JsonModel::Bool(b),
            Layer::Unsigned(n) => JsonModel::Unsigned(n),
            Layer::Number(value) => JsonModel::Number(value),
            Layer::Text(text) => JsonModel::Text(text@),
            Layer::Array(items) => JsonModel::Array(all_contents(items@)),
            Layer::Object(entries) => JsonModel::Object(entries_contents(entries@)),
        }
    }
}

/// The variants of `serde_json::Value` told apart, and a number by
/// `Number::as_u64`: what comes out is the outermost layer of the document. A
/// number that is no integer from zero up comes out as it was.
#[verifier::external_body]
fn open_value(value: serde_json::Value) -> (r: Layer)
    ensures
        r.model() == contents(value),
        r matches Layer::Number(carried) ==> carried == value,
        r matches Layer::Object(entries) ==> distinct_names(entries@),
{
    match value {
        serde_json::Value::Null => Layer::Null,
        serde_json::Value::Bool(b) => Layer::Bool(b),
        serde_json::Value::Number(number) => match number.as_u64() {
            Some(n) => Layer::Unsigned(n),
            None => Layer::Number(serde_json::Value::Number(number)),
        },
        serde_json::Value::String(text) => Layer::Text(text),
        serde_json::Value::Array(items) => Layer::Array(items),
        serde_json::Value::Object(map) => Layer::Object(map.into_iter().collect()),
    }
}

/// The variants of `serde_json::Value` put together: what comes out is the
/// document with that outermost layer. A `serde_json::Map` collected from
/// entries keeps the later of two with one name.
#[verifier::external_body]
fn close_value(layer: Layer) -> (r: serde_json::Value)
    requires
        layer matches Layer::Number(value) ==> contents(value) == JsonModel::Number(value),
    ensures
        contents(r) == layer.model(),
{
    match layer {
        Layer::Null => serde_json::Value::Null,
        Layer::Bool(b) => serde_json::Value::Bool(b),
        Layer::Unsigned(n) => serde_json::Value::from(n),
        Layer::Number(value) => value,
        Layer::Text(text) => serde_json::Value::String(text),
        Layer::Array(items) => serde_json::Value::Array(items),
        Layer::Object(entries) => serde_json::Value::Object(entries.into_iter().collect()),
    }
}

/// `serde_json::from_str`: the document, or the message of the error. Both
/// depend on the text alone.
#[verifier::external_body]
fn parse_value(text: &str) -> (r: Result<serde_json::Value, String>)
    ensures
        match r {
            Ok(value) => json_parse(text@) == Ok::<JsonModel, Seq<char>>(contents(value)),
            Err(message) => json_parse(text@) == Err::<JsonModel, Seq<char>>(message@),
        },
{
    serde_json::from_str::<serde_json::Value>(text).map_err(|error| error.to_string())
}

/// `serde_json::from_slice`: the document, or the message of the error. Both
/// depend on the bytes alone.
#[verifier::external_body]
fn parse_value_bytes(bytes: &[u8]) -> (r: Result<serde_json::Value, String>)
    ensures
        match r {
            Ok(value) => json_parse_bytes(bytes@) == Ok::<JsonModel, Seq<char>>(contents(value)),
            Err(message) => json_parse_bytes(bytes@) == Err::<JsonModel, Seq<char>>(message@),
        },
{
    serde_json::from_slice::<serde_json::Value>(bytes).map_err(|error| error.to_string())
}

/// `serde_json::to_string` of a `Value`, which cannot fail: its keys are text
/// and it writes into memory. The text depends on the document alone. It is
/// compact and escapes control characters, so no line ends in it.
#[verifier::external_body]
fn value_text(value: &serde_json::Value) -> (r: String)
    ensures
        r@ == json_text(contents(*value)),
        forall|i: int| 0 <= i < r@.len() ==> (#[trigger] r@[i]) != '\n' && r@[i] != '\r',
{
    serde_json::to_string(value).unwrap_or_default()
}

fn json_from_value(value: serde_json::Value) -> (r: Json)
    ensures
        r@ == contents(value),
    decreases contents(value),
{
    match open_value(value) {
        Layer::Null => Json::Null,
        Layer::Bool(b) => Json::Bool(b),
        Layer::Unsigned(n) => Json::Unsigned(n),
        Layer::Number(carried) => Json::Number(CarriedNumber { value: carried }),
        Layer::Text(text) => Json::Text(text),
        Layer::Array(items) => {
            assert(decreases_to!(contents(value) => contents(value)->Array_0));
            Json::Array(json_from_values(items))
        },
        Layer::Object(entries) => {
            assert(decreases_to!(contents(value) => contents(value)->Object_0));
            Json::Object(fields_from_entries(entries))
        },
    }
}

fn json_from_values(values: Vec<serde_json::Value>) -> (r: Vec<Json>)
    ensures
        super::models(r@) == all_contents(values@),
    decreases all_contents(values@),
{
    let mut out: Vec<Json> = Vec::new();
    for value in it: values
        invariant
            it.seq() == values@,
            out@.len() == it.index(),
            forall|j: int| 0 <= j < out@.len() ==> (#[trigger] out@[j])@ == contents(values@[j]),
    {
        assert(all_contents(values@)[it.index() as int] == contents(value));
        out.push(json_from_value(value));
    }
    assert(super::models(out@) =~= all_contents(values@));
    out
}

/// With distinct names, the fields hold what each entry gives.
proof fn lemma_entry_contents(entries: Seq<(String, serde_json::Value)>, i: int)
    requires
        0 <= i < entries.len(),
        distinct_names(entries),
    ensures
        entries_contents(entries).dom().finite(),
        entries_contents(entries).dom().contains(entries[i].0@),
        entries_contents(entries)[entries[i].0@] == contents(entries[i].1),
    decreases entries.len(),
{
    let rest = entries.drop_last();
    assert(distinct_names(rest)) by {
        assert forall|a: int, b: int| 0 <= a < b < rest.len() implies (#[trigger] rest[a]).0@ != (
        #[trigger] rest[b]).0@ by {
            assert(rest[a] == entries[a]);
            assert(rest[b] == entries[b]);
        }
    }
    if i < rest.len() {
        lemma_entry_contents(rest, i);
        assert(rest[i] == entries[i]);
        assert(entries.last() == entries[entries.len() - 1]);
    } else if rest.len() > 0 {
        lemma_entry_contents(rest, 0);
    } else {
        assert(entries_contents(rest).dom() =~= Set::<Seq<char>>::empty());
    }
}

fn fields_from_entries(entries: Vec<(String, serde_json::Value)>) -> (r: Fields)
    requires
        distinct_names(entries@),
    ensures
        r@ == entries_contents(entries@),
    decreases entries_contents(entries@),
{
    let mut out = Fields::new();
    assert(entries@.take(0) =~= Seq::<(String, serde_json::Value)>::empty());
    for entry in it: entries
        invariant
            it.seq() == entries@,
            distinct_names(entries@),
            out@ == entries_contents(entries@.take(it.index() as int)),
    {
        let ghost i = it.index() as int;
        proof {
            lemma_entry_contents(entries@, i);
            vstd::map::axiom_map_index_decreases_finite(entries_contents(entries@), entry.0@);
        }
        let (name, value) = entry;
        let _ = out.insert(name.as_str(), json_from_value(value));
        assert(entries@.take(i + 1).drop_last() =~= entries@.take(i));
    }
    assert(entries@.take(entries@.len() as int) =~= entries@);
    out
}

/// The document in the form of the JSON library.
fn value_from_json(json: &Json) -> (r: serde_json::Value)
    ensures
        contents(r) == json@,
    decreases json,
{
    match json {
        Json::Null => close_value(Layer::Null),
        Json::Bool(b) => close_value(Layer::Bool(*b)),
        Json::Unsigned(n) => close_value(Layer::Unsigned(*n)),
        Json::Number(number) => {
            proof {
                use_type_invariant(number);
            }
            close_value(Layer::Number(number.value.clone()))
        },
        Json::Text(text) => close_value(Layer::Text(text.clone())),
        Json::Array(items) => close_value(Layer::Array(values_from_items(items))),
        Json::Object(fields) => close_value(Layer::Object(entries_from_fields(fields))),
    }
}

fn values_from_items(items: &Vec<Json>) -> (r: Vec<serde_json::Value>)
    ensures
        all_contents(r@) == super::models(items@),
    decreases items,
{
    let mut out: Vec<serde_json::Value> = Vec::new();
    let mut i: usize = 0;
    while i < items.len()
        invariant
            i <= items.len(),
            out.len() == i,
            forall|j: int| 0 <= j < i ==> contents(#[trigger] out@[j]) == items@[j]@,
        decreases items.len() - i,
    {
        assert(decreases_to!(items => items@[i as int]));
        out.push(value_from_json(&items[i]));
        i = i + 1;
    }
    assert(all_contents(out@) =~= super::models(items@));
    out
}

fn entries_from_fields(fields: &Fields) -> (r: Vec<(String, serde_json::Value)>)
    ensures
        entries_contents(r@) == fields@,
    decreases fields,
{
    let mut out: Vec<(String, serde_json::Value)> = Vec::new();
    let mut i: usize = 0;
    assert(fields.entries@.take(0) =~= Seq::<(String, Json)>::empty());
    while i < fields.entries.len()
        invariant
            i <= fields.entries.len(),
            entries_contents(out@) == super::entries_model(fields.entries@.take(i as int)),
        decreases fields.entries.len() - i,
    {
        let ghost before = out@;
        out.push((fields.entries[i].0.clone(), value_from_json(&fields.entries[i].1)));
        assert(out@.drop_last() =~= before);
        assert(fields.entries@.take(i + 1).drop_last() =~= fields.entries@.take(i as int));
        i = i + 1;
    }
    assert(fields.entries@.take(fields.entries@.len() as int) =~= fields.entries@);
    out
}

/// What a parse gave, in terms of what it says.
pub open spec fn parsed(result: Result<Json, String>) -> Result<JsonModel, Seq<char>> {
    match result {
        Ok(json) => Ok(json@),
        Err(message) => Err(message@),
    }
}

/// Reads a document from text.
pub fn parse_json(text: &str) -> (r: Result<Json, String>)
    ensures
        parsed(r) == json_parse(text@),
{
    match parse_value(text) {
        Ok(value) => Ok(json_from_value(value)),
        Err(message) => Err(message),
    }
}

/// Reads a document from bytes.
pub fn parse_json_bytes(bytes: &[u8]) -> (r: Result<Json, String>)
    ensures
        parsed(r) == json_parse_bytes(bytes@),
{
    match parse_value_bytes(bytes) {
        Ok(value) => Ok(json_from_value(value)),
        Err(message) => Err(message),
    }
}

/// Writes a document as text on one line.
pub fn to_text(json: &Json) -> (r: String)
    ensures
        r@ == json_text(json@),
        forall|i: int| 0 <= i < r@.len() ==> (#[trigger] r@[i]) != '\n' && r@[i] != '\r',
{
    let value = value_from_json(json);
    value_text(&value)
}

}
