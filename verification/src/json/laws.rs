//! What the parts of a document are, whatever the document is.
use vstd::prelude::*;

use crate::json::JsonModel;

verus! {

/// A field is found in an object that has it, with its value, and nowhere else.
pub proof fn law_fields_of_objects(
    fields: Map<Seq<char>, JsonModel>,
    key: Seq<char>,
    value: JsonModel,
)
    ensures
        fields.dom().contains(key) ==> JsonModel::Object(fields).field(key) == Some(fields[key]),
        !fields.dom().contains(key) ==> JsonModel::Object(fields).field(key) is None,
        !(value is Object) ==> value.field(key) is None,
{
}

/// A document is text, a list, a truth value or an integer if and only if it was made
/// as one, and says what it was made of.
pub proof fn law_kinds_of_documents(
    value: JsonModel,
    text: Seq<char>,
    items: Seq<JsonModel>,
    truth: bool,
    number: u64,
)
    ensures
        value.as_text() == Some(text) <==> value == JsonModel::Text(text),
        value.as_array() == Some(items) <==> value == JsonModel::Array(items),
        value.as_bool() == Some(truth) <==> value == JsonModel::Bool(truth),
        value.as_u64() == Some(number) <==> value == JsonModel::Unsigned(number),
{
}

/// A field of a kind is found if and only if the field is there and of that kind, and
/// a field of a field if and only if both are there.
pub proof fn law_fields_of_a_kind(
    value: JsonModel,
    key: Seq<char>,
    inner: Seq<char>,
    text: Seq<char>,
    items: Seq<JsonModel>,
    truth: bool,
    number: u64,
    found: JsonModel,
)
    ensures
        value.text_field(key) == Some(text) <==> value.field(key) == Some(JsonModel::Text(text)),
        value.array_field(key) == Some(items) <==> value.field(key) == Some(
            JsonModel::Array(items),
        ),
        value.bool_field(key) == Some(truth) <==> value.field(key) == Some(JsonModel::Bool(truth)),
        value.u64_field(key) == Some(number) <==> value.field(key) == Some(
            JsonModel::Unsigned(number),
        ),
        value.nested(key, inner) == Some(found) <==> (value.field(key) is Some && value.field(
            key,
        )->0.field(inner) == Some(found)),
        value.nested_text(key, inner) == Some(text) <==> value.nested(key, inner) == Some(
            JsonModel::Text(text),
        ),
        value.nested_u64(key, inner) == Some(number) <==> value.nested(key, inner) == Some(
            JsonModel::Unsigned(number),
        ),
{
}

}
