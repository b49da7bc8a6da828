//! What the requests of both OpenAI protocols have in common.
use vstd::prelude::*;

use crate::error::{ErrorModel, ProxyError};
use crate::json::{self, Fields, Json, JsonModel};
use crate::transform::system;

verus! {

/// Why a request cannot be converted, if it cannot: it needs the name of a
/// model and a list of messages.
pub open spec fn refusal(body: JsonModel) -> Option<ErrorModel> {
    if body.text_field("model"@) is None {
        Some(ErrorModel::InvalidRequest("缺少字符串字段 model"@))
    } else if body.array_field("messages"@) is None {
        Some(ErrorModel::InvalidRequest("缺少数组字段 messages"@))
    } else {
        None
    }
}

/// What a check found, in terms of what it says.
pub open spec fn found(result: Result<(), ProxyError>) -> Option<ErrorModel> {
    match result {
        Ok(_) => None,
        Err(error) => Some(error@),
    }
}

/// Checks that a request names a model and has a list of messages.
pub fn validate_anthropic_request(body: &Json) -> (r: Result<(), ProxyError>)
    ensures
        found(r) == refusal(body@),
{
    if body.text_field("model").is_none() {
        return Err(ProxyError::InvalidRequest("缺少字符串字段 model".to_owned()));
    }
    if body.array_field("messages").is_none() {
        return Err(ProxyError::InvalidRequest("缺少数组字段 messages".to_owned()));
    }
    Ok(())
}

/// What a conversion gave, in terms of what it says.
pub open spec fn converted(result: Result<Json, ProxyError>) -> Result<JsonModel, ErrorModel> {
    match result {
        Ok(json) => Ok(json@),
        Err(error) => Err(error@),
    }
}

/// A text, or another one where there is none.
pub open spec fn text_or(value: Option<Seq<char>>, other: Seq<char>) -> Seq<char> {
    match value {
        Some(text) => text,
        None => other,
    }
}

/// The name of the model that a request asks for.
pub open spec fn model_of(body: JsonModel) -> Seq<char> {
    text_or(body.text_field("model"@), ""@)
}

/// The role of a message, a user's where it names none.
pub open spec fn role_of(message: JsonModel) -> Seq<char> {
    text_or(message.text_field("role"@), "user"@)
}

/// Fields and one more, where there is a value for it.
pub open spec fn put(
    fields: Map<Seq<char>, JsonModel>,
    key: Seq<char>,
    value: Option<JsonModel>,
) -> Map<Seq<char>, JsonModel> {
    match value {
        Some(json) => fields.insert(key, json),
        None => fields,
    }
}

/// Sets a field where there is a value for it.
pub fn set_some(out: &mut Fields, key: &str, value: Option<Json>)
    ensures
        final(out)@ == put(old(out)@, key@, json::json_opt(value)),
{
    if let Some(json) = value {
        let _ = out.insert(key, json);
    }
}

/// Copies a field of the request, where it has it, under a name of its own.
pub fn copy(out: &mut Fields, input: &Json, from: &str, to: &str)
    ensures
        final(out)@ == put(old(out)@, to@, input@.field(from@)),
{
    if let Some(value) = input.get(from) {
        let _ = out.insert(to, value.clone());
    }
}

/// The text of the system that a request opens with.
pub open spec fn system_text(body: JsonModel) -> Seq<char> {
    system::field_text(body, "system"@)
}

/// The parameters of a tool: its schema, or that of any object.
pub open spec fn parameters_of(tool: JsonModel) -> JsonModel {
    match tool.field("input_schema"@) {
        Some(schema) => schema,
        None => JsonModel::Object(Map::empty().insert("type"@, JsonModel::Text("object"@))),
    }
}

/// The parameters of a tool: its schema, or that of any object.
pub fn tool_parameters(tool: &Json) -> (r: Json)
    ensures
        r@ == parameters_of(tool@),
{
    match tool.get("input_schema") {
        Some(schema) => schema.clone(),
        None => Json::Object(Fields::new().with("type", Json::text("object"))),
    }
}

/// Whether tools may be called side by side, where a choice says so.
pub open spec fn parallel_calls(choice: JsonModel) -> Option<JsonModel> {
    match choice.bool_field("disable_parallel_tool_use"@) {
        Some(disable) => Some(JsonModel::Bool(!disable)),
        None => None,
    }
}

/// Whether tools may be called side by side, where a choice says so.
pub fn parallel_tool_calls(choice: &Json) -> (r: Option<Json>)
    ensures
        json::json_opt(r) == parallel_calls(choice@),
{
    match choice.bool_field("disable_parallel_tool_use") {
        Some(disable) => Some(Json::Bool(!disable)),
        None => None,
    }
}

/// A field of a block as text, or nothing.
pub open spec fn block_text(block: JsonModel, key: Seq<char>) -> Seq<char> {
    text_or(block.text_field(key), ""@)
}

/// The input of a tool call: that of the block, or an empty object.
pub open spec fn input_of(block: JsonModel) -> JsonModel {
    match block.field("input"@) {
        Some(input) => input,
        None => JsonModel::Object(Map::empty()),
    }
}

/// The input of a tool call: that of the block, or an empty object.
pub fn tool_input(block: &Json) -> (r: Json)
    ensures
        r@ == input_of(block@),
{
    match block.get("input") {
        Some(input) => input.clone(),
        None => Json::Object(Fields::new()),
    }
}

}
