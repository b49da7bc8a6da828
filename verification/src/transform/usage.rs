//! Token counts, from the form of each protocol to that of Anthropic.
use vstd::prelude::*;

use crate::json::{self, Fields, Json, JsonModel};

verus! {

/// A difference that does not fall below zero.
pub open spec fn saturating(a: int, b: int) -> int {
    if a > b {
        a - b
    } else {
        0
    }
}

/// The count at the field `key`, or else at the field `inner` of `outer`, or
/// else zero.
pub open spec fn count_at(
    usage: JsonModel,
    key: Seq<char>,
    outer: Seq<char>,
    inner: Seq<char>,
) -> u64 {
    match usage.u64_field(key) {
        Some(n) => n,
        None => match usage.nested_u64(outer, inner) {
            Some(n) => n,
            None => 0,
        },
    }
}

/// The count at the field `key`, or else at the field `inner` of `outer`, or
/// else zero.
fn number_at(usage: &Json, key: &str, outer: &str, inner: &str) -> (r: u64)
    ensures
        r == count_at(usage@, key@, outer@, inner@),
{
    match usage.u64_field(key) {
        Some(n) => n,
        None => usage.nested_u64(outer, inner).unwrap_or(0),
    }
}

/// The usage of an answer: of all input tokens those that were neither read
/// from the cache nor written to it, the output tokens, and the two counts of
/// the cache where they are not zero.
pub open spec fn usage_model(total: u64, output: u64, cached: u64, created: u64) -> JsonModel {
    let fresh = saturating(saturating(total as int, cached as int), created as int) as u64;
    let base = Map::empty().insert("input_tokens"@, JsonModel::Unsigned(fresh)).insert(
        "output_tokens"@,
        JsonModel::Unsigned(output),
    );
    let read = if cached > 0 {
        base.insert("cache_read_input_tokens"@, JsonModel::Unsigned(cached))
    } else {
        base
    };
    let written = if created > 0 {
        read.insert("cache_creation_input_tokens"@, JsonModel::Unsigned(created))
    } else {
        read
    };
    JsonModel::Object(written)
}

fn usage_json(total: u64, output: u64, cached: u64, created: u64) -> (r: Json)
    ensures
        r@ == usage_model(total, output, cached, created),
{
    let fresh: u64 = total.saturating_sub(cached).saturating_sub(created);
    let mut usage = Fields::new().with("input_tokens", Json::Unsigned(fresh)).with(
        "output_tokens",
        Json::Unsigned(output),
    );
    if cached > 0 {
        let _ = usage.insert("cache_read_input_tokens", Json::Unsigned(cached));
    }
    if created > 0 {
        let _ = usage.insert("cache_creation_input_tokens", Json::Unsigned(created));
    }
    Json::Object(usage)
}

/// The document, or `null` where there is none.
pub open spec fn or_null(value: Option<JsonModel>) -> JsonModel {
    match value {
        Some(json) => json,
        None => JsonModel::Null,
    }
}

/// The count at the field `key`, or zero.
pub open spec fn or_zero(usage: JsonModel, key: Seq<char>) -> u64 {
    match usage.u64_field(key) {
        Some(n) => n,
        None => 0,
    }
}

/// Usage of the Chat protocol in the form of Anthropic.
pub open spec fn from_chat(value: Option<JsonModel>) -> JsonModel {
    let usage = or_null(value);
    usage_model(
        or_zero(usage, "prompt_tokens"@),
        or_zero(usage, "completion_tokens"@),
        count_at(
            usage,
            "cache_read_input_tokens"@,
            "prompt_tokens_details"@,
            "cached_tokens"@,
        ),
        count_at(
            usage,
            "cache_creation_input_tokens"@,
            "prompt_tokens_details"@,
            "cache_write_tokens"@,
        ),
    )
}

/// Usage of the Chat protocol in the form of Anthropic.
pub fn chat_usage(value: Option<&Json>) -> (r: Json)
    ensures
        r@ == from_chat(json::json_ref(value)),
{
    let null = Json::Null;
    let usage = value.unwrap_or(&null);
    let cached: u64 = number_at(
        usage,
        "cache_read_input_tokens",
        "prompt_tokens_details",
        "cached_tokens",
    );
    let created: u64 = number_at(
        usage,
        "cache_creation_input_tokens",
        "prompt_tokens_details",
        "cache_write_tokens",
    );
    let total: u64 = usage.u64_field("prompt_tokens").unwrap_or(0);
    let output: u64 = usage.u64_field("completion_tokens").unwrap_or(0);
    usage_json(total, output, cached, created)
}

/// Usage of the Responses protocol in the form of Anthropic.
pub open spec fn from_responses(value: Option<JsonModel>) -> JsonModel {
    let usage = or_null(value);
    usage_model(
        or_zero(usage, "input_tokens"@),
        or_zero(usage, "output_tokens"@),
        count_at(usage, "cache_read_input_tokens"@, "input_tokens_details"@, "cached_tokens"@),
        count_at(
            usage,
            "cache_creation_input_tokens"@,
            "input_tokens_details"@,
            "cache_write_tokens"@,
        ),
    )
}

/// Usage of the Responses protocol in the form of Anthropic.
pub fn responses_usage(value: Option<&Json>) -> (r: Json)
    ensures
        r@ == from_responses(json::json_ref(value)),
{
    let null = Json::Null;
    let usage = value.unwrap_or(&null);
    let cached: u64 = number_at(
        usage,
        "cache_read_input_tokens",
        "input_tokens_details",
        "cached_tokens",
    );
    let created: u64 = number_at(
        usage,
        "cache_creation_input_tokens",
        "input_tokens_details",
        "cache_write_tokens",
    );
    let total: u64 = usage.u64_field("input_tokens").unwrap_or(0);
    let output: u64 = usage.u64_field("output_tokens").unwrap_or(0);
    usage_json(total, output, cached, created)
}

}
