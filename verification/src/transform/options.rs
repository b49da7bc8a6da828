//! The options of a request: the tool to use, the effort of reasoning and why
//! an answer stopped.
use vstd::prelude::*;

use crate::json::{Fields, Json, JsonModel};
use crate::text;

verus! {

/// Whether a model name is one of the `o` series: an `o` and a digit.
pub open spec fn o_series(model: Seq<char>) -> bool {
    model.len() >= 2 && model[0] == 'o' && '0' <= model[1] <= '9'
}

/// Whether a model name is one of the `o` series: an `o` and a digit.
pub fn is_o_series(model: &str) -> (r: bool)
    ensures
        r == o_series(model@),
{
    if model.unicode_len() < 2 {
        return false;
    }
    let first = model.get_char(0);
    let second = model.get_char(1);
    first == 'o' && '0' <= second && second <= '9'
}

/// Whether a model reasons: the `o` series, and `gpt-5` to `gpt-9`, in letters
/// of either case.
pub open spec fn reasons(model: Seq<char>) -> bool {
    let name = text::lower(model);
    o_series(name) || match text::after_prefix(name, "gpt-"@) {
        Some(rest) => rest.len() > 0 && '5' <= rest[0] <= '9',
        None => false,
    }
}

/// Whether a model reasons: the `o` series, and `gpt-5` to `gpt-9`, in letters
/// of either case.
pub fn supports_reasoning(model: &str) -> (r: bool)
    ensures
        r == reasons(model@),
{
    let name = text::lowercase(model);
    if is_o_series(name.as_str()) {
        return true;
    }
    match text::strip(name.as_str(), "gpt-") {
        Some(rest) => {
            if rest.is_empty() {
                false
            } else {
                let c = rest.get_char(0);
                '5' <= c && c <= '9'
            }
        },
        None => false,
    }
}

/// The effort of reasoning that a request asks for: by name, or else by the
/// kind and the budget of its thinking.
pub open spec fn effort(body: JsonModel) -> Option<Seq<char>> {
    match body.nested_text("output_config"@, "effort"@) {
        Some(name) => if name == "low"@ {
            Some("low"@)
        } else if name == "medium"@ {
            Some("medium"@)
        } else if name == "high"@ {
            Some("high"@)
        } else if name == "xhigh"@ || name == "max"@ {
            Some("xhigh"@)
        } else {
            None
        },
        None => match body.nested_text("thinking"@, "type"@) {
            Some(kind) => if kind == "adaptive"@ {
                Some("xhigh"@)
            } else if kind == "enabled"@ {
                match body.nested_u64("thinking"@, "budget_tokens"@) {
                    Some(budget) => if budget <= 3_999 {
                        Some("low"@)
                    } else if budget <= 15_999 {
                        Some("medium"@)
                    } else {
                        Some("high"@)
                    },
                    None => Some("high"@),
                }
            } else {
                None
            },
            None => None,
        },
    }
}

/// The effort of reasoning that a request asks for: by name, or else by the
/// kind and the budget of its thinking.
pub fn reasoning_effort(body: &Json) -> (r: Option<&'static str>)
    ensures
        text::text_ref(r) == effort(body@),
{
    if let Some(name) = body.nested_text("output_config", "effort") {
        if text::same_text(name, "low") {
            return Some("low");
        }
        if text::same_text(name, "medium") {
            return Some("medium");
        }
        if text::same_text(name, "high") {
            return Some("high");
        }
        if text::same_text(name, "xhigh") || text::same_text(name, "max") {
            return Some("xhigh");
        }
        return None;
    }
    match body.nested_text("thinking", "type") {
        Some(kind) => {
            if text::same_text(kind, "adaptive") {
                Some("xhigh")
            } else if text::same_text(kind, "enabled") {
                match body.nested_u64("thinking", "budget_tokens") {
                    Some(budget) => {
                        if budget <= 3_999 {
                            Some("low")
                        } else if budget <= 15_999 {
                            Some("medium")
                        } else {
                            Some("high")
                        }
                    },
                    None => Some("high"),
                }
            } else {
                None
            }
        },
        None => None,
    }
}

/// The kind of a tool choice: a bare string, or the `type` of an object.
pub open spec fn choice_kind(choice: JsonModel) -> Option<Seq<char>> {
    match choice.as_text() {
        Some(kind) => Some(kind),
        None => choice.text_field("type"@),
    }
}

fn find_choice_kind(choice: &Json) -> (r: Option<&str>)
    ensures
        text::text_ref(r) == choice_kind(choice@),
{
    match choice.as_str() {
        Some(kind) => Some(kind),
        None => choice.text_field("type"),
    }
}

/// The name of the tool that a choice names, or nothing.
pub open spec fn choice_name(choice: JsonModel) -> Seq<char> {
    match choice.text_field("name"@) {
        Some(name) => name,
        None => ""@,
    }
}

/// A tool choice in the form of the Chat protocol.
pub open spec fn chat_choice(choice: JsonModel) -> JsonModel {
    match choice_kind(choice) {
        Some(kind) => if kind == "any"@ {
            JsonModel::Text("required"@)
        } else if kind == "tool"@ {
            JsonModel::Object(
                Map::empty().insert("type"@, JsonModel::Text("function"@)).insert(
                    "function"@,
                    JsonModel::Object(
                        Map::empty().insert("name"@, JsonModel::Text(choice_name(choice))),
                    ),
                ),
            )
        } else {
            JsonModel::Text(kind)
        },
        None => choice,
    }
}

/// A tool choice in the form of the Chat protocol.
pub fn chat_tool_choice(choice: &Json) -> (r: Json)
    ensures
        r@ == chat_choice(choice@),
{
    match find_choice_kind(choice) {
        Some(kind) => {
            if text::same_text(kind, "any") {
                Json::text("required")
            } else if text::same_text(kind, "tool") {
                let name = choice.text_field("name").unwrap_or("");
                Json::Object(
                    Fields::new().with("type", Json::text("function")).with(
                        "function",
                        Json::Object(Fields::new().with("name", Json::text(name))),
                    ),
                )
            } else {
                Json::text(kind)
            }
        },
        None => choice.clone(),
    }
}

/// A tool choice in the form of the Responses protocol.
pub open spec fn responses_choice(choice: JsonModel) -> JsonModel {
    match choice_kind(choice) {
        Some(kind) => if kind == "any"@ {
            JsonModel::Text("required"@)
        } else if kind == "tool"@ {
            JsonModel::Object(
                Map::empty().insert("type"@, JsonModel::Text("function"@)).insert(
                    "name"@,
                    JsonModel::Text(choice_name(choice)),
                ),
            )
        } else {
            JsonModel::Text(kind)
        },
        None => choice,
    }
}

/// A tool choice in the form of the Responses protocol.
pub fn responses_tool_choice(choice: &Json) -> (r: Json)
    ensures
        r@ == responses_choice(choice@),
{
    match find_choice_kind(choice) {
        Some(kind) => {
            if text::same_text(kind, "any") {
                Json::text("required")
            } else if text::same_text(kind, "tool") {
                let name = choice.text_field("name").unwrap_or("");
                Json::Object(
                    Fields::new().with("type", Json::text("function")).with(
                        "name",
                        Json::text(name),
                    ),
                )
            } else {
                Json::text(kind)
            }
        },
        None => choice.clone(),
    }
}

/// Why an answer of the Chat protocol stopped, in the words of Anthropic.
pub open spec fn chat_stop(finish: Option<Seq<char>>, has_tools: bool) -> Seq<char> {
    if finish == Some("length"@) {
        "max_tokens"@
    } else if finish == Some("tool_calls"@) || finish == Some("function_call"@) || has_tools {
        "tool_use"@
    } else {
        "end_turn"@
    }
}

/// Why an answer of the Chat protocol stopped, in the words of Anthropic.
pub fn map_chat_stop(finish: Option<&str>, has_tools: bool) -> (r: &'static str)
    ensures
        r@ == chat_stop(text::text_ref(finish), has_tools),
{
    if let Some(reason) = finish {
        if text::same_text(reason, "length") {
            return "max_tokens";
        }
        if text::same_text(reason, "tool_calls") || text::same_text(reason, "function_call") {
            return "tool_use";
        }
    }
    if has_tools {
        "tool_use"
    } else {
        "end_turn"
    }
}

}
