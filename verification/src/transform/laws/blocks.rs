//! The blocks of a message by what they are, and the tools of a request.
use vstd::prelude::*;

use crate::json::JsonModel;
use crate::transform::content;

verus! {

/// The kinds of blocks are different words.
pub proof fn lemma_kinds()
    ensures
        "text"@ != "image"@,
        "text"@ != "document"@,
        "text"@ != "tool_use"@,
        "text"@ != "tool_result"@,
        "text"@ != "thinking"@,
        "image"@ != "document"@,
        "image"@ != "tool_use"@,
        "image"@ != "tool_result"@,
        "image"@ != "thinking"@,
        "document"@ != "tool_use"@,
        "document"@ != "tool_result"@,
        "document"@ != "thinking"@,
        "tool_use"@ != "tool_result"@,
        "tool_use"@ != "thinking"@,
        "tool_result"@ != "thinking"@,
{
    reveal_strlit("text");
    reveal_strlit("image");
    reveal_strlit("document");
    reveal_strlit("tool_use");
    reveal_strlit("tool_result");
    reveal_strlit("thinking");
    assert("text"@.len() == 4);
    assert("image"@.len() == 5);
    assert("document"@.len() == 8);
    assert("tool_use"@.len() == 8);
    assert("tool_result"@.len() == 11);
    assert("thinking"@.len() == 8);
    assert("document"@[0] == 'd');
    assert("tool_use"@[0] == 't');
    assert("thinking"@[0] == 't');
    assert("tool_use"@[1] == 'o');
    assert("thinking"@[1] == 'h');
}

/// A text that may be there, or nothing.
pub open spec fn or_nothing(text: Option<Seq<char>>) -> Seq<char> {
    match text {
        Some(t) => t,
        None => Seq::empty(),
    }
}

/// The role of a message, that of a user where it has none.
pub open spec fn role(message: JsonModel) -> Seq<char> {
    match message.text_field("role"@) {
        Some(r) => r,
        None => "user"@,
    }
}

/// Whether a block says a text.
pub open spec fn says(block: JsonModel) -> bool {
    block.text_field("type"@) == Some("text"@) && block.text_field("text"@) is Some
}

/// Whether a block shows an image.
pub open spec fn shows(block: JsonModel) -> bool {
    block.text_field("type"@) == Some("image"@) && content::image_url(block) is Some
}

/// Whether a block brings a file.
pub open spec fn brings(block: JsonModel) -> bool {
    block.text_field("type"@) == Some("document"@) && content::document_part(block) is Some
}

/// Whether a block calls a tool.
pub open spec fn calls(block: JsonModel) -> bool {
    block.text_field("type"@) == Some("tool_use"@)
}

/// Whether a block gives the result of a tool.
pub open spec fn answers(block: JsonModel) -> bool {
    block.text_field("type"@) == Some("tool_result"@)
}

/// Whether a block thinks.
pub open spec fn thinks(block: JsonModel) -> bool {
    block.text_field("type"@) == Some("thinking"@) && block.text_field("thinking"@) is Some
}

/// The blocks that say a text, in their order.
pub open spec fn saying(blocks: Seq<JsonModel>) -> Seq<JsonModel> {
    blocks.filter(|b: JsonModel| says(b))
}

/// The blocks that show an image, in their order.
pub open spec fn showing(blocks: Seq<JsonModel>) -> Seq<JsonModel> {
    blocks.filter(|b: JsonModel| shows(b))
}

/// The blocks that say a text or show an image, in their order.
pub open spec fn saying_or_showing(blocks: Seq<JsonModel>) -> Seq<JsonModel> {
    blocks.filter(|b: JsonModel| says(b) || shows(b))
}

/// The blocks that call a tool, in their order.
pub open spec fn calling(blocks: Seq<JsonModel>) -> Seq<JsonModel> {
    blocks.filter(|b: JsonModel| calls(b))
}

/// The blocks that give the result of a tool, in their order.
pub open spec fn answering(blocks: Seq<JsonModel>) -> Seq<JsonModel> {
    blocks.filter(|b: JsonModel| answers(b))
}

/// The blocks that think, in their order.
pub open spec fn thinking(blocks: Seq<JsonModel>) -> Seq<JsonModel> {
    blocks.filter(|b: JsonModel| thinks(b))
}

/// The tools that have a name, in their order.
pub open spec fn named(tools: Seq<JsonModel>) -> Seq<JsonModel> {
    tools.filter(|t: JsonModel| t.text_field("name"@) is Some)
}

/// The input of a call: what the block holds as such, or an empty object.
pub open spec fn input(block: JsonModel) -> JsonModel {
    match block.field("input"@) {
        Some(value) => value,
        None => JsonModel::Object(Map::empty()),
    }
}

/// Whether parameters are those of a tool: its schema, or that of any object where it
/// has none.
pub open spec fn are_parameters(found: Option<JsonModel>, tool: JsonModel) -> bool {
    match tool.field("input_schema"@) {
        Some(schema) => found == Some(schema),
        None => found matches Some(any) && any.text_field("type"@) == Some("object"@) && (forall|
            k: Seq<char>,
        | #[trigger]
            any.field(k) is Some ==> k == "type"@),
    }
}

/// Whether tools may be called side by side: told where the choice of a tool says it,
/// the other way round.
pub open spec fn is_parallel(found: Option<JsonModel>, body: JsonModel) -> bool {
    match body.nested("tool_choice"@, "disable_parallel_tool_use"@) {
        Some(JsonModel::Bool(disable)) => found == Some(JsonModel::Bool(!disable)),
        _ => found is None,
    }
}

/// Of a list with one more behind it, those that are picked.
pub proof fn lemma_filter_push(
    items: Seq<JsonModel>,
    item: JsonModel,
    picks: spec_fn(JsonModel) -> bool,
)
    ensures
        items.push(item).filter(picks) == if picks(item) {
            items.filter(picks).push(item)
        } else {
            items.filter(picks)
        },
{
    reveal(Seq::filter);
    assert(items.push(item).drop_last() =~= items);
}

}
