//! What a request of the Responses protocol holds, field by field.
use vstd::prelude::*;

use crate::error::ErrorModel;
use crate::json::codec;
use crate::json::JsonModel;
use crate::transform::laws::blocks;
use crate::transform::{content, options, responses, system};

verus! {

/// The fields of requests bear names of their own.
proof fn lemma_fields()
    ensures
        "model"@ != "instructions"@,
        "model"@ != "input"@,
        "model"@ != "max_output_tokens"@,
        "model"@ != "temperature"@,
        "model"@ != "top_p"@,
        "model"@ != "stream"@,
        "model"@ != "reasoning"@,
        "model"@ != "tools"@,
        "model"@ != "tool_choice"@,
        "model"@ != "parallel_tool_calls"@,
        "model"@ != "user"@,
        "model"@ != "messages"@,
        "model"@ != "max_tokens"@,
        "model"@ != "max_completion_tokens"@,
        "model"@ != "stop"@,
        "model"@ != "stream_options"@,
        "model"@ != "reasoning_effort"@,
        "instructions"@ != "input"@,
        "instructions"@ != "max_output_tokens"@,
        "instructions"@ != "temperature"@,
        "instructions"@ != "top_p"@,
        "instructions"@ != "stream"@,
        "instructions"@ != "reasoning"@,
        "instructions"@ != "tools"@,
        "instructions"@ != "tool_choice"@,
        "instructions"@ != "parallel_tool_calls"@,
        "instructions"@ != "user"@,
        "instructions"@ != "messages"@,
        "instructions"@ != "max_tokens"@,
        "instructions"@ != "max_completion_tokens"@,
        "instructions"@ != "stop"@,
        "instructions"@ != "stream_options"@,
        "instructions"@ != "reasoning_effort"@,
        "input"@ != "max_output_tokens"@,
        "input"@ != "temperature"@,
        "input"@ != "top_p"@,
        "input"@ != "stream"@,
        "input"@ != "reasoning"@,
        "input"@ != "tools"@,
        "input"@ != "tool_choice"@,
        "input"@ != "parallel_tool_calls"@,
        "input"@ != "user"@,
        "input"@ != "messages"@,
        "input"@ != "max_tokens"@,
        "input"@ != "max_completion_tokens"@,
        "input"@ != "stop"@,
        "input"@ != "stream_options"@,
        "input"@ != "reasoning_effort"@,
        "max_output_tokens"@ != "temperature"@,
        "max_output_tokens"@ != "top_p"@,
        "max_output_tokens"@ != "stream"@,
        "max_output_tokens"@ != "reasoning"@,
        "max_output_tokens"@ != "tools"@,
        "max_output_tokens"@ != "tool_choice"@,
        "max_output_tokens"@ != "parallel_tool_calls"@,
        "max_output_tokens"@ != "user"@,
        "max_output_tokens"@ != "messages"@,
        "max_output_tokens"@ != "max_tokens"@,
        "max_output_tokens"@ != "max_completion_tokens"@,
        "max_output_tokens"@ != "stop"@,
        "max_output_tokens"@ != "stream_options"@,
        "max_output_tokens"@ != "reasoning_effort"@,
        "temperature"@ != "top_p"@,
        "temperature"@ != "stream"@,
        "temperature"@ != "reasoning"@,
        "temperature"@ != "tools"@,
        "temperature"@ != "tool_choice"@,
        "temperature"@ != "parallel_tool_calls"@,
        "temperature"@ != "user"@,
        "temperature"@ != "messages"@,
        "temperature"@ != "max_tokens"@,
        "temperature"@ != "max_completion_tokens"@,
        "temperature"@ != "stop"@,
        "temperature"@ != "stream_options"@,
        "temperature"@ != "reasoning_effort"@,
        "top_p"@ != "stream"@,
        "top_p"@ != "reasoning"@,
        "top_p"@ != "tools"@,
        "top_p"@ != "tool_choice"@,
        "top_p"@ != "parallel_tool_calls"@,
        "top_p"@ != "user"@,
        "top_p"@ != "messages"@,
        "top_p"@ != "max_tokens"@,
        "top_p"@ != "max_completion_tokens"@,
        "top_p"@ != "stop"@,
        "top_p"@ != "stream_options"@,
        "top_p"@ != "reasoning_effort"@,
        "stream"@ != "reasoning"@,
        "stream"@ != "tools"@,
        "stream"@ != "tool_choice"@,
        "stream"@ != "parallel_tool_calls"@,
        "stream"@ != "user"@,
        "stream"@ != "messages"@,
        "stream"@ != "max_tokens"@,
        "stream"@ != "max_completion_tokens"@,
        "stream"@ != "stop"@,
        "stream"@ != "stream_options"@,
        "stream"@ != "reasoning_effort"@,
        "reasoning"@ != "tools"@,
        "reasoning"@ != "tool_choice"@,
        "reasoning"@ != "parallel_tool_calls"@,
        "reasoning"@ != "user"@,
        "reasoning"@ != "messages"@,
        "reasoning"@ != "max_tokens"@,
        "reasoning"@ != "max_completion_tokens"@,
        "reasoning"@ != "stop"@,
        "reasoning"@ != "stream_options"@,
        "reasoning"@ != "reasoning_effort"@,
        "tools"@ != "tool_choice"@,
        "tools"@ != "parallel_tool_calls"@,
        "tools"@ != "user"@,
        "tools"@ != "messages"@,
        "tools"@ != "max_tokens"@,
        "tools"@ != "max_completion_tokens"@,
        "tools"@ != "stop"@,
        "tools"@ != "stream_options"@,
        "tools"@ != "reasoning_effort"@,
        "tool_choice"@ != "parallel_tool_calls"@,
        "tool_choice"@ != "user"@,
        "tool_choice"@ != "messages"@,
        "tool_choice"@ != "max_tokens"@,
        "tool_choice"@ != "max_completion_tokens"@,
        "tool_choice"@ != "stop"@,
        "tool_choice"@ != "stream_options"@,
        "tool_choice"@ != "reasoning_effort"@,
        "parallel_tool_calls"@ != "user"@,
        "parallel_tool_calls"@ != "messages"@,
        "parallel_tool_calls"@ != "max_tokens"@,
        "parallel_tool_calls"@ != "max_completion_tokens"@,
        "parallel_tool_calls"@ != "stop"@,
        "parallel_tool_calls"@ != "stream_options"@,
        "parallel_tool_calls"@ != "reasoning_effort"@,
        "user"@ != "messages"@,
        "user"@ != "max_tokens"@,
        "user"@ != "max_completion_tokens"@,
        "user"@ != "stop"@,
        "user"@ != "stream_options"@,
        "user"@ != "reasoning_effort"@,
        "messages"@ != "max_tokens"@,
        "messages"@ != "max_completion_tokens"@,
        "messages"@ != "stop"@,
        "messages"@ != "stream_options"@,
        "messages"@ != "reasoning_effort"@,
        "max_tokens"@ != "max_completion_tokens"@,
        "max_tokens"@ != "stop"@,
        "max_tokens"@ != "stream_options"@,
        "max_tokens"@ != "reasoning_effort"@,
        "max_completion_tokens"@ != "stop"@,
        "max_completion_tokens"@ != "stream_options"@,
        "max_completion_tokens"@ != "reasoning_effort"@,
        "stop"@ != "stream_options"@,
        "stop"@ != "reasoning_effort"@,
        "stream_options"@ != "reasoning_effort"@,
{
    reveal_strlit("model");
    reveal_strlit("instructions");
    reveal_strlit("input");
    reveal_strlit("max_output_tokens");
    reveal_strlit("temperature");
    reveal_strlit("top_p");
    reveal_strlit("stream");
    reveal_strlit("reasoning");
    reveal_strlit("tools");
    reveal_strlit("tool_choice");
    reveal_strlit("parallel_tool_calls");
    reveal_strlit("user");
    reveal_strlit("messages");
    reveal_strlit("max_tokens");
    reveal_strlit("max_completion_tokens");
    reveal_strlit("stop");
    reveal_strlit("stream_options");
    reveal_strlit("reasoning_effort");
    assert("model"@.len() == 5);
    assert("instructions"@.len() == 12);
    assert("model"@[0] == 'm');
    assert("input"@[0] == 'i');
    assert("max_output_tokens"@.len() == 17);
    assert("temperature"@.len() == 11);
    assert("top_p"@[0] == 't');
    assert("stream"@.len() == 6);
    assert("reasoning"@.len() == 9);
    assert("tools"@[0] == 't');
    assert("tool_choice"@.len() == 11);
    assert("parallel_tool_calls"@.len() == 19);
    assert("user"@.len() == 4);
    assert("messages"@.len() == 8);
    assert("max_tokens"@.len() == 10);
    assert("max_completion_tokens"@.len() == 21);
    assert("stop"@.len() == 4);
    assert("stream_options"@.len() == 14);
    assert("reasoning_effort"@.len() == 16);
    assert("input"@.len() == 5);
    assert("top_p"@.len() == 5);
    assert("tools"@.len() == 5);
    assert("temperature"@[1] == 'e');
    assert("tool_choice"@[1] == 'o');
    assert("top_p"@[2] == 'p');
    assert("tools"@[2] == 'o');
    assert("user"@[0] == 'u');
    assert("stop"@[0] == 's');
}

/// The fields of items and tools bear names of their own.
proof fn lemma_item_fields()
    ensures
        "type"@ != "call_id"@,
        "type"@ != "name"@,
        "type"@ != "arguments"@,
        "type"@ != "output"@,
        "type"@ != "role"@,
        "type"@ != "content"@,
        "call_id"@ != "name"@,
        "call_id"@ != "arguments"@,
        "call_id"@ != "output"@,
        "call_id"@ != "role"@,
        "call_id"@ != "content"@,
        "name"@ != "arguments"@,
        "name"@ != "output"@,
        "name"@ != "role"@,
        "name"@ != "content"@,
        "arguments"@ != "output"@,
        "arguments"@ != "role"@,
        "arguments"@ != "content"@,
        "output"@ != "role"@,
        "output"@ != "content"@,
        "role"@ != "content"@,
        "type"@ != "parameters"@,
        "type"@ != "description"@,
        "name"@ != "parameters"@,
        "name"@ != "description"@,
        "parameters"@ != "description"@,
        "type"@ != "text"@,
        "type"@ != "image_url"@,
        "text"@ != "image_url"@,
        "output_text"@ != "input_text"@,
        "text"@ != "image"@,
        "text"@ != "document"@,
        "text"@ != "tool_use"@,
        "text"@ != "tool_result"@,
        "text"@ != ""@,
        "image"@ != "document"@,
        "image"@ != "tool_use"@,
        "image"@ != "tool_result"@,
        "image"@ != ""@,
        "document"@ != "tool_use"@,
        "document"@ != "tool_result"@,
        "document"@ != ""@,
        "tool_use"@ != "tool_result"@,
        "tool_use"@ != ""@,
        "tool_result"@ != ""@,
{
    reveal_strlit("type");
    reveal_strlit("call_id");
    reveal_strlit("name");
    reveal_strlit("arguments");
    reveal_strlit("output");
    reveal_strlit("role");
    reveal_strlit("content");
    reveal_strlit("parameters");
    reveal_strlit("description");
    reveal_strlit("text");
    reveal_strlit("image_url");
    reveal_strlit("output_text");
    reveal_strlit("input_text");
    reveal_strlit("image");
    reveal_strlit("document");
    reveal_strlit("tool_use");
    reveal_strlit("tool_result");
    reveal_strlit("");
    assert("type"@.len() == 4);
    assert("call_id"@.len() == 7);
    assert("type"@[0] == 't');
    assert("name"@[0] == 'n');
    assert("arguments"@.len() == 9);
    assert("output"@.len() == 6);
    assert("role"@[0] == 'r');
    assert("content"@.len() == 7);
    assert("name"@.len() == 4);
    assert("role"@.len() == 4);
    assert("call_id"@[1] == 'a');
    assert("content"@[1] == 'o');
    assert("parameters"@.len() == 10);
    assert("description"@.len() == 11);
    assert("type"@[1] == 'y');
    assert("text"@[1] == 'e');
    assert("image_url"@.len() == 9);
    assert("text"@.len() == 4);
    assert("output_text"@.len() == 11);
    assert("input_text"@.len() == 10);
    assert("image"@.len() == 5);
    assert("document"@.len() == 8);
    assert("tool_use"@.len() == 8);
    assert("tool_result"@.len() == 11);
    assert(""@.len() == 0);
    assert("document"@[0] == 'd');
    assert("tool_use"@[0] == 't');
}

/// A request is converted if and only if it has the name of a model and a list of
/// messages; or else what it lacks is told, the model first.
pub proof fn law_responses_refusals(body: JsonModel)
    ensures
        ({
            let made = responses::responses_request(body);
            let model = body.text_field("model"@);
            let messages = body.array_field("messages"@);
            &&& made is Ok <==> model is Some && messages is Some
            &&& model is None ==> made == Err::<JsonModel, ErrorModel>(
                ErrorModel::InvalidRequest("缺少字符串字段 model"@),
            )
            &&& model is Some && messages is None ==> made == Err::<JsonModel, ErrorModel>(
                ErrorModel::InvalidRequest("缺少数组字段 messages"@),
            )
        }),
{
}

/// Each option of a request of the Responses protocol is that of the request it is made
/// of, under the name that the protocol gives it; it is there if and only if that is; a
/// limit from 1 to 15 is 16; and nothing else is there.
pub proof fn law_responses_options(body: JsonModel)
    requires
        responses::responses_request(body) is Ok,
    ensures
        ({
            let made = responses::responses_request(body)->Ok_0;
            let model = blocks::or_nothing(body.text_field("model"@));
            let said = match body.field("system"@) {
                Some(value) => content::content_text(value),
                None => Seq::empty(),
            };
            &&& made.field("model"@) == body.field("model"@)
            &&& made.field("temperature"@) == body.field("temperature"@)
            &&& made.field("top_p"@) == body.field("top_p"@)
            &&& made.field("stream"@) == body.field("stream"@)
            &&& made.field("user"@) == body.nested("metadata"@, "user_id"@)
            &&& if said.len() > 0 {
                made.text_field("instructions"@) == Some(said)
            } else {
                made.field("instructions"@) is None
            }
            &&& match body.u64_field("max_tokens"@) {
                Some(n) => if 1 <= n < 16 {
                    made.u64_field("max_output_tokens"@) == Some(16u64)
                } else {
                    made.u64_field("max_output_tokens"@) == Some(n)
                },
                None => made.field("max_output_tokens"@) == body.field("max_tokens"@),
            }
            &&& if options::reasons(model) && options::effort(body) is Some {
                &&& made.nested_text("reasoning"@, "effort"@) == options::effort(body)
                &&& forall|k: Seq<char>| #[trigger]
                    made.nested("reasoning"@, k) is Some ==> k == "effort"@
            } else {
                made.field("reasoning"@) is None
            }
            &&& match body.field("tool_choice"@) {
                Some(choice) => made.field("tool_choice"@) == Some(
                    options::responses_choice(choice),
                ),
                None => made.field("tool_choice"@) is None,
            }
            &&& blocks::is_parallel(made.field("parallel_tool_calls"@), body)
            &&& made.field("input"@) matches Some(list) && list is Array
            &&& forall|k: Seq<char>| #[trigger]
                made.field(k) is Some ==> k == "model"@ || k == "input"@ || k == "temperature"@ || k
                    == "top_p"@ || k == "stream"@ || k == "user"@ || k == "instructions"@ || k
                    == "max_output_tokens"@ || k == "reasoning"@ || k == "tool_choice"@ || k
                    == "parallel_tool_calls"@ || k == "tools"@
            &&& made.field("messages"@) is None
            &&& made.field("max_tokens"@) is None
            &&& made.field("max_completion_tokens"@) is None
            &&& made.field("stop"@) is None
            &&& made.field("stream_options"@) is None
            &&& made.field("reasoning_effort"@) is None
        }),
{
    lemma_fields();
    reveal_strlit("");
    assert(""@ =~= Seq::<char>::empty());
}

/// Whether a tool of the Responses protocol is that tool: a function with its name, its
/// description, if it has one, and its parameters.
pub open spec fn is_tool(made: JsonModel, tool: JsonModel) -> bool {
    &&& made.text_field("type"@) == Some("function"@)
    &&& made.field("name"@) == tool.field("name"@)
    &&& made.field("description"@) == tool.field("description"@)
    &&& blocks::are_parameters(made.field("parameters"@), tool)
    &&& forall|k: Seq<char>| #[trigger]
        made.field(k) is Some ==> k == "type"@ || k == "name"@ || k == "description"@ || k
            == "parameters"@
}

/// The tools of a request of the Responses protocol are those of the request that have a
/// name, in their order; without any there is no list of them.
pub proof fn law_responses_tools(body: JsonModel)
    requires
        responses::responses_request(body) is Ok,
    ensures
        ({
            let made = responses::responses_request(body)->Ok_0;
            let tools = match body.array_field("tools"@) {
                Some(list) => blocks::named(list),
                None => Seq::empty(),
            };
            if tools.len() == 0 {
                made.field("tools"@) is None
            } else {
                made.array_field("tools"@) matches Some(list) && list.len() == tools.len() && (
                forall|i: int| 0 <= i < tools.len() ==> is_tool(#[trigger] list[i], tools[i]))
            }
        }),
{
    lemma_fields();
    if let Some(list) = body.array_field("tools"@) {
        lemma_tools(list);
    }
}

proof fn lemma_tools(tools: Seq<JsonModel>)
    ensures
        responses::responses_tools(tools).len() == blocks::named(tools).len(),
        forall|i: int|
            0 <= i < blocks::named(tools).len() ==> is_tool(
                #[trigger] responses::responses_tools(tools)[i],
                blocks::named(tools)[i],
            ),
    decreases tools.len(),
{
    if tools.len() == 0 {
        reveal(Seq::filter);
    } else {
        lemma_item_fields();
        let rest = tools.drop_last();
        let last = tools.last();
        lemma_tools(rest);
        blocks::lemma_filter_push(rest, last, |t: JsonModel| t.text_field("name"@) is Some);
        assert(rest.push(last) =~= tools);
        if last.text_field("name"@) is Some {
            assert(is_tool(responses::responses_tool(last), last));
        }
        assert forall|i: int| 0 <= i < blocks::named(tools).len() implies is_tool(
            #[trigger] responses::responses_tools(tools)[i],
            blocks::named(tools)[i],
        ) by {
            if i < blocks::named(rest).len() {
                assert(responses::responses_tools(tools)[i] == responses::responses_tools(rest)[i]);
            }
        }
    }
}

/// Whether an item is the call in a block: with its id and name, and its input as JSON
/// text.
pub open spec fn is_call(made: JsonModel, block: JsonModel) -> bool {
    &&& made.text_field("type"@) == Some("function_call"@)
    &&& made.text_field("call_id"@) == Some(blocks::or_nothing(block.text_field("id"@)))
    &&& made.text_field("name"@) == Some(blocks::or_nothing(block.text_field("name"@)))
    &&& made.text_field("arguments"@) == Some(codec::json_text(blocks::input(block)))
    &&& forall|k: Seq<char>| #[trigger]
        made.field(k) is Some ==> k == "type"@ || k == "call_id"@ || k == "name"@ || k
            == "arguments"@
}

/// Whether an item is the result of a tool in a block: for the call that the block
/// names, with the text of the result.
pub open spec fn is_result(made: JsonModel, block: JsonModel) -> bool {
    &&& made.text_field("type"@) == Some("function_call_output"@)
    &&& made.text_field("call_id"@) == Some(blocks::or_nothing(block.text_field("tool_use_id"@)))
    &&& made.text_field("output"@) == Some(content::result_text(block.field("content"@)))
    &&& forall|k: Seq<char>| #[trigger]
        made.field(k) is Some ==> k == "type"@ || k == "call_id"@ || k == "output"@
}

/// Whether a part is a text in a role: put out by the assistant, put in by all others.
pub open spec fn is_text(made: JsonModel, role: Seq<char>, said: Seq<char>) -> bool {
    &&& made.text_field("type"@) == Some(
        if role == "assistant"@ {
            "output_text"@
        } else {
            "input_text"@
        },
    )
    &&& made.text_field("text"@) == Some(said)
    &&& forall|k: Seq<char>| #[trigger] made.field(k) is Some ==> k == "type"@ || k == "text"@
}

/// Whether a part is what a block of a message says, shows or brings.
pub open spec fn is_part(made: JsonModel, role: Seq<char>, block: JsonModel) -> bool {
    if blocks::says(block) {
        is_text(made, role, block.text_field("text"@)->0)
    } else if blocks::shows(block) {
        &&& made.text_field("type"@) == Some("input_image"@)
        &&& made.text_field("image_url"@) == content::image_url(block)
        &&& forall|k: Seq<char>| #[trigger]
            made.field(k) is Some ==> k == "type"@ || k == "image_url"@
    } else {
        Some(made) == content::document_part(block)
    }
}

/// Whether an item is a message in a role with these parts.
pub open spec fn is_message(made: JsonModel, role: Seq<char>, parts: Seq<JsonModel>) -> bool {
    &&& made.text_field("role"@) == Some(role)
    &&& made.array_field("content"@) == Some(parts)
    &&& forall|k: Seq<char>| #[trigger] made.field(k) is Some ==> k == "role"@ || k == "content"@
}

/// A message with a string is an item that says that string in its role; one without a
/// string or a list is an item with its role alone.
pub proof fn law_plain_item(message: JsonModel)
    ensures
        ({
            let made = responses::message_items(message);
            let role = blocks::role(message);
            &&& message.field("content"@) matches Some(JsonModel::Text(said)) ==> made.len() == 1
                && (made[0].array_field("content"@) matches Some(parts) && parts.len() == 1
                && is_message(made[0], role, parts) && is_text(parts[0], role, said))
            &&& !(message.field("content"@) matches Some(JsonModel::Array(_))) && !(message.field(
                "content"@,
            ) matches Some(JsonModel::Text(_))) ==> {
                &&& made.len() == 1
                &&& made[0].text_field("role"@) == Some(role)
                &&& forall|k: Seq<char>| #[trigger] made[0].field(k) is Some ==> k == "role"@
            }
        }),
{
    lemma_item_fields();
}

/// The items of a message with a list of blocks, block by block. Without blocks there are
/// none. One more call or result of a tool is one more item, which is that call or
/// result. One more text, image or file stands behind the parts of the last item where
/// that is a message, and else begins a message in the role of the message. Any other
/// block adds nothing.
pub proof fn law_items_of_blocks(
    before: JsonModel,
    now: JsonModel,
    list: Seq<JsonModel>,
    block: JsonModel,
)
    requires
        before.field("content"@) == Some(JsonModel::Array(list)),
        now.field("content"@) == Some(JsonModel::Array(list.push(block))),
        now.field("role"@) == before.field("role"@),
    ensures
        ({
            let old = responses::message_items(before);
            let new = responses::message_items(now);
            let role = blocks::role(now);
            let part = blocks::says(block) || blocks::shows(block) || blocks::brings(block);
            &&& list.len() == 0 ==> old.len() == 0
            &&& blocks::calls(block) ==> new.len() == old.len() + 1 && new.drop_last() == old
                && is_call(new.last(), block)
            &&& blocks::answers(block) ==> new.len() == old.len() + 1 && new.drop_last() == old
                && is_result(new.last(), block)
            &&& part ==> if old.len() > 0 && old.last().field("role"@) is Some {
                &&& new.len() == old.len()
                &&& new.drop_last() == old.drop_last()
                &&& old.last().array_field("content"@) matches Some(parts) && new.last().array_field(
                    "content"@,
                ) matches Some(more) && more.len() == parts.len() + 1 && more.drop_last() == parts
                    && is_part(more.last(), role, block) && is_message(new.last(), role, more)
            } else {
                &&& new.len() == old.len() + 1
                &&& new.drop_last() == old
                &&& new.last().array_field("content"@) matches Some(parts) && parts.len() == 1
                    && is_part(parts[0], role, block) && is_message(new.last(), role, parts)
            }
            &&& !part && !blocks::calls(block) && !blocks::answers(block) ==> new == old
        }),
{
    lemma_item_fields();
    reveal_strlit("");
    assert(""@ =~= Seq::<char>::empty());
    let role = blocks::role(now);
    let more = list.push(block);
    assert(more.drop_last() =~= list);
    let held = responses::items_of(role, list);
    lemma_last_item(role, list);
    let old = responses::message_items(before);
    let new = responses::message_items(now);
    let next = responses::items_of(role, more);
    assert(next == held.with_block(role, block));
    if blocks::calls(block) {
        assert(new =~= old.push(responses::call_item(block)));
        assert(new.drop_last() =~= old);
    } else if blocks::answers(block) {
        assert(new =~= old.push(responses::result_item(block)));
        assert(new.drop_last() =~= old);
    } else if blocks::says(block) || blocks::shows(block) || blocks::brings(block) {
        let part = next.parts.last();
        assert(next.parts =~= held.parts.push(part));
        assert(next.items == held.items);
        assert(next.parts.drop_last() =~= held.parts);
        assert(is_part(part, role, block));
        assert(new.drop_last() =~= held.items);
        if held.parts.len() > 0 {
            assert(old.drop_last() =~= held.items);
        } else {
            assert(next.parts[0] == part);
        }
    } else {
        assert(next == held);
    }
}

/// The last item is a message if and only if parts were gathered behind all others.
proof fn lemma_last_item(role: Seq<char>, list: Seq<JsonModel>)
    ensures
        responses::items_of(role, list).items.len() > 0 ==> (responses::items_of(
            role,
            list,
        ).parts.len() == 0 ==> responses::items_of(role, list).items.last().field("role"@) is None),
    decreases list.len(),
{
    if list.len() > 0 {
        lemma_item_fields();
        lemma_last_item(role, list.drop_last());
    }
}

/// The messages of a request are converted one by one, in their order.
pub proof fn law_items_of_messages(body: JsonModel, a: Seq<JsonModel>, b: Seq<JsonModel>)
    requires
        responses::responses_request(body) is Ok,
        body.array_field("messages"@) == Some(a + b),
    ensures
        responses::input_items(a + b) == responses::input_items(a) + responses::input_items(b),
        b.len() == 1 ==> responses::input_items(b) == responses::message_items(b[0]),
        responses::responses_request(body)->Ok_0.array_field("input"@) == Some(
            responses::input_items(a + b),
        ),
{
    lemma_fields();
    lemma_in_two(a, b);
    assert(system::messages_of(body) == a + b);
    if b.len() == 1 {
        assert(b.drop_last() =~= Seq::<JsonModel>::empty());
        assert(responses::input_items(Seq::empty()) =~= Seq::<JsonModel>::empty());
        assert(responses::input_items(b) =~= responses::message_items(b[0]));
    }
}

proof fn lemma_in_two(a: Seq<JsonModel>, b: Seq<JsonModel>)
    ensures
        responses::input_items(a + b) == responses::input_items(a) + responses::input_items(b),
    decreases b.len(),
{
    if b.len() == 0 {
        assert(a + b =~= a);
        assert(responses::input_items(a) + responses::input_items(b) =~= responses::input_items(
            a,
        ));
    } else {
        lemma_in_two(a, b.drop_last());
        assert((a + b).drop_last() =~= a + b.drop_last());
        assert((a + b).last() == b.last());
        assert(responses::input_items(a + b) =~= responses::input_items(a)
            + responses::input_items(b));
    }
}

}
