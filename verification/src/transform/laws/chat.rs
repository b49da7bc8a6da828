//! What a request of the Chat protocol holds, field by field.
use vstd::prelude::*;

use crate::error::ErrorModel;
use crate::json::codec;
use crate::json::JsonModel;
use crate::text;
use crate::transform::laws::blocks;
use crate::transform::{chat, content, options, request, system};

verus! {

/// The fields of requests bear names of their own.
proof fn lemma_fields()
    ensures
        "model"@ != "messages"@,
        "model"@ != "max_completion_tokens"@,
        "model"@ != "max_tokens"@,
        "model"@ != "temperature"@,
        "model"@ != "top_p"@,
        "model"@ != "stream"@,
        "model"@ != "stop"@,
        "model"@ != "stream_options"@,
        "model"@ != "reasoning_effort"@,
        "model"@ != "tools"@,
        "model"@ != "tool_choice"@,
        "model"@ != "parallel_tool_calls"@,
        "model"@ != "user"@,
        "model"@ != "input"@,
        "model"@ != "instructions"@,
        "model"@ != "max_output_tokens"@,
        "model"@ != "reasoning"@,
        "messages"@ != "max_completion_tokens"@,
        "messages"@ != "max_tokens"@,
        "messages"@ != "temperature"@,
        "messages"@ != "top_p"@,
        "messages"@ != "stream"@,
        "messages"@ != "stop"@,
        "messages"@ != "stream_options"@,
        "messages"@ != "reasoning_effort"@,
        "messages"@ != "tools"@,
        "messages"@ != "tool_choice"@,
        "messages"@ != "parallel_tool_calls"@,
        "messages"@ != "user"@,
        "messages"@ != "input"@,
        "messages"@ != "instructions"@,
        "messages"@ != "max_output_tokens"@,
        "messages"@ != "reasoning"@,
        "max_completion_tokens"@ != "max_tokens"@,
        "max_completion_tokens"@ != "temperature"@,
        "max_completion_tokens"@ != "top_p"@,
        "max_completion_tokens"@ != "stream"@,
        "max_completion_tokens"@ != "stop"@,
        "max_completion_tokens"@ != "stream_options"@,
        "max_completion_tokens"@ != "reasoning_effort"@,
        "max_completion_tokens"@ != "tools"@,
        "max_completion_tokens"@ != "tool_choice"@,
        "max_completion_tokens"@ != "parallel_tool_calls"@,
        "max_completion_tokens"@ != "user"@,
        "max_completion_tokens"@ != "input"@,
        "max_completion_tokens"@ != "instructions"@,
        "max_completion_tokens"@ != "max_output_tokens"@,
        "max_completion_tokens"@ != "reasoning"@,
        "max_tokens"@ != "temperature"@,
        "max_tokens"@ != "top_p"@,
        "max_tokens"@ != "stream"@,
        "max_tokens"@ != "stop"@,
        "max_tokens"@ != "stream_options"@,
        "max_tokens"@ != "reasoning_effort"@,
        "max_tokens"@ != "tools"@,
        "max_tokens"@ != "tool_choice"@,
        "max_tokens"@ != "parallel_tool_calls"@,
        "max_tokens"@ != "user"@,
        "max_tokens"@ != "input"@,
        "max_tokens"@ != "instructions"@,
        "max_tokens"@ != "max_output_tokens"@,
        "max_tokens"@ != "reasoning"@,
        "temperature"@ != "top_p"@,
        "temperature"@ != "stream"@,
        "temperature"@ != "stop"@,
        "temperature"@ != "stream_options"@,
        "temperature"@ != "reasoning_effort"@,
        "temperature"@ != "tools"@,
        "temperature"@ != "tool_choice"@,
        "temperature"@ != "parallel_tool_calls"@,
        "temperature"@ != "user"@,
        "temperature"@ != "input"@,
        "temperature"@ != "instructions"@,
        "temperature"@ != "max_output_tokens"@,
        "temperature"@ != "reasoning"@,
        "top_p"@ != "stream"@,
        "top_p"@ != "stop"@,
        "top_p"@ != "stream_options"@,
        "top_p"@ != "reasoning_effort"@,
        "top_p"@ != "tools"@,
        "top_p"@ != "tool_choice"@,
        "top_p"@ != "parallel_tool_calls"@,
        "top_p"@ != "user"@,
        "top_p"@ != "input"@,
        "top_p"@ != "instructions"@,
        "top_p"@ != "max_output_tokens"@,
        "top_p"@ != "reasoning"@,
        "stream"@ != "stop"@,
        "stream"@ != "stream_options"@,
        "stream"@ != "reasoning_effort"@,
        "stream"@ != "tools"@,
        "stream"@ != "tool_choice"@,
        "stream"@ != "parallel_tool_calls"@,
        "stream"@ != "user"@,
        "stream"@ != "input"@,
        "stream"@ != "instructions"@,
        "stream"@ != "max_output_tokens"@,
        "stream"@ != "reasoning"@,
        "stop"@ != "stream_options"@,
        "stop"@ != "reasoning_effort"@,
        "stop"@ != "tools"@,
        "stop"@ != "tool_choice"@,
        "stop"@ != "parallel_tool_calls"@,
        "stop"@ != "user"@,
        "stop"@ != "input"@,
        "stop"@ != "instructions"@,
        "stop"@ != "max_output_tokens"@,
        "stop"@ != "reasoning"@,
        "stream_options"@ != "reasoning_effort"@,
        "stream_options"@ != "tools"@,
        "stream_options"@ != "tool_choice"@,
        "stream_options"@ != "parallel_tool_calls"@,
        "stream_options"@ != "user"@,
        "stream_options"@ != "input"@,
        "stream_options"@ != "instructions"@,
        "stream_options"@ != "max_output_tokens"@,
        "stream_options"@ != "reasoning"@,
        "reasoning_effort"@ != "tools"@,
        "reasoning_effort"@ != "tool_choice"@,
        "reasoning_effort"@ != "parallel_tool_calls"@,
        "reasoning_effort"@ != "user"@,
        "reasoning_effort"@ != "input"@,
        "reasoning_effort"@ != "instructions"@,
        "reasoning_effort"@ != "max_output_tokens"@,
        "reasoning_effort"@ != "reasoning"@,
        "tools"@ != "tool_choice"@,
        "tools"@ != "parallel_tool_calls"@,
        "tools"@ != "user"@,
        "tools"@ != "input"@,
        "tools"@ != "instructions"@,
        "tools"@ != "max_output_tokens"@,
        "tools"@ != "reasoning"@,
        "tool_choice"@ != "parallel_tool_calls"@,
        "tool_choice"@ != "user"@,
        "tool_choice"@ != "input"@,
        "tool_choice"@ != "instructions"@,
        "tool_choice"@ != "max_output_tokens"@,
        "tool_choice"@ != "reasoning"@,
        "parallel_tool_calls"@ != "user"@,
        "parallel_tool_calls"@ != "input"@,
        "parallel_tool_calls"@ != "instructions"@,
        "parallel_tool_calls"@ != "max_output_tokens"@,
        "parallel_tool_calls"@ != "reasoning"@,
        "user"@ != "input"@,
        "user"@ != "instructions"@,
        "user"@ != "max_output_tokens"@,
        "user"@ != "reasoning"@,
        "input"@ != "instructions"@,
        "input"@ != "max_output_tokens"@,
        "input"@ != "reasoning"@,
        "instructions"@ != "max_output_tokens"@,
        "instructions"@ != "reasoning"@,
        "max_output_tokens"@ != "reasoning"@,
{
    reveal_strlit("model");
    reveal_strlit("messages");
    reveal_strlit("max_completion_tokens");
    reveal_strlit("max_tokens");
    reveal_strlit("temperature");
    reveal_strlit("top_p");
    reveal_strlit("stream");
    reveal_strlit("stop");
    reveal_strlit("stream_options");
    reveal_strlit("reasoning_effort");
    reveal_strlit("tools");
    reveal_strlit("tool_choice");
    reveal_strlit("parallel_tool_calls");
    reveal_strlit("user");
    reveal_strlit("input");
    reveal_strlit("instructions");
    reveal_strlit("max_output_tokens");
    reveal_strlit("reasoning");
    assert("model"@.len() == 5);
    assert("messages"@.len() == 8);
    assert("max_completion_tokens"@.len() == 21);
    assert("max_tokens"@.len() == 10);
    assert("temperature"@.len() == 11);
    assert("model"@[0] == 'm');
    assert("top_p"@[0] == 't');
    assert("stream"@.len() == 6);
    assert("stop"@.len() == 4);
    assert("stream_options"@.len() == 14);
    assert("reasoning_effort"@.len() == 16);
    assert("tools"@[0] == 't');
    assert("tool_choice"@.len() == 11);
    assert("parallel_tool_calls"@.len() == 19);
    assert("user"@.len() == 4);
    assert("input"@[0] == 'i');
    assert("instructions"@.len() == 12);
    assert("max_output_tokens"@.len() == 17);
    assert("reasoning"@.len() == 9);
    assert("top_p"@.len() == 5);
    assert("tools"@.len() == 5);
    assert("input"@.len() == 5);
    assert("temperature"@[1] == 'e');
    assert("tool_choice"@[1] == 'o');
    assert("top_p"@[2] == 'p');
    assert("tools"@[2] == 'o');
    assert("stop"@[0] == 's');
    assert("user"@[0] == 'u');
}

/// The fields of messages and tools bear names of their own.
proof fn lemma_message_fields()
    ensures
        "role"@ != "content"@,
        "role"@ != "tool_calls"@,
        "role"@ != "reasoning_content"@,
        "role"@ != "tool_call_id"@,
        "content"@ != "tool_calls"@,
        "content"@ != "reasoning_content"@,
        "content"@ != "tool_call_id"@,
        "tool_calls"@ != "reasoning_content"@,
        "tool_calls"@ != "tool_call_id"@,
        "reasoning_content"@ != "tool_call_id"@,
        "id"@ != "type"@,
        "id"@ != "function"@,
        "type"@ != "function"@,
        "name"@ != "arguments"@,
        "name"@ != "parameters"@,
        "name"@ != "description"@,
        "arguments"@ != "parameters"@,
        "arguments"@ != "description"@,
        "parameters"@ != "description"@,
        "type"@ != "text"@,
        "type"@ != "image_url"@,
        "text"@ != "image_url"@,
{
    reveal_strlit("role");
    reveal_strlit("content");
    reveal_strlit("tool_calls");
    reveal_strlit("reasoning_content");
    reveal_strlit("tool_call_id");
    reveal_strlit("id");
    reveal_strlit("type");
    reveal_strlit("function");
    reveal_strlit("name");
    reveal_strlit("arguments");
    reveal_strlit("parameters");
    reveal_strlit("description");
    reveal_strlit("text");
    reveal_strlit("image_url");
    assert("role"@.len() == 4);
    assert("content"@.len() == 7);
    assert("tool_calls"@.len() == 10);
    assert("reasoning_content"@.len() == 17);
    assert("tool_call_id"@.len() == 12);
    assert("id"@.len() == 2);
    assert("type"@.len() == 4);
    assert("function"@.len() == 8);
    assert("name"@.len() == 4);
    assert("arguments"@.len() == 9);
    assert("parameters"@.len() == 10);
    assert("description"@.len() == 11);
    assert("type"@[1] == 'y');
    assert("text"@[1] == 'e');
    assert("image_url"@.len() == 9);
    assert("text"@.len() == 4);
}

/// A request is converted if and only if it has the name of a model and a list of
/// messages; or else what it lacks is told, the model first.
pub proof fn law_chat_refusals(body: JsonModel)
    ensures
        ({
            let made = chat::chat_request(body);
            let model = body.text_field("model"@);
            let messages = body.array_field("messages"@);
            &&& made is Ok <==> model is Some && messages is Some
            &&& model is None ==> made == Err::<JsonModel, ErrorModel>(
                ErrorModel::InvalidRequest("缺少字符串字段 model"@),
            )
            &&& model is Some && messages is None ==> made == Err::<JsonModel, ErrorModel>(
                ErrorModel::InvalidRequest("缺少数组字段 messages"@),
            )
        }),
{
}

/// Each option of a request of the Chat protocol is that of the request it is made of,
/// under the name that the protocol gives it; it is there if and only if that is; and
/// nothing else is there.
pub proof fn law_chat_options(body: JsonModel)
    requires
        chat::chat_request(body) is Ok,
    ensures
        ({
            let made = chat::chat_request(body)->Ok_0;
            let model = blocks::or_nothing(body.text_field("model"@));
            &&& made.field("model"@) == body.field("model"@)
            &&& made.field("temperature"@) == body.field("temperature"@)
            &&& made.field("top_p"@) == body.field("top_p"@)
            &&& made.field("stream"@) == body.field("stream"@)
            &&& made.field("stop"@) == body.field("stop_sequences"@)
            &&& made.field("user"@) == body.nested("metadata"@, "user_id"@)
            &&& if options::o_series(model) {
                &&& made.field("max_completion_tokens"@) == body.field("max_tokens"@)
                &&& made.field("max_tokens"@) is None
            } else {
                &&& made.field("max_tokens"@) == body.field("max_tokens"@)
                &&& made.field("max_completion_tokens"@) is None
            }
            &&& if body.field("stream"@) == Some(JsonModel::Bool(true)) {
                &&& made.nested("stream_options"@, "include_usage"@) == Some(JsonModel::Bool(true))
                &&& forall|k: Seq<char>| #[trigger]
                    made.nested("stream_options"@, k) is Some ==> k == "include_usage"@
            } else {
                made.field("stream_options"@) is None
            }
            &&& if options::reasons(model) && options::effort(body) is Some {
                made.text_field("reasoning_effort"@) == options::effort(body)
            } else {
                made.field("reasoning_effort"@) is None
            }
            &&& match body.field("tool_choice"@) {
                Some(choice) => made.field("tool_choice"@) == Some(options::chat_choice(choice)),
                None => made.field("tool_choice"@) is None,
            }
            &&& blocks::is_parallel(made.field("parallel_tool_calls"@), body)
            &&& made.field("messages"@) matches Some(list) && list is Array
            &&& forall|k: Seq<char>| #[trigger]
                made.field(k) is Some ==> k == "model"@ || k == "messages"@ || k == "temperature"@
                    || k == "top_p"@ || k == "stream"@ || k == "stop"@ || k == "user"@ || k
                    == "max_completion_tokens"@ || k == "max_tokens"@ || k == "stream_options"@
                    || k == "reasoning_effort"@ || k == "tool_choice"@ || k
                    == "parallel_tool_calls"@ || k == "tools"@
            &&& made.field("input"@) is None
            &&& made.field("instructions"@) is None
            &&& made.field("max_output_tokens"@) is None
            &&& made.field("reasoning"@) is None
        }),
{
    lemma_fields();
    reveal_strlit("");
    assert(""@ =~= Seq::<char>::empty());
    assert(chat::limit_key(body) == "max_tokens"@ || chat::limit_key(body)
        == "max_completion_tokens"@);
}

/// Whether a tool of the Chat protocol is that tool: a function with its name, its
/// description, if it has one, and its parameters.
pub open spec fn is_tool(made: JsonModel, tool: JsonModel) -> bool {
    &&& made.text_field("type"@) == Some("function"@)
    &&& made.nested("function"@, "name"@) == tool.field("name"@)
    &&& made.nested("function"@, "description"@) == tool.field("description"@)
    &&& blocks::are_parameters(made.nested("function"@, "parameters"@), tool)
    &&& forall|k: Seq<char>| #[trigger]
        made.field(k) is Some ==> k == "type"@ || k == "function"@
    &&& forall|k: Seq<char>| #[trigger]
        made.nested("function"@, k) is Some ==> k == "name"@ || k == "description"@ || k
            == "parameters"@
}

/// The tools of a request of the Chat protocol are those of the request that have a
/// name, in their order; without any there is no list of them.
pub proof fn law_chat_tools(body: JsonModel)
    requires
        chat::chat_request(body) is Ok,
    ensures
        ({
            let made = chat::chat_request(body)->Ok_0;
            let tools = match body.array_field("tools"@) {
                Some(list) => blocks::named(list),
                None => Seq::empty(),
            };
            if tools.len() == 0 {
                made.field("tools"@) is None
            } else {
                made.array_field("tools"@) matches Some(list) && list.len() == tools.len() && (
                forall|i: int| 0 <= i < tools.len() ==> is_tool(#[trigger] list[i], tools[i]))
            }
        }),
{
    lemma_fields();
    assert(chat::limit_key(body) == "max_tokens"@ || chat::limit_key(body)
        == "max_completion_tokens"@);
    if let Some(list) = body.array_field("tools"@) {
        lemma_tools(list);
    }
}

proof fn lemma_tools(tools: Seq<JsonModel>)
    ensures
        chat::chat_tools(tools).len() == blocks::named(tools).len(),
        forall|i: int|
            0 <= i < blocks::named(tools).len() ==> is_tool(
                #[trigger] chat::chat_tools(tools)[i],
                blocks::named(tools)[i],
            ),
    decreases tools.len(),
{
    if tools.len() == 0 {
        reveal(Seq::filter);
    } else {
        lemma_message_fields();
        let rest = tools.drop_last();
        let last = tools.last();
        lemma_tools(rest);
        blocks::lemma_filter_push(rest, last, |t: JsonModel| t.text_field("name"@) is Some);
        assert(rest.push(last) =~= tools);
        if last.text_field("name"@) is Some {
            assert(is_tool(chat::chat_tool(last), last));
        }
        assert forall|i: int| 0 <= i < blocks::named(tools).len() implies is_tool(
            #[trigger] chat::chat_tools(tools)[i],
            blocks::named(tools)[i],
        ) by {
            if i < blocks::named(rest).len() {
                assert(chat::chat_tools(tools)[i] == chat::chat_tools(rest)[i]);
            }
        }
    }
}

/// Whether a call of the Chat protocol is that of a block: with its id and name, and its
/// input as JSON text.
pub open spec fn is_call(made: JsonModel, block: JsonModel) -> bool {
    &&& made.text_field("id"@) == Some(blocks::or_nothing(block.text_field("id"@)))
    &&& made.text_field("type"@) == Some("function"@)
    &&& made.nested_text("function"@, "name"@) == Some(
        blocks::or_nothing(block.text_field("name"@)),
    )
    &&& made.nested_text("function"@, "arguments"@) == Some(
        codec::json_text(blocks::input(block)),
    )
    &&& forall|k: Seq<char>| #[trigger]
        made.field(k) is Some ==> k == "id"@ || k == "type"@ || k == "function"@
    &&& forall|k: Seq<char>| #[trigger]
        made.nested("function"@, k) is Some ==> k == "name"@ || k == "arguments"@
}

/// Whether a message of the Chat protocol is the result of a tool in a block: for the
/// call that the block names, with the text of the result.
pub open spec fn is_result(made: JsonModel, block: JsonModel) -> bool {
    &&& made.text_field("role"@) == Some("tool"@)
    &&& made.text_field("tool_call_id"@) == Some(
        blocks::or_nothing(block.text_field("tool_use_id"@)),
    )
    &&& made.text_field("content"@) == Some(content::result_text(block.field("content"@)))
    &&& forall|k: Seq<char>| #[trigger]
        made.field(k) is Some ==> k == "role"@ || k == "tool_call_id"@ || k == "content"@
}

/// Whether a part of a content is what a block says or shows.
pub open spec fn is_part(made: JsonModel, block: JsonModel) -> bool {
    if blocks::says(block) {
        &&& made.text_field("type"@) == Some("text"@)
        &&& made.text_field("text"@) == block.text_field("text"@)
        &&& forall|k: Seq<char>| #[trigger]
            made.field(k) is Some ==> k == "type"@ || k == "text"@
    } else {
        &&& made.text_field("type"@) == Some("image_url"@)
        &&& made.nested_text("image_url"@, "url"@) == content::image_url(block)
        &&& forall|k: Seq<char>| #[trigger]
            made.field(k) is Some ==> k == "type"@ || k == "image_url"@
        &&& forall|k: Seq<char>| #[trigger]
            made.nested("image_url"@, k) is Some ==> k == "url"@
    }
}

/// What is gathered of blocks goes by what the blocks are.
proof fn lemma_gathered(list: Seq<JsonModel>)
    ensures
        ({
            let parts = chat::parts_of(list);
            let said = blocks::saying(list);
            let both = blocks::saying_or_showing(list);
            let called = blocks::calling(list);
            let answered = blocks::answering(list);
            let thought = blocks::thinking(list);
            &&& parts.texts.len() == said.len()
            &&& forall|i: int|
                0 <= i < said.len() ==> Some(#[trigger] parts.texts[i]) == said[i].text_field(
                    "text"@,
                )
            &&& parts.content.len() == both.len()
            &&& forall|i: int|
                0 <= i < both.len() ==> is_part(#[trigger] parts.content[i], both[i])
            &&& parts.has_image == (blocks::showing(list).len() > 0)
            &&& both.len() == said.len() + blocks::showing(list).len()
            &&& parts.calls.len() == called.len()
            &&& forall|i: int|
                0 <= i < called.len() ==> is_call(#[trigger] parts.calls[i], called[i])
            &&& parts.results.len() == answered.len()
            &&& forall|i: int|
                0 <= i < answered.len() ==> is_result(#[trigger] parts.results[i], answered[i])
            &&& parts.thoughts.len() == thought.len()
            &&& forall|i: int|
                0 <= i < thought.len() ==> Some(#[trigger] parts.thoughts[i])
                    == thought[i].text_field("thinking"@)
        }),
    decreases list.len(),
{
    if list.len() == 0 {
        reveal(Seq::filter);
    } else {
        let rest = list.drop_last();
        let last = list.last();
        lemma_gathered(rest);
        assert(rest.push(last) =~= list);
        blocks::lemma_filter_push(rest, last, |b: JsonModel| blocks::says(b));
        blocks::lemma_filter_push(rest, last, |b: JsonModel| blocks::shows(b));
        blocks::lemma_filter_push(
            rest,
            last,
            |b: JsonModel| blocks::says(b) || blocks::shows(b),
        );
        blocks::lemma_filter_push(rest, last, |b: JsonModel| blocks::calls(b));
        blocks::lemma_filter_push(rest, last, |b: JsonModel| blocks::answers(b));
        blocks::lemma_filter_push(rest, last, |b: JsonModel| blocks::thinks(b));
        blocks::lemma_kinds();
        lemma_message_fields();
        reveal_strlit("");
        assert(""@ =~= Seq::<char>::empty());
        lemma_no_kind();
        let old = chat::parts_of(rest);
        let new = chat::parts_of(list);
        if blocks::calls(last) {
            assert(is_call(chat::tool_call(last), last));
        }
        if blocks::answers(last) {
            assert(is_result(chat::tool_message(last), last));
        }
        if blocks::says(last) {
            assert(is_part(chat::text_part(last.text_field("text"@)->0), last));
        }
        if blocks::shows(last) {
            assert(is_part(chat::image_part(content::image_url(last)->0), last));
        }
        assert forall|i: int| 0 <= i < blocks::saying(list).len() implies Some(
            #[trigger] new.texts[i],
        ) == blocks::saying(list)[i].text_field("text"@) by {
            if i < blocks::saying(rest).len() {
                assert(new.texts[i] == old.texts[i]);
            }
        }
        assert forall|i: int| 0 <= i < blocks::saying_or_showing(list).len() implies is_part(
            #[trigger] new.content[i],
            blocks::saying_or_showing(list)[i],
        ) by {
            if i < blocks::saying_or_showing(rest).len() {
                assert(new.content[i] == old.content[i]);
            }
        }
        assert forall|i: int| 0 <= i < blocks::calling(list).len() implies is_call(
            #[trigger] new.calls[i],
            blocks::calling(list)[i],
        ) by {
            if i < blocks::calling(rest).len() {
                assert(new.calls[i] == old.calls[i]);
            }
        }
        assert forall|i: int| 0 <= i < blocks::answering(list).len() implies is_result(
            #[trigger] new.results[i],
            blocks::answering(list)[i],
        ) by {
            if i < blocks::answering(rest).len() {
                assert(new.results[i] == old.results[i]);
            }
        }
        assert forall|i: int| 0 <= i < blocks::thinking(list).len() implies Some(
            #[trigger] new.thoughts[i],
        ) == blocks::thinking(list)[i].text_field("thinking"@) by {
            if i < blocks::thinking(rest).len() {
                assert(new.thoughts[i] == old.thoughts[i]);
            }
        }
    }
}

/// Nothing is no kind of block.
proof fn lemma_no_kind()
    ensures
        ""@ != "text"@,
        ""@ != "image"@,
        ""@ != "tool_use"@,
        ""@ != "tool_result"@,
        ""@ != "thinking"@,
{
    reveal_strlit("");
    reveal_strlit("text");
    reveal_strlit("image");
    reveal_strlit("tool_use");
    reveal_strlit("tool_result");
    reveal_strlit("thinking");
    assert(""@.len() == 0);
    assert("text"@.len() == 4 && "image"@.len() == 5 && "thinking"@.len() == 8);
    assert("tool_use"@.len() == 8 && "tool_result"@.len() == 11);
}

/// The texts of blocks.
pub open spec fn texts_of(list: Seq<JsonModel>, key: Seq<char>) -> Seq<Seq<char>> {
    Seq::new(list.len(), |i: int| blocks::or_nothing(list[i].text_field(key)))
}

/// A message with a string says that string in its role; one without a string or a list
/// says nothing in its role.
pub proof fn law_plain_chat_message(message: JsonModel)
    ensures
        ({
            let made = chat::chat_message(message);
            &&& !(message.field("content"@) matches Some(JsonModel::Array(_))) ==> {
                &&& made.len() == 1
                &&& made[0].text_field("role"@) == Some(blocks::role(message))
                &&& forall|k: Seq<char>| #[trigger]
                    made[0].field(k) is Some ==> k == "role"@ || k == "content"@
            }
            &&& message.field("content"@) matches Some(JsonModel::Text(said)) ==> made[0].field(
                "content"@,
            ) == Some(JsonModel::Text(said))
            &&& !(message.field("content"@) matches Some(JsonModel::Array(_))) && !(message.field(
                "content"@,
            ) matches Some(JsonModel::Text(_))) ==> made[0].field("content"@) == Some(
                JsonModel::Null,
            )
        }),
{
    lemma_message_fields();
}

/// A message with a list of blocks: first the result of each tool, in their order, each
/// a message of its own. Behind them stands a message in the role of the message, where
/// there is anything to say or the assistant speaks. It says all texts, one behind the
/// other, or where there is an image too, a list of the texts and images, in their order;
/// it makes all calls, in their order; and it holds all thinking, line by line. Each of
/// these whether or not the others are there.
pub proof fn law_chat_message_of_blocks(message: JsonModel, list: Seq<JsonModel>)
    requires
        message.field("content"@) == Some(JsonModel::Array(list)),
    ensures
        ({
            let made = chat::chat_message(message);
            let role = blocks::role(message);
            let answered = blocks::answering(list);
            let n = answered.len() as int;
            let said = blocks::saying(list);
            let shown = blocks::showing(list);
            let both = blocks::saying_or_showing(list);
            let called = blocks::calling(list);
            let thought = blocks::thinking(list);
            let speaks = said.len() > 0 || shown.len() > 0 || called.len() > 0 || role
                == "assistant"@;
            &&& made.len() == n + if speaks {
                1int
            } else {
                0
            }
            &&& forall|i: int| 0 <= i < n ==> is_result(#[trigger] made[i], answered[i])
            &&& speaks ==> {
                let last = made[n];
                &&& last.text_field("role"@) == Some(role)
                &&& said.len() == 0 && shown.len() == 0 ==> last.field("content"@) == Some(
                    JsonModel::Null,
                )
                &&& said.len() > 0 && shown.len() == 0 ==> last.text_field("content"@) == Some(
                    text::joined(texts_of(said, "text"@), Seq::empty()),
                )
                &&& shown.len() > 0 ==> (last.array_field("content"@) matches Some(parts)
                    && parts.len() == both.len() && (forall|i: int|
                    0 <= i < both.len() ==> is_part(#[trigger] parts[i], both[i])))
                &&& called.len() == 0 ==> last.field("tool_calls"@) is None
                &&& called.len() > 0 ==> (last.array_field("tool_calls"@) matches Some(made_calls)
                    && made_calls.len() == called.len() && (forall|i: int|
                    0 <= i < called.len() ==> is_call(#[trigger] made_calls[i], called[i])))
                &&& thought.len() == 0 ==> last.field("reasoning_content"@) is None
                &&& thought.len() > 0 ==> last.text_field("reasoning_content"@) == Some(
                    text::joined(texts_of(thought, "thinking"@), "\n"@),
                )
                &&& forall|k: Seq<char>| #[trigger]
                    last.field(k) is Some ==> k == "role"@ || k == "content"@ || k
                        == "tool_calls"@ || k == "reasoning_content"@
            }
        }),
{
    lemma_message_fields();
    lemma_gathered(list);
    let parts = chat::parts_of(list);
    let said = blocks::saying(list);
    let thought = blocks::thinking(list);
    assert(parts.texts =~= texts_of(said, "text"@));
    assert(parts.thoughts =~= texts_of(thought, "thinking"@));
    reveal_strlit("");
    assert(""@ =~= Seq::<char>::empty());
    let made = chat::chat_message(message);
    assert forall|i: int| 0 <= i < parts.results.len() implies #[trigger] made[i]
        == parts.results[i] by {}
}

/// The messages of a request are converted one by one, in their order, behind a message
/// of the system with the text of the system, where there is any.
pub proof fn law_chat_messages(body: JsonModel, a: Seq<JsonModel>, b: Seq<JsonModel>)
    requires
        chat::chat_request(body) is Ok,
        body.array_field("messages"@) == Some(a + b),
    ensures
        chat::chat_messages(a + b) == chat::chat_messages(a) + chat::chat_messages(b),
        b.len() == 1 ==> chat::chat_messages(b) == chat::chat_message(b[0]),
        ({
            let said = match body.field("system"@) {
                Some(value) => content::content_text(value),
                None => Seq::empty(),
            };
            let made = chat::chat_request(body)->Ok_0.array_field("messages"@);
            if said.len() == 0 {
                made == Some(chat::chat_messages(a + b))
            } else {
                made matches Some(list) && list.len() > 0 && list.skip(1) == chat::chat_messages(
                    a + b,
                ) && list[0].text_field("role"@) == Some("system"@) && list[0].text_field(
                    "content"@,
                ) == Some(said) && (forall|k: Seq<char>| #[trigger]
                    list[0].field(k) is Some ==> k == "role"@ || k == "content"@)
            }
        }),
{
    lemma_messages_field(body);
    lemma_message_fields();
    lemma_in_two(a, b);
    let all = chat::all_chat_messages(body);
    let rest = chat::chat_messages(a + b);
    assert(system::messages_of(body) == a + b);
    if b.len() == 1 {
        assert(b.drop_last() =~= Seq::<JsonModel>::empty());
        assert(chat::chat_messages(Seq::empty()) =~= Seq::<JsonModel>::empty());
        assert(chat::chat_messages(b) =~= chat::chat_message(b[0]));
    }
    let said = request::system_text(body);
    if said.len() > 0 {
        let first = JsonModel::Object(chat::plain_message("system"@, JsonModel::Text(said)));
        assert(all[0] == first);
        assert(first.text_field("role"@) == Some("system"@));
        assert(first.text_field("content"@) == Some(said));
        assert(all.skip(1) =~= rest);
    } else {
        assert(all =~= rest);
    }
}

/// Where the messages of a request stand.
proof fn lemma_messages_field(body: JsonModel)
    requires
        chat::chat_request(body) is Ok,
    ensures
        chat::chat_request(body)->Ok_0.array_field("messages"@) == Some(
            chat::all_chat_messages(body),
        ),
{
    lemma_fields();
    assert(chat::limit_key(body) == "max_tokens"@ || chat::limit_key(body)
        == "max_completion_tokens"@);
}

proof fn lemma_in_two(a: Seq<JsonModel>, b: Seq<JsonModel>)
    ensures
        chat::chat_messages(a + b) == chat::chat_messages(a) + chat::chat_messages(b),
    decreases b.len(),
{
    if b.len() == 0 {
        assert(a + b =~= a);
        assert(chat::chat_messages(a) + chat::chat_messages(b) =~= chat::chat_messages(a));
    } else {
        lemma_in_two(a, b.drop_last());
        assert((a + b).drop_last() =~= a + b.drop_last());
        assert((a + b).last() == b.last());
        assert(chat::chat_messages(a + b) =~= chat::chat_messages(a) + chat::chat_messages(b));
    }
}

}
