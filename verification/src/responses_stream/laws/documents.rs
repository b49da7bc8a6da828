//! What a document of the Responses protocol brings, field by field.
use vstd::prelude::*;

use crate::answer::AnswerStep;
use crate::event::EventModel;
use crate::json::codec;
use crate::json::JsonModel;
use crate::responses_stream::laws;
use crate::responses_stream::laws::{calls, stop};
use crate::responses_stream::{
    self, ResponsesModel, ResponsesStep, ResponsesToolModel, ResponsesToolStep,
};
use crate::text;

verus! {

/// The kinds of events are different words.
proof fn lemma_kinds()
    ensures
        "response.output_item.added"@ != "response.content_part.added"@,
        "response.output_item.added"@ != "response.output_text.delta"@,
        "response.output_item.added"@ != "response.output_text.done"@,
        "response.output_item.added"@ != "response.content_part.done"@,
        "response.output_item.added"@ != "response.reasoning_summary_text.delta"@,
        "response.output_item.added"@ != "response.reasoning_text.delta"@,
        "response.output_item.added"@ != "response.reasoning_summary_text.done"@,
        "response.output_item.added"@ != "response.reasoning_text.done"@,
        "response.output_item.added"@ != "response.function_call_arguments.delta"@,
        "response.output_item.added"@ != "response.output_item.done"@,
        "response.output_item.added"@ != "response.completed"@,
        "response.output_item.added"@ != "response.incomplete"@,
        "response.content_part.added"@ != "response.output_text.delta"@,
        "response.content_part.added"@ != "response.output_text.done"@,
        "response.content_part.added"@ != "response.content_part.done"@,
        "response.content_part.added"@ != "response.reasoning_summary_text.delta"@,
        "response.content_part.added"@ != "response.reasoning_text.delta"@,
        "response.content_part.added"@ != "response.reasoning_summary_text.done"@,
        "response.content_part.added"@ != "response.reasoning_text.done"@,
        "response.content_part.added"@ != "response.function_call_arguments.delta"@,
        "response.content_part.added"@ != "response.output_item.done"@,
        "response.content_part.added"@ != "response.completed"@,
        "response.content_part.added"@ != "response.incomplete"@,
        "response.output_text.delta"@ != "response.output_text.done"@,
        "response.output_text.delta"@ != "response.content_part.done"@,
        "response.output_text.delta"@ != "response.reasoning_summary_text.delta"@,
        "response.output_text.delta"@ != "response.reasoning_text.delta"@,
        "response.output_text.delta"@ != "response.reasoning_summary_text.done"@,
        "response.output_text.delta"@ != "response.reasoning_text.done"@,
        "response.output_text.delta"@ != "response.function_call_arguments.delta"@,
        "response.output_text.delta"@ != "response.output_item.done"@,
        "response.output_text.delta"@ != "response.completed"@,
        "response.output_text.delta"@ != "response.incomplete"@,
        "response.output_text.done"@ != "response.content_part.done"@,
        "response.output_text.done"@ != "response.reasoning_summary_text.delta"@,
        "response.output_text.done"@ != "response.reasoning_text.delta"@,
        "response.output_text.done"@ != "response.reasoning_summary_text.done"@,
        "response.output_text.done"@ != "response.reasoning_text.done"@,
        "response.output_text.done"@ != "response.function_call_arguments.delta"@,
        "response.output_text.done"@ != "response.output_item.done"@,
        "response.output_text.done"@ != "response.completed"@,
        "response.output_text.done"@ != "response.incomplete"@,
        "response.content_part.done"@ != "response.reasoning_summary_text.delta"@,
        "response.content_part.done"@ != "response.reasoning_text.delta"@,
        "response.content_part.done"@ != "response.reasoning_summary_text.done"@,
        "response.content_part.done"@ != "response.reasoning_text.done"@,
        "response.content_part.done"@ != "response.function_call_arguments.delta"@,
        "response.content_part.done"@ != "response.output_item.done"@,
        "response.content_part.done"@ != "response.completed"@,
        "response.content_part.done"@ != "response.incomplete"@,
        "response.reasoning_summary_text.delta"@ != "response.reasoning_text.delta"@,
        "response.reasoning_summary_text.delta"@ != "response.reasoning_summary_text.done"@,
        "response.reasoning_summary_text.delta"@ != "response.reasoning_text.done"@,
        "response.reasoning_summary_text.delta"@ != "response.function_call_arguments.delta"@,
        "response.reasoning_summary_text.delta"@ != "response.output_item.done"@,
        "response.reasoning_summary_text.delta"@ != "response.completed"@,
        "response.reasoning_summary_text.delta"@ != "response.incomplete"@,
        "response.reasoning_text.delta"@ != "response.reasoning_summary_text.done"@,
        "response.reasoning_text.delta"@ != "response.reasoning_text.done"@,
        "response.reasoning_text.delta"@ != "response.function_call_arguments.delta"@,
        "response.reasoning_text.delta"@ != "response.output_item.done"@,
        "response.reasoning_text.delta"@ != "response.completed"@,
        "response.reasoning_text.delta"@ != "response.incomplete"@,
        "response.reasoning_summary_text.done"@ != "response.reasoning_text.done"@,
        "response.reasoning_summary_text.done"@ != "response.function_call_arguments.delta"@,
        "response.reasoning_summary_text.done"@ != "response.output_item.done"@,
        "response.reasoning_summary_text.done"@ != "response.completed"@,
        "response.reasoning_summary_text.done"@ != "response.incomplete"@,
        "response.reasoning_text.done"@ != "response.function_call_arguments.delta"@,
        "response.reasoning_text.done"@ != "response.output_item.done"@,
        "response.reasoning_text.done"@ != "response.completed"@,
        "response.reasoning_text.done"@ != "response.incomplete"@,
        "response.function_call_arguments.delta"@ != "response.output_item.done"@,
        "response.function_call_arguments.delta"@ != "response.completed"@,
        "response.function_call_arguments.delta"@ != "response.incomplete"@,
        "response.output_item.done"@ != "response.completed"@,
        "response.output_item.done"@ != "response.incomplete"@,
        "response.completed"@ != "response.incomplete"@,
{
    reveal_strlit("response.output_item.added");
    reveal_strlit("response.content_part.added");
    reveal_strlit("response.output_text.delta");
    reveal_strlit("response.output_text.done");
    reveal_strlit("response.content_part.done");
    reveal_strlit("response.reasoning_summary_text.delta");
    reveal_strlit("response.reasoning_text.delta");
    reveal_strlit("response.reasoning_summary_text.done");
    reveal_strlit("response.reasoning_text.done");
    reveal_strlit("response.function_call_arguments.delta");
    reveal_strlit("response.output_item.done");
    reveal_strlit("response.completed");
    reveal_strlit("response.incomplete");
    assert("response.output_item.added"@.len() == 26);
    assert("response.content_part.added"@.len() == 27);
    assert("response.output_item.added"@[16] == 'i');
    assert("response.output_text.delta"@[16] == 't');
    assert("response.output_text.done"@.len() == 25);
    assert("response.output_item.added"@[9] == 'o');
    assert("response.content_part.done"@[9] == 'c');
    assert("response.reasoning_summary_text.delta"@.len() == 37);
    assert("response.reasoning_text.delta"@.len() == 29);
    assert("response.reasoning_summary_text.done"@.len() == 36);
    assert("response.reasoning_text.done"@.len() == 28);
    assert("response.function_call_arguments.delta"@.len() == 38);
    assert("response.output_item.done"@.len() == 25);
    assert("response.completed"@.len() == 18);
    assert("response.incomplete"@.len() == 19);
    assert("response.output_text.delta"@.len() == 26);
    assert("response.content_part.done"@.len() == 26);
    assert("response.output_text.delta"@[9] == 'o');
    assert("response.output_text.done"@[16] == 't');
    assert("response.output_item.done"@[16] == 'i');
}

/// The text that may be somewhere, or nothing.
pub open spec fn text_at(found: Option<JsonModel>) -> Seq<char> {
    match found {
        Some(JsonModel::Text(t)) => t,
        _ => Seq::empty(),
    }
}

/// What a document is about: the text at `type`, or else the name of the event that it
/// came under.
pub open spec fn kind(value: JsonModel, event_name: Option<Seq<char>>) -> Seq<char> {
    match value.field("type"@) {
        Some(JsonModel::Text(t)) => t,
        _ => match event_name {
            Some(name) => name,
            None => Seq::empty(),
        },
    }
}

/// What a document brings: its kind, text and thinking at `delta`, usage at `usage` of
/// `response`, and that the answer is incomplete at `reason` of `incomplete_details` of
/// `response`.
pub proof fn law_what_a_document_brings(event_name: Option<Seq<char>>, value: JsonModel)
    ensures
        ({
            let about = kind(value, event_name);
            let fails = value.nested_text("error"@, "message"@) is Some || about
                == "response.failed"@ || about == "response.cancelled"@ || about == "error"@;
            &&& laws::fails(event_name, value) == fails
            &&& !fails && about == "response.output_text.delta"@ ==> laws::text_in(
                event_name,
                value,
            ) == text_at(value.field("delta"@))
            &&& fails || about != "response.output_text.delta"@ ==> laws::text_in(
                event_name,
                value,
            ).len() == 0
            &&& !fails && (about == "response.reasoning_summary_text.delta"@ || about
                == "response.reasoning_text.delta"@) ==> laws::thinking_in(event_name, value)
                == text_at(value.field("delta"@))
            &&& fails || (about != "response.reasoning_summary_text.delta"@ && about
                != "response.reasoning_text.delta"@) ==> laws::thinking_in(
                event_name,
                value,
            ).len() == 0
        }),
        value.field("response"@) matches Some(response) ==> {
            &&& laws::is_incomplete(value) == (response.nested(
                "incomplete_details"@,
                "reason"@,
            ) matches Some(JsonModel::Text(_)))
            &&& response.field("usage"@) matches Some(used) ==> used != JsonModel::Null
                ==> stop::usage_in(value) == Some(used)
        },
        value.field("response"@) is None ==> !laws::is_incomplete(value) && stop::usage_in(
            value,
        ) is None,
{
}

/// Whether a document speaks of a call in its item.
pub open spec fn has_call(value: JsonModel) -> bool {
    value.nested("item"@, "type"@) == Some(JsonModel::Text("function_call"@))
}

/// The key of the call of an item: what is at `item_id` of the document, or else at `id`
/// or else at `call_id` of the item, if that is text; or else one made of the number at
/// `output_index` of the document.
pub open spec fn key(value: JsonModel, item: JsonModel) -> Seq<char> {
    let named = if value.field("item_id"@) is Some {
        value.field("item_id"@)
    } else if item.field("id"@) is Some {
        item.field("id"@)
    } else {
        item.field("call_id"@)
    };
    match named {
        Some(JsonModel::Text(t)) => t,
        _ => "output_"@ + text::decimal(
            match value.field("output_index"@) {
                Some(JsonModel::Unsigned(n)) => n as nat,
                _ => 0,
            },
        ),
    }
}

/// What a document says of a call: one that adds an item with a call speaks of it, one
/// with a piece of its input brings what is at `delta`, one that ends the item brings what
/// is at its `arguments`; no other document speaks of a call.
pub proof fn law_what_is_said_of_calls(event_name: Option<Seq<char>>, value: JsonModel)
    requires
        !laws::fails(event_name, value),
    ensures
        ({
            let about = kind(value, event_name);
            let list = calls::touches_in(event_name, value);
            let item = value.field("item"@)->0;
            &&& about == "response.output_item.added"@ && has_call(value) ==> list.len() == 1
                && list[0].key == key(value, item) && list[0].piece is None && list[0].end is None
            &&& about == "response.function_call_arguments.delta"@ ==> {
                &&& list.len() == 1
                &&& list[0].key == key(value, JsonModel::Null)
                &&& list[0].piece == value.text_field("delta"@)
                &&& list[0].end is None
            }
            &&& about == "response.output_item.done"@ && has_call(value) ==> list.len() == 1
                && list[0].key == key(value, item) && list[0].piece is None && list[0].end == Some(
                text_at(item.field("arguments"@)),
            )
            &&& about != "response.output_item.added"@ && about
                != "response.function_call_arguments.delta"@ && about
                != "response.output_item.done"@ ==> list.len() == 0
            &&& about != "response.function_call_arguments.delta"@ && !has_call(value)
                ==> list.len() == 0
        }),
{
    lemma_kinds();
}

/// A document with a message of an error fails the answer with that message; one that
/// tells of a failure without it fails the answer with the message of the error of the
/// `response`, or else with one of its own.
pub proof fn law_failures(
    state: ResponsesModel,
    event_name: Option<Seq<char>>,
    value: JsonModel,
)
    requires
        laws::fails(event_name, value),
    ensures
        ({
            let step = state.told(event_name, value);
            let inner = match value.field("response"@) {
                Some(response) => response.nested("error"@, "message"@),
                None => None,
            };
            let message = match value.nested("error"@, "message"@) {
                Some(JsonModel::Text(t)) => t,
                _ => match inner {
                    Some(JsonModel::Text(t)) => t,
                    _ => "OpenAI Responses 流失败"@,
                },
            };
            &&& step.out == seq![EventModel::Failure { message }]
            &&& step.state.answer.finished
            &&& step.state.tools == state.tools
        }),
{
}

/// The data of a frame: the word for the end ends the answer, blank data brings nothing,
/// what is no document is told and changes nothing, and any other is taken as the document
/// it is.
pub proof fn law_data_of_a_frame(
    state: ResponsesModel,
    event_name: Option<Seq<char>>,
    data: Seq<char>,
)
    requires
        !state.answer.finished,
    ensures
        ({
            let word = text::trim_both(data);
            let step = state.processed(event_name, data);
            &&& word.len() == 0 ==> step == state.silent()
            &&& word == "[DONE]"@ ==> step == state.ended()
            &&& word.len() > 0 && word != "[DONE]"@ ==> match codec::json_parse(data) {
                Ok(value) => step == state.told(event_name, value),
                Err(error) => step == (ResponsesStep {
                    state,
                    out: seq![
                        EventModel::Failure { message: "无法解析上游 Responses SSE: "@ + error },
                    ],
                }),
            }
        }),
{
    reveal_strlit("[DONE]");
    assert("[DONE]"@.len() == 6);
}

/// The names of an answer are the first that are given: those at `id` and `model` of the
/// `response` in the document with which it begins, which it begins with; names that are
/// known stay.
pub proof fn law_names_of_an_answer(
    state: ResponsesModel,
    event_name: Option<Seq<char>>,
    value: JsonModel,
)
    requires
        !laws::fails(event_name, value),
        !state.answer.started,
        !state.answer.finished,
    ensures
        ({
            let out = state.told(event_name, value).out;
            let id = if state.answer.id.len() > 0 {
                state.answer.id
            } else {
                text_at(value.nested("response"@, "id"@))
            };
            let model = if state.answer.model.len() > 0 {
                state.answer.model
            } else {
                text_at(value.nested("response"@, "model"@))
            };
            out.len() > 0 && out[0] == (EventModel::MessageStart { id, model })
        }),
{
    let informed = state.informed(value);
    let first = informed.silent();
    let step = first.said(first.speaking().begun());
    let about = responses_stream::kind_of(value, event_name);
    assert(informed.answer.id =~= if state.answer.id.len() > 0 {
        state.answer.id
    } else {
        text_at(value.nested("response"@, "id"@))
    });
    assert(informed.answer.model =~= if state.answer.model.len() > 0 {
        state.answer.model
    } else {
        text_at(value.nested("response"@, "model"@))
    });
    assert(step.out.len() == 1);
    assert(step.out[0] is MessageStart);
    lemma_told_extends(step, about, value);
}

/// Whether events begin with those of a list.
spec fn extends(more: Seq<EventModel>, list: Seq<EventModel>) -> bool {
    more.len() >= list.len() && forall|i: int| 0 <= i < list.len() ==> more[i] == #[trigger] list[i]
}

proof fn lemma_speaking_extends(step: AnswerStep, piece: Seq<char>)
    ensures
        extends(step.begun().out, step.out),
        extends(step.text_closed().out, step.out),
        extends(step.thinking_closed().out, step.out),
        extends(step.text_open().out, step.out),
        extends(step.thinking_open().out, step.out),
        extends(step.text_said(piece).out, step.out),
        extends(step.thinking_said(piece).out, step.out),
        extends(step.text_closed().thinking_closed().out, step.out),
        extends(step.begun().text_closed().thinking_closed().out, step.out),
{
}

proof fn lemma_known_extends(step: ResponsesStep, key: Seq<char>, item: JsonModel)
    ensures
        extends(step.tool_known(key, item).out, step.out),
{
    lemma_speaking_extends(step.speaking(), Seq::empty());
    let closed = step.said(step.speaking().text_closed().thinking_closed());
    let alone = closed.with_key(key);
    assert(alone.out == closed.out);
    let at = responses_stream::place(alone.state.tools, key);
    assert(extends(alone.tool(at).known(item).out, alone.out));
}

proof fn lemma_end_extends(step: ResponsesStep)
    ensures
        extends(step.ended().out, step.out),
{
    lemma_speaking_extends(step.speaking(), Seq::empty());
    let closed = step.said(step.speaking().begun().text_closed().thinking_closed());
    let n = closed.state.tools.len() as int;
    lemma_tools_extend(closed, n);
    let ended = closed.tools_ended(n);
    assert(extends(ended.stopped().out, ended.out));
}

proof fn lemma_told_extends(step: ResponsesStep, about: Seq<char>, value: JsonModel)
    ensures
        extends(step.told(about, value).out, step.out),
{
    lemma_speaking_extends(step.speaking(), laws::piece_in(value));
    lemma_end_extends(step);
    let null = JsonModel::Null;
    let own = responses_stream::key_of(value, null);
    let stand_in = responses_stream::placeholder(value);
    lemma_known_extends(step, own, stand_in);
    let piece_known = step.tool_known(own, stand_in);
    assert(extends(step.input_given(value).out, piece_known.out));
    if let Some(item) = responses_stream::called_item(value) {
        let key = responses_stream::key_of(value, item);
        lemma_known_extends(step, key, item);
        let known = step.tool_known(key, item);
        assert(extends(step.item_done(value, item).out, known.out));
    }
}

proof fn lemma_tools_extend(step: ResponsesStep, n: int)
    ensures
        extends(step.tools_ended(n).out, step.out),
    decreases n,
{
    if n > 0 {
        lemma_tools_extend(step, n - 1);
    }
}

/// What each kind of document does to the blocks of text and thinking: one that adds a
/// part of text or brings text has a block of text open and none of thinking, one that
/// brings thinking the other way round; one that ends either closes its block; one that
/// speaks of a call closes both; one that completes the answer finishes it; and any other
/// leaves all as it is.
pub proof fn law_what_each_kind_does(
    step: ResponsesStep,
    about: Seq<char>,
    value: JsonModel,
)
    requires
        !step.state.answer.finished,
        step.state.answer.started,
    ensures
        ({
            let next = step.told(about, value);
            let answer = next.state.answer;
            let text_part = value.nested("part"@, "type"@) == Some(JsonModel::Text("output_text"@));
            let item = about == "response.output_item.added"@ || about
                == "response.output_item.done"@;
            &&& about == "response.output_text.delta"@ || (about == "response.content_part.added"@
                && text_part) ==> answer.text_index is Some && answer.thinking_index is None
                && !answer.finished
            &&& about == "response.reasoning_text.delta"@ || about
                == "response.reasoning_summary_text.delta"@ ==> answer.thinking_index is Some
                && answer.text_index is None && !answer.finished
            &&& about == "response.output_text.done"@ || about == "response.content_part.done"@
                ==> answer.text_index is None && answer.thinking_index
                == step.state.answer.thinking_index && !answer.finished
            &&& about == "response.reasoning_text.done"@ || about
                == "response.reasoning_summary_text.done"@ ==> answer.thinking_index is None
                && answer.text_index == step.state.answer.text_index && !answer.finished
            &&& about == "response.function_call_arguments.delta"@ || (item && has_call(value))
                ==> answer.text_index is None && answer.thinking_index is None && !answer.finished
            &&& about == "response.completed"@ || about == "response.incomplete"@
                ==> answer.finished
            &&& (about == "response.content_part.added"@ && !text_part) || (item && !has_call(
                value,
            )) ==> next == step
            &&& about != "response.output_text.delta"@ && about != "response.content_part.added"@
                && about != "response.reasoning_text.delta"@ && about
                != "response.reasoning_summary_text.delta"@ && about
                != "response.output_text.done"@ && about != "response.content_part.done"@ && about
                != "response.reasoning_text.done"@ && about
                != "response.reasoning_summary_text.done"@ && about
                != "response.function_call_arguments.delta"@ && !item && about
                != "response.completed"@ && about != "response.incomplete"@ ==> next == step
        }),
{
    lemma_kinds();
}

/// A call becomes known by an item: by the id at `call_id`, or else at `id`, and the name at
/// `name`, as far as it lacks them; and its block begins under both, where it has not.
pub proof fn law_call_becomes_known(tool: ResponsesToolModel, item: JsonModel)
    ensures
        ({
            let step = (ResponsesToolStep { tool, out: Seq::empty() }).known(item);
            let id = if tool.id.len() > 0 {
                tool.id
            } else {
                match item.field("call_id"@) {
                    Some(JsonModel::Text(t)) => t,
                    _ => text_at(item.field("id"@)),
                }
            };
            let name = if tool.name.len() > 0 {
                tool.name
            } else {
                text_at(item.field("name"@))
            };
            &&& step.tool == (ResponsesToolModel { id, name, started: true, ..tool })
            &&& step.out == if tool.started {
                Seq::empty()
            } else {
                seq![EventModel::ToolStart { index: tool.index, id, name }]
            }
        }),
{
    let step = (ResponsesToolStep { tool, out: Seq::empty() }).known(item);
    let named = tool.named(item);
    let start = EventModel::ToolStart { index: named.index, id: named.id, name: named.name };
    assert(Seq::<EventModel>::empty().push(start) =~= seq![start]);
}

/// A document with a piece of input makes its call known by what is at `item_id`,
/// `call_id` and `name` of the document itself.
pub proof fn law_call_of_a_piece(value: JsonModel)
    ensures
        ({
            let item = responses_stream::placeholder(value);
            &&& text_at(item.field("call_id"@)) == text_at(value.field("call_id"@))
            &&& text_at(item.field("id"@)) == text_at(value.field("item_id"@))
            &&& text_at(item.field("name"@)) == text_at(value.field("name"@))
            &&& item.text_field("call_id"@) is Some <==> value.text_field("call_id"@) is Some
        }),
{
    reveal_strlit("id");
    reveal_strlit("call_id");
    reveal_strlit("name");
    assert("id"@.len() == 2);
    assert("call_id"@.len() == 7);
    assert("name"@.len() == 4);
}

}
