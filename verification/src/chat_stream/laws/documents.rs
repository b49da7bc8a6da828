//! What a document of the Chat protocol brings, field by field.
use vstd::prelude::*;

use crate::answer::AnswerStep;
use crate::chat_stream::laws;
use crate::chat_stream::laws::{calls, stop};
use crate::chat_stream::{ChatModel, ChatStep, ChatToolModel, ChatToolStep};
use crate::event::EventModel;
use crate::json::codec;
use crate::json::JsonModel;
use crate::text;

verus! {

/// The alternative of a document that counts: the first at `choices`.
pub open spec fn choice(value: JsonModel) -> JsonModel {
    match value.field("choices"@) {
        Some(JsonModel::Array(list)) => if list.len() > 0 {
            list[0]
        } else {
            JsonModel::Null
        },
        _ => JsonModel::Null,
    }
}

/// What is at a field of the piece of the answer in a document.
pub open spec fn at(value: JsonModel, key: Seq<char>) -> Option<JsonModel> {
    choice(value).nested("delta"@, key)
}

/// The text that may be somewhere, or nothing.
pub open spec fn text_at(found: Option<JsonModel>) -> Seq<char> {
    match found {
        Some(JsonModel::Text(t)) => t,
        _ => Seq::empty(),
    }
}

/// What a document brings: text at `content`, thinking at `reasoning_content` or, where
/// that is missing, at `reasoning`, pieces of calls at `tool_calls`, the reason for the
/// end at `finish_reason` of the alternative, and usage at `usage` of the document.
pub proof fn law_what_a_document_brings(value: JsonModel)
    ensures
        laws::text_in(value) == text_at(at(value, "content"@)),
        laws::thinking_in(value) == if at(value, "reasoning_content"@) is Some {
            text_at(at(value, "reasoning_content"@))
        } else {
            text_at(at(value, "reasoning"@))
        },
        at(value, "tool_calls"@) matches Some(JsonModel::Array(list)) ==> laws::calls_in(value)
            == list,
        !(at(value, "tool_calls"@) matches Some(JsonModel::Array(_))) ==> laws::calls_in(
            value,
        ).len() == 0,
        stop::reason_in(value) == choice(value).text_field("finish_reason"@),
        value.field("usage"@) matches Some(used) ==> used != JsonModel::Null ==> stop::usage_in(
            value,
        ) == Some(used),
        value.field("usage"@) is None || value.field("usage"@) == Some(JsonModel::Null)
            ==> stop::usage_in(value) is None,
{
}

/// What a piece of a call brings: its key at `index`, or zero, and input at `arguments` of
/// its `function`.
pub proof fn law_what_a_piece_of_a_call_brings(call: JsonModel)
    ensures
        call.field("index"@) matches Some(JsonModel::Unsigned(n)) ==> crate::chat_stream::call_key(
            call,
        ) == n,
        !(call.field("index"@) matches Some(JsonModel::Unsigned(_)))
            ==> crate::chat_stream::call_key(call) == 0,
        calls::arguments_of(call) == text_at(call.nested("function"@, "arguments"@)),
{
}

/// A document with a message of an error fails the answer with that message, whatever
/// else it brings, and nothing else of the answer changes.
pub proof fn law_error_fails(state: ChatModel, value: JsonModel, message: Seq<char>)
    requires
        value.nested("error"@, "message"@) == Some(JsonModel::Text(message)),
    ensures
        state.told(value).out == seq![EventModel::Failure { message }],
        state.told(value).state.answer.finished,
        state.told(value).state.tools == state.tools,
        state.told(value).state.usage == state.usage,
{
}

/// The data of a frame: blank data brings nothing, the word for the end ends the answer,
/// what is no document is told and changes nothing, and any other is taken as the document
/// it is.
pub proof fn law_data_of_a_frame(state: ChatModel, data: Seq<char>)
    requires
        !state.answer.finished,
    ensures
        ({
            let word = text::trim_both(data);
            let step = state.processed(data);
            &&& word.len() == 0 ==> step == state.silent()
            &&& word == "[DONE]"@ ==> step == state.ended()
            &&& word.len() > 0 && word != "[DONE]"@ ==> match codec::json_parse(data) {
                Ok(value) => step == state.told(value),
                Err(error) => step == (ChatStep {
                    state,
                    out: seq![
                        EventModel::Failure { message: "无法解析上游 Chat SSE: "@ + error },
                    ],
                }),
            }
        }),
{
    reveal_strlit("[DONE]");
    assert("[DONE]"@.len() == 6);
}

/// The names of an answer are the first that are given: those at `id` and `model` of the
/// document with which it begins, which it begins with; names that are known stay.
pub proof fn law_names_of_an_answer(state: ChatModel, value: JsonModel)
    requires
        value.nested_text("error"@, "message"@) is None,
        !state.answer.started,
    ensures
        ({
            let out = state.told(value).out;
            let id = if state.answer.id.len() > 0 {
                state.answer.id
            } else {
                text_at(value.field("id"@))
            };
            let model = if state.answer.model.len() > 0 {
                state.answer.model
            } else {
                text_at(value.field("model"@))
            };
            out.len() > 0 && out[0] == (EventModel::MessageStart { id, model })
        }),
{
    let informed = state.informed(value);
    let start = informed.out[0];
    assert(informed.out =~= Seq::empty().push(start));
    lemma_told_extends(state, value);
}

/// What is given for a document begins with what is given for its names.
proof fn lemma_told_extends(state: ChatModel, value: JsonModel)
    requires
        value.nested_text("error"@, "message"@) is None,
    ensures
        extends(state.told(value).out, state.informed(value).out),
{
    let informed = state.informed(value);
    if let Some(found) = crate::chat_stream::first_choice(value) {
        let delta = crate::transform::usage::or_null(found.field("delta"@));
        let one = informed.with_reasoning(delta);
        let two = one.with_content(delta);
        assert(extends(one.out, informed.out));
        assert(extends(two.out, one.out));
        if let Some(list) = delta.array_field("tool_calls"@) {
            let closed = two.said(two.speaking().text_closed().thinking_closed());
            assert(extends(closed.out, two.out));
            lemma_calls_extend(closed, list);
        }
    }
}

/// Whether events begin with those of a list.
spec fn extends(more: Seq<EventModel>, list: Seq<EventModel>) -> bool {
    more.len() >= list.len() && forall|i: int| 0 <= i < list.len() ==> more[i] == #[trigger] list[i]
}

proof fn lemma_calls_extend(step: ChatStep, list: Seq<JsonModel>)
    ensures
        extends(step.all_called(list).out, step.out),
    decreases list.len(),
{
    if list.len() > 0 {
        lemma_calls_extend(step, list.drop_last());
        let before = step.all_called(list.drop_last());
        assert(extends(before.called(list.last()).out, before.out));
    }
}

/// One more piece of a call: its id and its name grow by those it brings. The block of the
/// call begins, under both, once either is known. Input waits until then, and is then
/// given to the block, that which waited before that which came.
pub proof fn law_piece_of_a_call(tool: ChatToolModel, call: JsonModel)
    ensures
        ({
            let step = (ChatToolStep { tool, out: Seq::empty() }).called(call);
            let id = tool.id + text_at(call.field("id"@));
            let name = tool.name + text_at(call.nested("function"@, "name"@));
            let input = tool.pending + text_at(call.nested("function"@, "arguments"@));
            let begins = !tool.started && (id.len() > 0 || name.len() > 0);
            let begun = tool.started || begins;
            let start = EventModel::ToolStart { index: tool.index, id, name };
            let given = EventModel::InputDelta { index: tool.index, json: input };
            &&& step.tool.id == id
            &&& step.tool.name == name
            &&& step.tool.index == tool.index
            &&& step.tool.closed == tool.closed
            &&& step.tool.started == begun
            &&& begun ==> step.tool.pending.len() == 0
            &&& !begun ==> step.tool.pending == input && step.out.len() == 0
            &&& begun ==> step.out == if begins && input.len() > 0 {
                seq![start, given]
            } else if begins {
                seq![start]
            } else if input.len() > 0 {
                seq![given]
            } else {
                Seq::empty()
            }
        }),
{
    let step = (ChatToolStep { tool, out: Seq::empty() }).called(call);
    let id = tool.id + text_at(call.field("id"@));
    let name = tool.name + text_at(call.nested("function"@, "name"@));
    let input = tool.pending + text_at(call.nested("function"@, "arguments"@));
    let grown = tool.grown(call);
    assert(grown.id =~= id);
    assert(grown.name =~= name);
    assert(grown.pending =~= input);
    let none = Seq::<EventModel>::empty();
    let start = EventModel::ToolStart { index: tool.index, id, name };
    let given = EventModel::InputDelta { index: tool.index, json: input };
    assert(none.push(start).push(given) =~= seq![start, given]);
    assert(none.push(start) =~= seq![start]);
    assert(none.push(given) =~= seq![given]);
}

/// The end of a call: a block that has not begun begins, under the id and name that are
/// known, or else under one made of its index and as a tool that is not known; input that
/// waits is given; and the block ends.
pub proof fn law_end_of_a_call(tool: ChatToolModel)
    requires
        !tool.closed,
    ensures
        ({
            let step = (ChatToolStep { tool, out: Seq::empty() }).ended();
            let id = if tool.id.len() > 0 {
                tool.id
            } else {
                "tool_call_"@ + text::decimal(tool.index as nat)
            };
            let name = if tool.name.len() > 0 {
                tool.name
            } else {
                "unknown_tool"@
            };
            let start = EventModel::ToolStart { index: tool.index, id, name };
            let given = EventModel::InputDelta { index: tool.index, json: tool.pending };
            let end = EventModel::BlockStop { index: tool.index };
            step.out == if !tool.started && tool.pending.len() > 0 {
                seq![start, given, end]
            } else if !tool.started {
                seq![start, end]
            } else if tool.pending.len() > 0 {
                seq![given, end]
            } else {
                seq![end]
            }
        }),
{
    let step = (ChatToolStep { tool, out: Seq::empty() }).ended();
    let named = tool.with_names();
    let none = Seq::<EventModel>::empty();
    let start = EventModel::ToolStart { index: tool.index, id: named.id, name: named.name };
    let given = EventModel::InputDelta { index: tool.index, json: tool.pending };
    let end = EventModel::BlockStop { index: tool.index };
    assert(none.push(start).push(given).push(end) =~= seq![start, given, end]);
    assert(none.push(start).push(end) =~= seq![start, end]);
    assert(none.push(given).push(end) =~= seq![given, end]);
    assert(none.push(end) =~= seq![end]);
}

/// The place of an event among those of one document: thinking, then text, then calls.
pub open spec fn rank(event: EventModel) -> nat {
    match event {
        EventModel::ThinkingStart { .. } => 1,
        EventModel::ThinkingDelta { .. } => 1,
        EventModel::TextStart { .. } => 2,
        EventModel::TextDelta { .. } => 2,
        EventModel::ToolStart { .. } => 3,
        EventModel::InputDelta { .. } => 3,
        _ => 0,
    }
}

/// Whether thinking comes before text, and both before calls.
pub open spec fn is_ranked(events: Seq<EventModel>) -> bool {
    forall|i: int, j: int|
        0 <= i < j < events.len() && rank(#[trigger] events[j]) > 0 ==> rank(#[trigger] events[i])
            <= rank(events[j])
}

/// The same, with no event beyond a rank.
spec fn ranked_to(events: Seq<EventModel>, top: nat) -> bool {
    is_ranked(events) && forall|i: int| 0 <= i < events.len() ==> rank(#[trigger] events[i]) <= top
}

proof fn lemma_ranked_push(events: Seq<EventModel>, top: nat, event: EventModel)
    requires
        ranked_to(events, top),
        rank(event) == 0 || rank(event) == top,
    ensures
        ranked_to(events.push(event), top),
{
    let more = events.push(event);
    assert forall|i: int, j: int|
        0 <= i < j < more.len() && rank(#[trigger] more[j]) > 0 implies rank(#[trigger] more[i])
        <= rank(more[j]) by {
        assert(more[i] == events[i]);
        if j < events.len() {
            assert(more[j] == events[j]);
        }
    }
    assert forall|i: int| 0 <= i < more.len() implies rank(#[trigger] more[i]) <= top by {
        if i < events.len() {
            assert(more[i] == events[i]);
        }
    }
}

proof fn lemma_speaking_is_ranked(step: AnswerStep, piece: Seq<char>, top: nat)
    requires
        ranked_to(step.out, top),
    ensures
        ranked_to(step.begun().out, top),
        ranked_to(step.text_closed().out, top),
        ranked_to(step.thinking_closed().out, top),
        top == 1 ==> ranked_to(step.thinking_said(piece).out, 1),
        top == 2 ==> ranked_to(step.text_said(piece).out, 2),
{
    let answer = step.answer;
    let out = step.out;
    let index = answer.next_index;
    lemma_ranked_push(out, top, EventModel::MessageStart { id: answer.id, model: answer.model });
    if let Some(open) = answer.text_index {
        lemma_ranked_push(out, top, EventModel::BlockStop { index: open });
    }
    if let Some(open) = answer.thinking_index {
        lemma_ranked_push(out, top, EventModel::BlockStop { index: open });
    }
    if top == 1 {
        let closed = step.text_closed();
        lemma_ranked_push(closed.out, 1, EventModel::ThinkingStart { index });
        let open = step.thinking_open();
        lemma_ranked_push(
            open.out,
            1,
            EventModel::ThinkingDelta { index: open.answer.thinking_index->0, thinking: piece },
        );
    }
    if top == 2 {
        let closed = step.thinking_closed();
        lemma_ranked_push(closed.out, 2, EventModel::TextStart { index });
        let open = step.text_open();
        lemma_ranked_push(
            open.out,
            2,
            EventModel::TextDelta { index: open.answer.text_index->0, text: piece },
        );
    }
}

proof fn lemma_calls_are_ranked(step: ChatStep, list: Seq<JsonModel>)
    requires
        ranked_to(step.out, 3),
    ensures
        ranked_to(step.all_called(list).out, 3),
    decreases list.len(),
{
    if list.len() > 0 {
        lemma_calls_are_ranked(step, list.drop_last());
        let before = step.all_called(list.drop_last());
        let call = list.last();
        let key = crate::chat_stream::call_key(call);
        let known = before.with_key(key);
        let tool = known.state.tools[crate::chat_stream::place(known.state.tools, key)].1;
        let grown = tool.grown(call);
        let start = EventModel::ToolStart { index: grown.index, id: grown.id, name: grown.name };
        let given = EventModel::InputDelta { index: grown.index, json: grown.pending };
        lemma_ranked_push(known.out, 3, start);
        lemma_ranked_push(known.out, 3, given);
        lemma_ranked_push(known.out.push(start), 3, given);
    }
}

/// Of one document, thinking is told before text, and both before calls.
pub proof fn law_order_within_a_document(state: ChatModel, value: JsonModel)
    ensures
        is_ranked(state.told(value).out),
{
    if value.nested_text("error"@, "message"@) is None {
        let named = ChatModel {
            answer: state.answer.named(value.text_field("id"@), value.text_field("model"@)),
            ..state
        }.silent();
        assert(ranked_to(named.out, 0));
        lemma_speaking_is_ranked(named.speaking(), Seq::empty(), 0);
        let informed = state.informed(value);
        assert(ranked_to(informed.out, 1));
        lemma_speaking_is_ranked(informed.speaking(), laws::thinking_in(value), 1);
        if let Some(found) = crate::chat_stream::first_choice(value) {
            let delta = crate::transform::usage::or_null(found.field("delta"@));
            let one = informed.with_reasoning(delta);
            assert(ranked_to(one.out, 2));
            lemma_speaking_is_ranked(one.speaking(), laws::text_in(value), 2);
            let two = one.with_content(delta);
            assert(ranked_to(two.out, 3));
            lemma_speaking_is_ranked(two.speaking(), Seq::empty(), 3);
            lemma_speaking_is_ranked(two.speaking().text_closed(), Seq::empty(), 3);
            let closed = two.said(two.speaking().text_closed().thinking_closed());
            lemma_calls_are_ranked(closed, laws::calls_in(value));
        }
    }
}

}
