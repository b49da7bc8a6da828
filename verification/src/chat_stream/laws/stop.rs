//! Why a whole answer stops, and what it used.
use vstd::prelude::*;

use crate::chat_stream::laws;
use crate::chat_stream::{self, ChatModel, ChatStep};
use crate::event::{self, EventModel};
use crate::json::codec;
use crate::json::JsonModel;
use crate::text;
use crate::transform::{options, usage};

verus! {

/// The documents that are read from the data of a frame: none where it is no
/// document or tells of an error.
pub open spec fn documents_in(data: Seq<char>) -> Seq<JsonModel> {
    if laws::is_read(data) && !laws::tells_error(data) {
        match codec::json_parse(data) {
            Ok(value) => seq![value],
            Err(_) => Seq::empty(),
        }
    } else {
        Seq::empty()
    }
}

/// The documents that are read from the data of frames until the answer is
/// finished.
pub open spec fn documents(frames: Seq<Seq<char>>) -> Seq<JsonModel>
    decreases frames.len(),
{
    if frames.len() == 0 {
        Seq::empty()
    } else if laws::run(frames.drop_last()).state.answer.finished {
        documents(frames.drop_last())
    } else {
        documents(frames.drop_last()) + documents_in(frames.last())
    }
}

/// The reason that a document gives for the end of the answer.
pub open spec fn reason_in(value: JsonModel) -> Option<Seq<char>> {
    match chat_stream::first_choice(value) {
        Some(choice) => choice.text_field("finish_reason"@),
        None => None,
    }
}

/// The last reason that documents give for the end of the answer.
pub open spec fn last_reason(read: Seq<JsonModel>) -> Option<Seq<char>>
    decreases read.len(),
{
    if read.len() == 0 {
        None
    } else {
        match reason_in(read.last()) {
            Some(reason) => Some(reason),
            None => last_reason(read.drop_last()),
        }
    }
}

/// The usage in a document: none where it is missing or `null`.
pub open spec fn usage_in(value: JsonModel) -> Option<JsonModel> {
    match value.field("usage"@) {
        Some(used) => if used != JsonModel::Null {
            Some(used)
        } else {
            None
        },
        None => None,
    }
}

/// The last usage in documents.
pub open spec fn last_usage(read: Seq<JsonModel>) -> Option<JsonModel>
    decreases read.len(),
{
    if read.len() == 0 {
        None
    } else {
        match usage_in(read.last()) {
            Some(used) => Some(used),
            None => last_usage(read.drop_last()),
        }
    }
}

/// Whether any call came in documents.
pub open spec fn calls_came(read: Seq<JsonModel>) -> bool {
    exists|i: int| 0 <= i < read.len() && laws::calls_in(#[trigger] read[i]).len() > 0
}

/// A usage in the form of Anthropic, where there is one.
pub open spec fn converted(used: Option<JsonModel>) -> Option<JsonModel> {
    match used {
        Some(value) => Some(usage::from_chat(Some(value))),
        None => None,
    }
}

/// The event that says why an answer stops and what it used.
pub open spec fn stop_event(
    reason: Option<Seq<char>>,
    has_calls: bool,
    used: Option<JsonModel>,
) -> EventModel {
    EventModel::MessageDelta {
        stop_reason: options::chat_stop(reason, has_calls),
        usage: match used {
            Some(value) => value,
            None => event::no_usage(),
        },
    }
}

/// The event with which an answer that has come so far stops.
spec fn stop_of(state: ChatModel) -> EventModel {
    stop_event(state.finish_reason, state.tools.len() > 0, state.usage)
}

proof fn lemma_calls_came_push(read: Seq<JsonModel>, value: JsonModel)
    ensures
        calls_came(read.push(value)) == (calls_came(read) || laws::calls_in(value).len() > 0),
        last_reason(read.push(value)) == (match reason_in(value) {
            Some(reason) => Some(reason),
            None => last_reason(read),
        }),
        last_usage(read.push(value)) == (match usage_in(value) {
            Some(used) => Some(used),
            None => last_usage(read),
        }),
{
    let more = read.push(value);
    assert(more.drop_last() =~= read);
    assert(more[read.len() as int] == value);
    if calls_came(read) {
        let i = choose|i: int|
            0 <= i < read.len() && laws::calls_in(#[trigger] read[i]).len() > 0;
        assert(more[i] == read[i]);
    }
    if calls_came(more) {
        let i = choose|i: int|
            0 <= i < more.len() && laws::calls_in(#[trigger] more[i]).len() > 0;
        if i < read.len() {
            assert(read[i] == more[i]);
        }
    }
}

/// A piece of a call leaves at least one call, and nothing else changes.
proof fn lemma_called(step: ChatStep, call: JsonModel)
    ensures
        step.called(call).state.tools.len() > 0,
        step.called(call).state.finish_reason == step.state.finish_reason,
        step.called(call).state.usage == step.state.usage,
{
    let key = chat_stream::call_key(call);
    let tools = step.state.tools;
    let at = chat_stream::place(tools, key);
    chat_stream::lemma_before(tools, key);
    if !chat_stream::has_key(tools, key) {
        let more = step.with_key(key).state.tools;
        assert forall|i: int| 0 <= i < at implies (#[trigger] more[i]).0 < key by {
            assert(more[i] == tools[i]);
        }
        chat_stream::lemma_place(more, key, at);
    }
}

proof fn lemma_all_called(step: ChatStep, calls: Seq<JsonModel>)
    ensures
        (step.all_called(calls).state.tools.len() > 0) == (step.state.tools.len() > 0
            || calls.len() > 0),
        step.all_called(calls).state.finish_reason == step.state.finish_reason,
        step.all_called(calls).state.usage == step.state.usage,
    decreases calls.len(),
{
    if calls.len() > 0 {
        lemma_all_called(step, calls.drop_last());
        lemma_called(step.all_called(calls.drop_last()), calls.last());
    }
}

/// What an answer knows once a document was read.
proof fn lemma_told(state: ChatModel, value: JsonModel)
    requires
        value.nested_text("error"@, "message"@) is None,
    ensures
        ({
            let next = state.told(value).state;
            &&& next.finish_reason == (match reason_in(value) {
                Some(reason) => Some(reason),
                None => state.finish_reason,
            })
            &&& next.usage == (match usage_in(value) {
                Some(used) => Some(usage::from_chat(Some(used))),
                None => state.usage,
            })
            &&& (next.tools.len() > 0) == (state.tools.len() > 0 || laws::calls_in(value).len()
                > 0)
        }),
{
    let informed = state.informed(value);
    if let Some(choice) = chat_stream::first_choice(value) {
        let delta = usage::or_null(choice.field("delta"@));
        let two = informed.with_reasoning(delta).with_content(delta);
        if let Some(calls) = delta.array_field("tool_calls"@) {
            lemma_all_called(two.said(two.speaking().text_closed().thinking_closed()), calls);
        }
    }
}

proof fn lemma_tools_ended(step: ChatStep, n: int)
    requires
        0 <= n <= step.state.tools.len(),
    ensures
        step.tools_ended(n).state.tools.len() == step.state.tools.len(),
        step.tools_ended(n).state.finish_reason == step.state.finish_reason,
        step.tools_ended(n).state.usage == step.state.usage,
    decreases n,
{
    if n > 0 {
        lemma_tools_ended(step, n - 1);
    }
}

/// The end of an answer says what the answer knows, and leaves that as it is.
proof fn lemma_ended(state: ChatModel)
    ensures
        stop_of(state.ended().state) == stop_of(state),
        state.ended().state.finish_reason == state.finish_reason,
        state.ended().state.usage == state.usage,
        state.ended().state.tools.len() == state.tools.len(),
        !state.answer.finished ==> {
            let out = state.ended().out;
            &&& out.len() >= 2
            &&& out.last() is MessageStop
            &&& out[out.len() - 2] == stop_of(state)
        },
{
    if !state.answer.finished {
        let start = state.silent();
        let closed = start.said(start.speaking().begun().text_closed().thinking_closed());
        lemma_tools_ended(closed, closed.state.tools.len() as int);
    }
}

/// What an answer knows of its history: the last reason and the last usage that were
/// read, the usage in the form of Anthropic; and it has calls if and only if any
/// came.
pub proof fn law_history_of_an_answer(frames: Seq<Seq<char>>)
    ensures
        laws::run(frames).state.finish_reason == last_reason(documents(frames)),
        laws::run(frames).state.usage == converted(last_usage(documents(frames))),
        (laws::run(frames).state.tools.len() > 0) == calls_came(documents(frames)),
    decreases frames.len(),
{
    if frames.len() > 0 {
        let rest = frames.drop_last();
        let data = frames.last();
        law_history_of_an_answer(rest);
        let state = laws::run(rest).state;
        lemma_ended(state);
        if !state.answer.finished {
            let read = documents(rest);
            if documents_in(data).len() > 0 {
                let value = codec::json_parse(data)->Ok_0;
                lemma_told(state, value);
                lemma_calls_came_push(read, value);
                assert(read + seq![value] =~= read.push(value));
            } else {
                assert(read + documents_in(data) =~= read);
            }
        }
    }
}

/// An answer that is finished without an error has said why it stops.
proof fn lemma_finished(frames: Seq<Seq<char>>)
    requires
        laws::no_errors(frames),
        laws::run(frames).state.answer.finished,
    ensures
        ({
            let out = laws::run(frames).out;
            &&& out.len() >= 2
            &&& out.last() is MessageStop
            &&& out[out.len() - 2] == stop_of(laws::run(frames).state)
        }),
    decreases frames.len(),
{
    if frames.len() > 0 {
        let rest = frames.drop_last();
        let data = frames.last();
        assert forall|i: int| 0 <= i < rest.len() implies !laws::tells_error(
            #[trigger] rest[i],
        ) by {
            assert(rest[i] == frames[i]);
        }
        assert(!laws::tells_error(frames[frames.len() - 1]));
        let before = laws::run(rest);
        let now = before.state.processed(data);
        if before.state.answer.finished {
            lemma_finished(rest);
            assert(before.out + now.out =~= before.out);
        } else {
            lemma_ended(before.state);
            if laws::is_read(data) {
                if let Ok(value) = codec::json_parse(data) {
                    laws::lemma_told_goes_on(before.state, value);
                }
            }
            assert(text::trim_both(data) == "[DONE]"@);
            let out = before.out + now.out;
            assert(out.last() == now.out.last());
            assert(out[out.len() - 2] == now.out[now.out.len() - 2]);
        }
    }
}

/// How a whole answer stops in which no frame tells of an error: the last events are
/// that it stops and that it ends. The first of them says why, by the last reason
/// that was read and by whether any call came, and what the answer used: the last
/// usage that was read and is not `null`, in the form of Anthropic, or else none.
pub proof fn law_stop_of_an_answer(frames: Seq<Seq<char>>)
    requires
        laws::no_errors(frames),
    ensures
        ({
            let events = laws::whole(frames);
            let read = documents(frames);
            &&& events.len() >= 2
            &&& events.last() is MessageStop
            &&& events[events.len() - 2] == stop_event(
                last_reason(read),
                calls_came(read),
                converted(last_usage(read)),
            )
        }),
{
    law_history_of_an_answer(frames);
    let state = laws::run(frames).state;
    let end = state.ended().out;
    let events = laws::whole(frames);
    lemma_ended(state);
    if state.answer.finished {
        lemma_finished(frames);
        assert(events =~= laws::run(frames).out);
    } else {
        assert(events.last() == end.last());
        assert(events[events.len() - 2] == end[end.len() - 2]);
    }
}

}
