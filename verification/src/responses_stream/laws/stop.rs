//! Why a whole answer stops, and what it used.
use vstd::prelude::*;

use crate::event::{self, EventModel};
use crate::json::codec;
use crate::json::JsonModel;
use crate::responses_stream::laws;
use crate::responses_stream::{self, ResponsesModel, ResponsesStep};
use crate::sse::FrameModel;
use crate::transform::usage;

verus! {

/// The documents that are read from a frame: none where it holds no document.
pub open spec fn documents_in(frame: FrameModel) -> Seq<JsonModel> {
    if laws::is_read(frame.data) {
        match codec::json_parse(frame.data) {
            Ok(value) => seq![value],
            Err(_) => Seq::empty(),
        }
    } else {
        Seq::empty()
    }
}

/// The documents that are read from frames until the answer is finished.
pub open spec fn documents(frames: Seq<FrameModel>) -> Seq<JsonModel>
    decreases frames.len(),
{
    if frames.len() == 0 {
        Seq::empty()
    } else if laws::run(frames.drop_last()).state.answer.finished {
        documents(frames.drop_last())
    } else {
        documents(frames.drop_last()) + documents_in(frames.last())
    }
}

/// The usage that a document gives of the answer: none where it is missing or
/// `null`.
pub open spec fn usage_in(value: JsonModel) -> Option<JsonModel> {
    match value.nested("response"@, "usage"@) {
        Some(used) => if used != JsonModel::Null {
            Some(used)
        } else {
            None
        },
        None => None,
    }
}

/// The last usage in documents.
pub open spec fn last_usage(read: Seq<JsonModel>) -> Option<JsonModel>
    decreases read.len(),
{
    if read.len() == 0 {
        None
    } else {
        match usage_in(read.last()) {
            Some(used) => Some(used),
            None => last_usage(read.drop_last()),
        }
    }
}

/// A usage in the form of Anthropic, where there is one.
pub open spec fn converted(used: Option<JsonModel>) -> Option<JsonModel> {
    match used {
        Some(value) => Some(usage::from_responses(Some(value))),
        None => None,
    }
}

/// The event that says why an answer stops and what it used.
pub open spec fn stop_event(
    has_calls: bool,
    incomplete: bool,
    used: Option<JsonModel>,
) -> EventModel {
    EventModel::MessageDelta {
        stop_reason: if has_calls {
            "tool_use"@
        } else if incomplete {
            "max_tokens"@
        } else {
            "end_turn"@
        },
        usage: match used {
            Some(value) => value,
            None => event::no_usage(),
        },
    }
}

/// The event with which an answer that has come so far stops.
spec fn stop_of(state: ResponsesModel) -> EventModel {
    stop_event(state.tools.len() > 0, state.incomplete_reason is Some, state.usage)
}

proof fn lemma_tools_ended(step: ResponsesStep, n: int)
    requires
        0 <= n <= step.state.tools.len(),
    ensures
        step.tools_ended(n).state.tools.len() == step.state.tools.len(),
        step.tools_ended(n).state.incomplete_reason == step.state.incomplete_reason,
        step.tools_ended(n).state.usage == step.state.usage,
    decreases n,
{
    if n > 0 {
        lemma_tools_ended(step, n - 1);
    }
}

/// The end of an answer says what the answer knows, and leaves that as it is.
proof fn lemma_ended(step: ResponsesStep)
    ensures
        stop_of(step.ended().state) == stop_of(step.state),
        step.ended().state.usage == step.state.usage,
        !step.state.answer.finished ==> {
            let out = step.ended().out;
            &&& out.len() >= 2
            &&& out.last() is MessageStop
            &&& out[out.len() - 2] == stop_of(step.state)
        },
{
    if !step.state.answer.finished {
        let closed = step.said(step.speaking().begun().text_closed().thinking_closed());
        lemma_tools_ended(closed, closed.state.tools.len() as int);
    }
}

/// What an event does to the usage and, where it ends the answer, how it stops.
proof fn lemma_told(step: ResponsesStep, kind: Seq<char>, value: JsonModel)
    requires
        !step.state.answer.finished,
    ensures
        step.told(kind, value).state.usage == step.state.usage,
        step.told(kind, value).state.answer.finished ==> {
            let next = step.told(kind, value);
            &&& next.out.len() >= 2
            &&& next.out.last() is MessageStop
            &&& next.out[next.out.len() - 2] == stop_of(next.state)
        },
{
    lemma_ended(step);
}

/// The usage that an answer knows is the last that was read, in the form of
/// Anthropic.
pub proof fn law_usage_of_an_answer(frames: Seq<FrameModel>)
    ensures
        laws::run(frames).state.usage == converted(last_usage(documents(frames))),
    decreases frames.len(),
{
    if frames.len() > 0 {
        let rest = frames.drop_last();
        let frame = frames.last();
        law_usage_of_an_answer(rest);
        let state = laws::run(rest).state;
        lemma_ended(state.silent());
        if !state.answer.finished {
            let read = documents(rest);
            if documents_in(frame).len() > 0 {
                let value = codec::json_parse(frame.data)->Ok_0;
                let first = state.informed(value).silent();
                lemma_told(
                    first.said(first.speaking().begun()),
                    responses_stream::kind_of(value, frame.event),
                    value,
                );
                assert(read + seq![value] =~= read.push(value));
                assert(read.push(value).drop_last() =~= read);
            } else {
                assert(read + documents_in(frame) =~= read);
            }
        }
    }
}

/// An answer that is finished without a failure has said why it stops.
proof fn lemma_finished(frames: Seq<FrameModel>)
    requires
        laws::no_failures(frames),
        laws::run(frames).state.answer.finished,
    ensures
        ({
            let out = laws::run(frames).out;
            &&& out.len() >= 2
            &&& out.last() is MessageStop
            &&& out[out.len() - 2] == stop_of(laws::run(frames).state)
        }),
    decreases frames.len(),
{
    if frames.len() > 0 {
        let rest = frames.drop_last();
        let frame = frames.last();
        assert forall|i: int| 0 <= i < rest.len() implies !laws::tells_failure(
            #[trigger] rest[i],
        ) by {
            assert(rest[i] == frames[i]);
        }
        assert(!laws::tells_failure(frames[frames.len() - 1]));
        let before = laws::run(rest);
        let now = before.state.processed(frame.event, frame.data);
        if before.state.answer.finished {
            lemma_finished(rest);
            assert(before.out + now.out =~= before.out);
        } else {
            lemma_ended(before.state.silent());
            if laws::is_read(frame.data) {
                if let Ok(value) = codec::json_parse(frame.data) {
                    let first = before.state.informed(value).silent();
                    lemma_told(
                        first.said(first.speaking().begun()),
                        responses_stream::kind_of(value, frame.event),
                        value,
                    );
                }
            }
            let out = before.out + now.out;
            assert(out.last() == now.out.last());
            assert(out[out.len() - 2] == now.out[now.out.len() - 2]);
        }
    }
}

/// How a whole answer stops in which no frame tells of a failure: the last events
/// are that it stops and that it ends. The first of them says why, by whether a block
/// of a tool ever began and whether any document that was read said that the answer
/// is incomplete, and what the answer used: the last usage that was read and is not
/// `null`, in the form of Anthropic, or else none.
pub proof fn law_stop_of_an_answer(frames: Seq<FrameModel>)
    requires
        laws::no_failures(frames),
    ensures
        ({
            let events = laws::whole(frames);
            &&& events.len() >= 2
            &&& events.last() is MessageStop
            &&& events[events.len() - 2] == stop_event(
                laws::opens_tool(laws::run(frames).out),
                laws::told_incomplete(frames),
                converted(last_usage(documents(frames))),
            )
        }),
{
    laws::law_history_of_an_answer(frames);
    law_usage_of_an_answer(frames);
    let state = laws::run(frames).state;
    let end = state.ended().out;
    let events = laws::whole(frames);
    lemma_ended(state.silent());
    if state.answer.finished {
        lemma_finished(frames);
        assert(events =~= laws::run(frames).out);
    } else {
        assert(events.last() == end.last());
        assert(events[events.len() - 2] == end[end.len() - 2]);
    }
}

}
