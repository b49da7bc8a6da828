//! What holds of every answer that comes through the Chat protocol.
use vstd::prelude::*;

use crate::answer;
use crate::chat_stream::{self, ChatCalls, ChatModel, ChatStep, ChatToolModel, ChatToolStep};
use crate::event::{self, EventModel};
use crate::json::codec;
use crate::json::JsonModel;
use crate::protocol::{self, BlockKind, Progress, Slot};
use crate::text;
use crate::transform::usage;

pub mod calls;
pub mod documents;
pub mod stop;

verus! {

/// The block of a call.
pub open spec fn slot(tool: ChatToolModel) -> Slot {
    Slot { index: tool.index, begun: tool.started, ended: tool.closed }
}

/// The blocks of calls.
pub open spec fn slots(tools: ChatCalls) -> Seq<Slot> {
    Seq::new(tools.len(), |i: int| slot(tools[i].1))
}

/// No call has ended.
pub open spec fn all_open(tools: ChatCalls) -> bool {
    forall|i: int| 0 <= i < tools.len() ==> !(#[trigger] tools[i]).1.closed
}

/// What was heard agrees with how far an answer has come that is not finished,
/// its calls stand by ascending key and none of them has ended.
pub open spec fn sound(heard: Progress, state: ChatModel) -> bool {
    state.answer.finished || {
        &&& protocol::agrees(heard, state.answer, slots(state.tools))
        &&& chat_stream::ascending(state.tools)
        &&& all_open(state.tools)
    }
}

/// The same of an answer on its way: its events are in order too, and it has begun.
pub open spec fn sound_step(from: Progress, step: ChatStep) -> bool {
    &&& protocol::in_order(from, step.speaking(), slots(step.state.tools), false)
    &&& chat_stream::ascending(step.state.tools)
    &&& all_open(step.state.tools)
    &&& step.state.answer.started
    &&& !step.state.answer.finished
}

/// The pieces of calls in a document.
pub open spec fn calls_in(value: JsonModel) -> Seq<JsonModel> {
    match chat_stream::first_choice(value) {
        Some(choice) => match usage::or_null(choice.field("delta"@)).array_field("tool_calls"@) {
            Some(calls) => calls,
            None => Seq::empty(),
        },
        None => Seq::empty(),
    }
}

/// The greatest number of blocks that the data of a frame can begin.
pub open spec fn blocks_in(data: Seq<char>) -> nat {
    match codec::json_parse(data) {
        Ok(value) => 2 + calls_in(value).len(),
        Err(_) => 0,
    }
}

pub proof fn lemma_with_key(from: Progress, step: ChatStep, key: u64)
    requires
        sound_step(from, step),
        step.state.answer.next_index < u64::MAX,
    ensures
        sound_step(from, step.with_key(key)),
        chat_stream::has_key(step.with_key(key).state.tools, key),
        step.with_key(key).state.answer.next_index <= step.state.answer.next_index + 1,
{
    let tools = step.state.tools;
    let at = chat_stream::place(tools, key);
    chat_stream::lemma_before(tools, key);
    if !chat_stream::has_key(tools, key) {
        let tool = chat_stream::new_tool(step.state.answer.next_index);
        let next = step.with_key(key);
        let more = next.state.tools;
        assert(more == tools.insert(at, (key, tool)));
        protocol::lemma_slot_added(from, step.speaking(), slots(tools), false, at);
        assert(slots(more) =~= slots(tools).insert(at, slot(tool)));
        assert forall|i: int, j: int| 0 <= i < j < more.len() implies (#[trigger] more[i]).0 < (
        #[trigger] more[j]).0 by {
            let a = if i < at { i } else { i - 1 };
            let b = if j < at { j } else { j - 1 };
            if i == at {
                assert(more[j] == tools[b]);
                assert(b > at ==> tools[at].0 < tools[b].0);
            } else if j == at {
                assert(more[i] == tools[a]);
            } else {
                assert(more[i] == tools[a] && more[j] == tools[b]);
            }
        }
        assert forall|i: int| 0 <= i < more.len() implies !(#[trigger] more[i]).1.closed by {
            if i != at {
                assert(more[i] == tools[if i < at { i } else { i - 1 }]);
            }
        }
        assert forall|i: int| 0 <= i < at implies (#[trigger] more[i]).0 < key by {
            assert(more[i] == tools[i]);
        }
        chat_stream::lemma_place(more, key, at);
    }
}

pub proof fn lemma_called(from: Progress, step: ChatStep, call: JsonModel)
    requires
        sound_step(from, step),
        step.state.answer.next_index < u64::MAX,
    ensures
        sound_step(from, step.called(call)),
        step.called(call).state.answer.next_index <= step.state.answer.next_index + 1,
{
    let key = chat_stream::call_key(call);
    lemma_with_key(from, step, key);
    let known = step.with_key(key);
    let tools = known.state.tools;
    let at = chat_stream::place(tools, key);
    chat_stream::lemma_before(tools, key);
    assert(!tools[at].1.closed);
    let before = known.speaking();
    let grown = tools[at].1.grown(call);
    let blocks = slots(tools);
    assert(blocks[at] == slot(grown));
    let begins = !grown.started && (grown.id.len() > 0 || grown.name.len() > 0);
    let begun = if begins {
        before.emit(
            EventModel::ToolStart { index: grown.index, id: grown.id, name: grown.name },
        )
    } else {
        before
    };
    let then = if begins {
        blocks.update(at, (Slot { begun: true, ..blocks[at] }))
    } else {
        blocks
    };
    if begins {
        protocol::lemma_slot_begun(from, before, blocks, false, at, grown.id, grown.name);
    }
    let next = step.called(call);
    if then[at].begun && grown.pending.len() > 0 {
        protocol::lemma_slot_input(from, begun, then, false, at, grown.pending);
    }
    let more = next.state.tools;
    assert(slots(more) =~= then);
    assert forall|i: int, j: int| 0 <= i < j < more.len() implies (#[trigger] more[i]).0 < (
    #[trigger] more[j]).0 by {
        assert(tools[i].0 < tools[j].0);
    }
    assert forall|i: int| 0 <= i < more.len() implies !(#[trigger] more[i]).1.closed by {
        assert(!tools[i].1.closed);
    }
}

pub proof fn lemma_all_called(from: Progress, step: ChatStep, calls: Seq<JsonModel>)
    requires
        sound_step(from, step),
        step.state.answer.next_index + calls.len() <= u64::MAX,
    ensures
        sound_step(from, step.all_called(calls)),
        step.all_called(calls).state.answer.next_index <= step.state.answer.next_index
            + calls.len(),
    decreases calls.len(),
{
    if calls.len() > 0 {
        lemma_all_called(from, step, calls.drop_last());
        lemma_called(from, step.all_called(calls.drop_last()), calls.last());
    }
}

/// Saying the thinking and the text of a piece of an answer keeps it sound.
pub proof fn lemma_spoken(from: Progress, step: ChatStep, delta: JsonModel)
    requires
        sound_step(from, step),
        step.state.answer.next_index + 2 <= u64::MAX,
    ensures
        sound_step(from, step.with_reasoning(delta).with_content(delta)),
        step.with_reasoning(delta).with_content(delta).state.tools == step.state.tools,
        step.with_reasoning(delta).state.answer.next_index >= step.state.answer.next_index,
        step.with_reasoning(delta).with_content(delta).state.answer.next_index
            >= step.with_reasoning(delta).state.answer.next_index,
        step.with_reasoning(delta).with_content(delta).state.answer.next_index
            <= step.state.answer.next_index + 2,
{
    let blocks = slots(step.state.tools);
    if let Some(thinking) = chat_stream::reasoning_of(delta) {
        if thinking.len() > 0 {
            protocol::lemma_thinking_said(from, step.speaking(), blocks, false, thinking);
        }
    }
    let one = step.with_reasoning(delta);
    assert(sound_step(from, one));
    if let Some(said) = delta.text_field("content"@) {
        if said.len() > 0 {
            protocol::lemma_text_said(from, one.speaking(), blocks, false, said);
        }
    }
    let two = one.with_content(delta);
    assert(sound_step(from, two));
}

proof fn lemma_chosen(from: Progress, step: ChatStep, choice: JsonModel, room: nat)
    requires
        sound_step(from, step),
        room == (match usage::or_null(choice.field("delta"@)).array_field("tool_calls"@) {
            Some(calls) => calls.len(),
            None => 0,
        }),
        step.state.answer.next_index + 2 + room <= u64::MAX,
    ensures
        sound_step(from, step.chosen(choice)),
        step.chosen(choice).state.answer.next_index <= step.state.answer.next_index + 2 + room,
{
    let delta = usage::or_null(choice.field("delta"@));
    let blocks = slots(step.state.tools);
    lemma_spoken(from, step, delta);
    let two = step.with_reasoning(delta).with_content(delta);
    if let Some(calls) = delta.array_field("tool_calls"@) {
        protocol::lemma_text_closed(from, two.speaking(), blocks, false);
        protocol::lemma_thinking_closed(from, two.speaking().text_closed(), blocks, false);
        let closed = two.said(two.speaking().text_closed().thinking_closed());
        assert(sound_step(from, closed));
        lemma_all_called(from, closed, calls);
    }
    let three = two.with_calls(delta);
    assert(sound_step(from, three));
    assert(step.chosen(choice).speaking() == three.speaking());
}

proof fn lemma_tools_ended(from: Progress, step: ChatStep, n: int)
    requires
        sound_step(from, step),
        0 <= n <= step.state.tools.len(),
    ensures
        protocol::in_order(
            from,
            step.tools_ended(n).speaking(),
            slots(step.tools_ended(n).state.tools),
            false,
        ),
        step.tools_ended(n).state.answer == step.state.answer,
        step.tools_ended(n).state.tools.len() == step.state.tools.len(),
        forall|i: int|
            0 <= i < step.state.tools.len() ==> (#[trigger] step.tools_ended(n).state.tools[i]).0
                == step.state.tools[i].0 && step.tools_ended(n).state.tools[i].1.index
                == step.state.tools[i].1.index,
        forall|i: int|
            0 <= i < n ==> (#[trigger] step.tools_ended(n).state.tools[i]).1.closed
                && step.tools_ended(n).state.tools[i].1.started,
        forall|i: int|
            n <= i < step.state.tools.len() ==> !(#[trigger] step.tools_ended(
                n,
            ).state.tools[i]).1.closed,
    decreases n,
{
    if n > 0 {
        let at = n - 1;
        lemma_tools_ended(from, step, at);
        let before = step.tools_ended(at);
        let tools = before.state.tools;
        let tool = tools[at].1;
        assert(!tool.closed);
        let blocks = slots(tools);
        assert(blocks[at] == slot(tool));
        let named = if tool.started {
            tool
        } else {
            tool.with_names()
        };
        let begun = if tool.started {
            before.speaking()
        } else {
            before.speaking().emit(
                EventModel::ToolStart { index: named.index, id: named.id, name: named.name },
            )
        };
        let then = blocks.update(at, (Slot { begun: true, ..blocks[at] }));
        if tool.started {
            assert(then =~= blocks);
        } else {
            protocol::lemma_slot_begun(
                from,
                before.speaking(),
                blocks,
                false,
                at,
                named.id,
                named.name,
            );
        }
        let passed = if named.pending.len() > 0 {
            begun.emit(EventModel::InputDelta { index: named.index, json: named.pending })
        } else {
            begun
        };
        if named.pending.len() > 0 {
            protocol::lemma_slot_input(from, begun, then, false, at, named.pending);
        }
        protocol::lemma_slot_ended(from, passed, then, false, at);
        let next = step.tools_ended(n);
        assert forall|i: int| 0 <= i < step.state.tools.len() implies (
        #[trigger] next.state.tools[i]).0 == step.state.tools[i].0 && next.state.tools[i].1.index
            == step.state.tools[i].1.index by {
            assert(tools[i].0 == step.state.tools[i].0);
        }
        assert(slots(next.state.tools) =~= then.update(at, (Slot { ended: true, ..then[at] })));
        assert forall|i: int| n <= i < step.state.tools.len() implies !(
        #[trigger] next.state.tools[i]).1.closed by {
            assert(!tools[i].1.closed);
        }
        assert forall|i: int| 0 <= i < n implies (#[trigger] next.state.tools[i]).1.closed
            && next.state.tools[i].1.started by {
            if i < at {
                assert(tools[i].1.closed);
            }
        }
    }
}

/// The end of an answer comes in order: every block that began has ended once, the
/// blocks have exactly the indices that were taken, those of tools are those of
/// the calls, and the last event is that the answer ends.
pub proof fn law_finish_in_order(heard: Progress, state: ChatModel)
    requires
        sound(heard, state),
    ensures
        heard.hears_all(state.ended().out, false) is Some,
        state.ended().state.answer.finished,
        !state.answer.finished ==> {
            let whole = heard.hears_all(state.ended().out, false)->0;
            &&& protocol::complete_up_to(whole, state.answer.next_index)
            &&& protocol::has_calls(whole, slots(state.tools))
        },
{
    if !state.answer.finished {
        let start = state.silent();
        let blocks = slots(state.tools);
        assert(heard.hears_all(Seq::empty(), false) == Some(heard));
        protocol::lemma_begun(heard, start.speaking(), blocks, false);
        let begun = start.speaking().begun();
        protocol::lemma_text_closed(heard, begun, blocks, false);
        protocol::lemma_thinking_closed(heard, begun.text_closed(), blocks, false);
        let closed = start.said(begun.text_closed().thinking_closed());
        assert(sound_step(heard, closed));
        let n = closed.state.tools.len() as int;
        lemma_tools_ended(heard, closed, n);
        let ended = closed.tools_ended(n);
        let all = slots(ended.state.tools);
        assert forall|k: int| 0 <= k < all.len() implies (#[trigger] all[k]).ended
            && all[k].begun by {
            assert(ended.state.tools[k].1.closed);
        }
        let out = ended.stopped().out;
        protocol::lemma_stopped(heard, ended.speaking(), all, false, out[out.len() - 2]);
        assert(out =~= ended.out.push(out[out.len() - 2]).push(EventModel::MessageStop));
        let whole = heard.hears_all(out, false)->0;
        assert forall|k: int| 0 <= k < blocks.len() implies whole.kinds.dom().contains(
            (#[trigger] blocks[k]).index,
        ) && whole.kinds[blocks[k].index] == BlockKind::Tool by {
            assert(all[k].index == ended.state.tools[k].1.index);
        }
        assert forall|i: u64| #[trigger]
            whole.kinds.dom().contains(i) && whole.kinds[i]
                == BlockKind::Tool implies protocol::is_call(blocks, i) by {
            let k = choose|k: int| 0 <= k < all.len() && (#[trigger] all[k]).index == i;
            assert(ended.state.tools[k].1.index == i);
            assert(blocks[k].index == i);
        }
    }
}

/// The events that the data of a frame makes come in order: the answer begins
/// once and before its blocks, no block takes an index that another had, pieces
/// are given to open blocks of their kind, only open blocks end, and nothing
/// follows the end. This holds as long as there are indices for the blocks.
pub proof fn law_process_in_order(heard: Progress, state: ChatModel, data: Seq<char>)
    requires
        sound(heard, state),
        state.answer.next_index + blocks_in(data) <= u64::MAX,
    ensures
        heard.hears_all(state.processed(data).out, false) is Some,
        sound(
            heard.hears_all(state.processed(data).out, false)->0,
            state.processed(data).state,
        ),
        state.processed(data).state.answer.next_index <= state.answer.next_index + blocks_in(data),
        !state.answer.finished && state.processed(data).state.answer.finished
            ==> protocol::complete_up_to(
            heard.hears_all(state.processed(data).out, false)->0,
            state.processed(data).state.answer.next_index,
        ) || protocol::ends_in_failure(state.processed(data).out),
{
    assert(heard.hears_all(Seq::empty(), false) == Some(heard));
    if state.answer.finished || text::trim_both(data).len() == 0 {
    } else if text::trim_both(data) == "[DONE]"@ {
        law_finish_in_order(heard, state);
        lemma_end_keeps_index(state);
    } else {
        let parsed = codec::json_parse(data);
        match parsed {
            Ok(value) => {
                lemma_told(heard, state, value);
            },
            Err(error) => {
                let event = state.read(parsed).out[0];
                protocol::lemma_hears_push(heard, Seq::empty(), event, false);
                assert(state.read(parsed).out =~= Seq::empty().push(event));
            },
        }
    }
}

proof fn lemma_end_keeps_index(state: ChatModel)
    ensures
        state.ended().state.answer.next_index == state.answer.next_index,
{
    let start = state.silent();
    let closed = start.said(start.speaking().begun().text_closed().thinking_closed());
    lemma_tools_keep_answer(closed, closed.state.tools.len() as int);
}

proof fn lemma_tools_keep_answer(step: ChatStep, n: int)
    ensures
        step.tools_ended(n).state.answer == step.state.answer,
    decreases n,
{
    if n > 0 {
        lemma_tools_keep_answer(step, n - 1);
    }
}

/// Learning the names and the usage of an answer keeps it sound and lets it begin.
pub proof fn lemma_informed(heard: Progress, state: ChatModel, value: JsonModel)
    requires
        sound(heard, state),
        !state.answer.finished,
    ensures
        sound_step(heard, state.informed(value)),
        state.informed(value).state.answer.next_index == state.answer.next_index,
{
    assert(heard.hears_all(Seq::empty(), false) == Some(heard));
    let named = ChatModel {
        answer: state.answer.named(value.text_field("id"@), value.text_field("model"@)),
        ..state
    }.silent();
    let blocks = slots(state.tools);
    assert(protocol::in_order(heard, named.speaking(), blocks, false)) by {
        assert forall|k: int| 0 <= k < blocks.len() implies #[trigger] protocol::slot_agrees(
            heard,
            named.state.answer,
            blocks[k],
        ) by {
            assert(protocol::slot_agrees(heard, state.answer, blocks[k]));
        }
        assert forall|i: u64| #[trigger] heard.open.contains(i) implies protocol::is_of(
            named.state.answer,
            blocks,
            i,
        ) by {
            assert(protocol::is_of(state.answer, blocks, i));
        }
        assert forall|i: u64|
            i < named.state.answer.next_index implies #[trigger] protocol::is_taken(
            heard,
            blocks,
            i,
        ) by {
            assert(protocol::is_taken(heard, blocks, i));
        }
    }
    protocol::lemma_begun(heard, named.speaking(), blocks, false);
    let informed = state.informed(value);
    assert(informed.speaking() == named.speaking().begun());
    assert(sound_step(heard, informed));
}

proof fn lemma_told(heard: Progress, state: ChatModel, value: JsonModel)
    requires
        sound(heard, state),
        !state.answer.finished,
        state.answer.next_index + 2 + calls_in(value).len() <= u64::MAX,
    ensures
        heard.hears_all(state.told(value).out, false) is Some,
        sound(heard.hears_all(state.told(value).out, false)->0, state.told(value).state),
        state.told(value).state.answer.next_index <= state.answer.next_index + 2 + calls_in(
            value,
        ).len(),
        state.told(value).state.answer.finished ==> protocol::ends_in_failure(state.told(value).out),
{
    assert(heard.hears_all(Seq::empty(), false) == Some(heard));
    match value.nested_text("error"@, "message"@) {
        Some(message) => {
            let event = EventModel::Failure { message };
            protocol::lemma_hears_push(heard, Seq::empty(), event, false);
            assert(state.told(value).out =~= Seq::empty().push(event));
        },
        None => {
            lemma_informed(heard, state, value);
            let informed = state.informed(value);
            if let Some(choice) = chat_stream::first_choice(value) {
                lemma_chosen(heard, informed, choice, calls_in(value).len());
            }
        },
    }
}

/// An answer from its beginning, through the data of frames.
pub open spec fn run(frames: Seq<Seq<char>>) -> ChatStep
    decreases frames.len(),
{
    if frames.len() == 0 {
        chat_stream::new_chat().silent()
    } else {
        let before = run(frames.drop_last());
        let now = before.state.processed(frames.last());
        ChatStep { state: now.state, out: before.out + now.out }
    }
}

/// The whole of an answer: what the data of frames makes, and its end.
pub open spec fn whole(frames: Seq<Seq<char>>) -> Seq<EventModel> {
    run(frames).out + run(frames).state.ended().out
}

/// The greatest number of blocks that the data of frames can begin.
pub open spec fn blocks_in_all(frames: Seq<Seq<char>>) -> nat
    decreases frames.len(),
{
    if frames.len() == 0 {
        0
    } else {
        blocks_in_all(frames.drop_last()) + blocks_in(frames.last())
    }
}

pub proof fn lemma_run(frames: Seq<Seq<char>>)
    requires
        blocks_in_all(frames) <= u64::MAX,
    ensures
        ({
            let heard = protocol::nothing_heard().hears_all(run(frames).out, false);
            &&& heard is Some
            &&& sound(heard->0, run(frames).state)
            &&& run(frames).state.answer.finished ==> protocol::complete_up_to(
                heard->0,
                run(frames).state.answer.next_index,
            ) || protocol::ends_in_failure(run(frames).out)
        }),
        run(frames).state.answer.next_index <= blocks_in_all(frames),
    decreases frames.len(),
{
    let start = protocol::nothing_heard();
    if frames.len() > 0 {
        lemma_run(frames.drop_last());
        let before = run(frames.drop_last());
        let heard = start.hears_all(before.out, false)->0;
        law_process_in_order(heard, before.state, frames.last());
        let now = before.state.processed(frames.last());
        protocol::lemma_hears_both(start, before.out, now.out, false);
        if before.state.answer.finished {
            assert(before.out + now.out =~= before.out);
        }
    }
}

/// Whatever the frames say, the events of the whole answer come in order, and
/// at its end every block that began has ended exactly once and the indices of the
/// blocks are exactly those below the number of blocks, unless the last event is a
/// failure. This holds as long as there are indices for the blocks.
pub proof fn law_answer_in_order(frames: Seq<Seq<char>>)
    requires
        blocks_in_all(frames) <= u64::MAX,
    ensures
        match protocol::nothing_heard().hears_all(whole(frames), false) {
            Some(heard) => protocol::complete_up_to(
                heard,
                run(frames).state.answer.next_index,
            ) || protocol::ends_in_failure(whole(frames)),
            None => false,
        },
{
    lemma_run(frames);
    let start = protocol::nothing_heard();
    let before = run(frames);
    let heard = start.hears_all(before.out, false)->0;
    law_finish_in_order(heard, before.state);
    protocol::lemma_hears_both(start, before.out, before.state.ended().out, false);
    if before.state.answer.finished {
        assert(whole(frames) =~= before.out);
    }
}

/// Whether the data of a frame is read as a document: it is not blank and does not
/// say that the answer is done.
pub open spec fn is_read(data: Seq<char>) -> bool {
    text::trim_both(data).len() > 0 && text::trim_both(data) != "[DONE]"@
}

/// Whether the data of a frame tells of an error.
pub open spec fn tells_error(data: Seq<char>) -> bool {
    is_read(data) && (codec::json_parse(data) matches Ok(value) && value.nested_text(
        "error"@,
        "message"@,
    ) is Some)
}

/// Whether no frame tells of an error.
pub open spec fn no_errors(frames: Seq<Seq<char>>) -> bool {
    forall|i: int| 0 <= i < frames.len() ==> !tells_error(#[trigger] frames[i])
}

proof fn lemma_run_without_errors(frames: Seq<Seq<char>>)
    requires
        blocks_in_all(frames) <= u64::MAX,
        no_errors(frames),
    ensures
        run(frames).state.answer.finished ==> protocol::complete_up_to(
            protocol::nothing_heard().hears_all(run(frames).out, false)->0,
            run(frames).state.answer.next_index,
        ),
    decreases frames.len(),
{
    if frames.len() > 0 {
        let rest = frames.drop_last();
        let data = frames.last();
        assert forall|i: int| 0 <= i < rest.len() implies !tells_error(#[trigger] rest[i]) by {
            assert(rest[i] == frames[i]);
        }
        assert(!tells_error(frames[frames.len() - 1]));
        lemma_run_without_errors(rest);
        lemma_run(rest);
        lemma_run(frames);
        let start = protocol::nothing_heard();
        let before = run(rest);
        let heard = start.hears_all(before.out, false)->0;
        let now = before.state.processed(data);
        if before.state.answer.finished {
            assert(before.out + now.out =~= before.out);
        } else if now.state.answer.finished {
            law_process_in_order(heard, before.state, data);
            protocol::lemma_hears_both(start, before.out, now.out, false);
            if is_read(data) {
                if let Ok(value) = codec::json_parse(data) {
                    lemma_told(heard, before.state, value);
                    lemma_told_goes_on(before.state, value);
                }
            }
            assert(text::trim_both(data) == "[DONE]"@);
            assert(now.out.last() is MessageStop);
        }
    }
}

/// A document that tells of no error does not finish an answer.
pub proof fn lemma_told_goes_on(state: ChatModel, value: JsonModel)
    requires
        !state.answer.finished,
        value.nested_text("error"@, "message"@) is None,
    ensures
        !state.told(value).state.answer.finished,
{
    let informed = state.informed(value);
    if let Some(choice) = chat_stream::first_choice(value) {
        let delta = usage::or_null(choice.field("delta"@));
        let two = informed.with_reasoning(delta).with_content(delta);
        if let Some(calls) = delta.array_field("tool_calls"@) {
            lemma_calls_go_on(
                two.said(two.speaking().text_closed().thinking_closed()),
                calls,
            );
        }
    }
}

proof fn lemma_calls_go_on(step: ChatStep, calls: Seq<JsonModel>)
    ensures
        step.all_called(calls).state.answer.finished == step.state.answer.finished,
    decreases calls.len(),
{
    if calls.len() > 0 {
        lemma_calls_go_on(step, calls.drop_last());
    }
}

/// The whole of an answer in which no frame tells of an error is well formed: it
/// begins once and before its blocks, the indices of its blocks are exactly those
/// below their number, each block begins once and ends once, and the answer says
/// why it stops and ends, once and last. This holds as long as there are indices
/// for the blocks.
pub proof fn law_answer_is_well_formed(frames: Seq<Seq<char>>)
    requires
        blocks_in_all(frames) <= u64::MAX,
        no_errors(frames),
    ensures
        protocol::nothing_heard().hears_all(whole(frames), false) is Some,
        protocol::well_formed(whole(frames), run(frames).state.answer.next_index),
        run(frames).state.ended().state.ended().out == Seq::<EventModel>::empty(),
{
    lemma_run(frames);
    lemma_run_without_errors(frames);
    let start = protocol::nothing_heard();
    let before = run(frames);
    let heard = start.hears_all(before.out, false)->0;
    law_finish_in_order(heard, before.state);
    protocol::lemma_hears_both(start, before.out, before.state.ended().out, false);
    if before.state.answer.finished {
        assert(whole(frames) =~= before.out);
    }
    protocol::law_complete_is_well_formed(
        whole(frames),
        before.state.answer.next_index,
        false,
    );
}

/// A finished answer says nothing more and stays as it is, whatever comes.
pub proof fn law_finished_is_silent(state: ChatModel, data: Seq<char>)
    requires
        state.answer.finished,
    ensures
        state.processed(data) == state.silent(),
        state.ended() == state.silent(),
{
}

/// The names of an answer stay once they are known.
pub proof fn law_names_stay(state: ChatModel, value: JsonModel)
    ensures
        state.answer.id.len() > 0 ==> state.informed(value).state.answer.id == state.answer.id,
        state.answer.model.len() > 0 ==> state.informed(value).state.answer.model
            == state.answer.model,
{
}

/// The text in a document.
pub open spec fn text_in(value: JsonModel) -> Seq<char> {
    match chat_stream::first_choice(value) {
        Some(choice) => match usage::or_null(choice.field("delta"@)).text_field("content"@) {
            Some(text) => text,
            None => Seq::empty(),
        },
        None => Seq::empty(),
    }
}

/// The thinking in a document.
pub open spec fn thinking_in(value: JsonModel) -> Seq<char> {
    match chat_stream::first_choice(value) {
        Some(choice) => match chat_stream::reasoning_of(
            usage::or_null(choice.field("delta"@)),
        ) {
            Some(thinking) => thinking,
            None => Seq::empty(),
        },
        None => Seq::empty(),
    }
}

/// A piece of a call is no text and no thinking, and its input is passed on or
/// waits: nothing of it is lost and nothing comes twice.
pub proof fn law_call_passes_input_on(step: ChatToolStep, call: JsonModel)
    ensures
        ({
            let next = step.called(call);
            let before = event::said(step.out);
            let now = event::said(next.out);
            &&& now.text == before.text
            &&& now.thinking == before.thinking
            &&& now.input + next.tool.pending == before.input + chat_stream::extended(
                step.tool.pending,
                call.nested_text("function"@, "arguments"@),
            )
        }),
{
    let grown = ChatToolStep { tool: step.tool.grown(call), ..step };
    let tool = grown.tool;
    let before = event::said(step.out);
    event::lemma_said_push(
        step.out,
        EventModel::ToolStart { index: tool.index, id: tool.id, name: tool.name },
    );
    let known = if !tool.started && (tool.id.len() > 0 || tool.name.len() > 0) {
        grown.begun()
    } else {
        grown
    };
    event::lemma_said_push(
        known.out,
        EventModel::InputDelta { index: tool.index, json: tool.pending },
    );
    let next = step.called(call);
    assert(event::said(next.out).input + next.tool.pending =~= before.input + tool.pending);
}

/// The end of a call passes on what waits of its input.
pub proof fn law_end_passes_input_on(step: ChatToolStep)
    ensures
        ({
            let next = step.ended();
            let before = event::said(step.out);
            let now = event::said(next.out);
            &&& now.text == before.text
            &&& now.thinking == before.thinking
            &&& now.input == before.input + step.tool.pending
            &&& next.tool.pending.len() == 0
        }),
{
    let named = step.tool.with_names();
    let before = event::said(step.out);
    event::lemma_said_push(
        step.out,
        EventModel::ToolStart { index: named.index, id: named.id, name: named.name },
    );
    let known = if step.tool.started {
        step
    } else {
        ChatToolStep { tool: named, ..step }.begun()
    };
    event::lemma_said_push(
        known.out,
        EventModel::InputDelta { index: known.tool.index, json: known.tool.pending },
    );
    let passed = known.flushed();
    event::lemma_said_push(passed.out, EventModel::BlockStop { index: passed.tool.index });
    assert(event::said(step.ended().out).input =~= before.input + step.tool.pending);
}

proof fn lemma_calls_say_no_text(step: ChatStep, calls: Seq<JsonModel>)
    ensures
        event::said(step.all_called(calls).out).text == event::said(step.out).text,
        event::said(step.all_called(calls).out).thinking == event::said(step.out).thinking,
    decreases calls.len(),
{
    if calls.len() > 0 {
        lemma_calls_say_no_text(step, calls.drop_last());
        let before = step.all_called(calls.drop_last());
        let key = chat_stream::call_key(calls.last());
        let known = before.with_key(key);
        let at = chat_stream::place(known.state.tools, key);
        law_call_passes_input_on(
            ChatToolStep { tool: known.state.tools[at].1, out: known.out },
            calls.last(),
        );
    }
}

/// The text and the thinking of a document are passed on once and as they are.
pub proof fn law_text_is_passed_on(state: ChatModel, value: JsonModel)
    requires
        value.nested_text("error"@, "message"@) is None,
    ensures
        event::said(state.told(value).out).text == text_in(value),
        event::said(state.told(value).out).thinking == thinking_in(value),
{
    let named = ChatModel {
        answer: state.answer.named(value.text_field("id"@), value.text_field("model"@)),
        ..state
    }.silent();
    answer::lemma_frame_says_nothing(named.speaking());
    let informed = state.informed(value);
    assert(informed.out == named.speaking().begun().out);
    let none = event::said(Seq::empty());
    assert(event::said(informed.out) == none);
    if let Some(choice) = chat_stream::first_choice(value) {
        let delta = usage::or_null(choice.field("delta"@));
        let thinking = thinking_in(value);
        let said = text_in(value);
        answer::lemma_pieces_are_said(informed.speaking(), thinking);
        let one = informed.with_reasoning(delta);
        assert(event::said(one.out).thinking =~= thinking);
        answer::lemma_pieces_are_said(one.speaking(), said);
        let two = one.with_content(delta);
        assert(event::said(two.out).text =~= said);
        answer::lemma_frame_says_nothing(two.speaking());
        answer::lemma_frame_says_nothing(two.speaking().text_closed());
        let closed = two.said(two.speaking().text_closed().thinking_closed());
        lemma_calls_say_no_text(closed, calls_in(value));
    } else {
        assert(none.text =~= Seq::<char>::empty());
    }
}

/// The text that the data of a frame brings.
pub open spec fn frame_text(data: Seq<char>) -> Seq<char> {
    if is_read(data) && !tells_error(data) {
        match codec::json_parse(data) {
            Ok(value) => text_in(value),
            Err(_) => Seq::empty(),
        }
    } else {
        Seq::empty()
    }
}

/// The thinking that the data of a frame brings.
pub open spec fn frame_thinking(data: Seq<char>) -> Seq<char> {
    if is_read(data) && !tells_error(data) {
        match codec::json_parse(data) {
            Ok(value) => thinking_in(value),
            Err(_) => Seq::empty(),
        }
    } else {
        Seq::empty()
    }
}

/// The text that the data of frames brings until the answer is finished.
pub open spec fn text_sent(frames: Seq<Seq<char>>) -> Seq<char>
    decreases frames.len(),
{
    if frames.len() == 0 {
        Seq::empty()
    } else if run(frames.drop_last()).state.answer.finished {
        text_sent(frames.drop_last())
    } else {
        text_sent(frames.drop_last()) + frame_text(frames.last())
    }
}

/// The thinking that the data of frames brings until the answer is finished.
pub open spec fn thinking_sent(frames: Seq<Seq<char>>) -> Seq<char>
    decreases frames.len(),
{
    if frames.len() == 0 {
        Seq::empty()
    } else if run(frames.drop_last()).state.answer.finished {
        thinking_sent(frames.drop_last())
    } else {
        thinking_sent(frames.drop_last()) + frame_thinking(frames.last())
    }
}

proof fn lemma_tools_end_says_no_text(step: ChatStep, n: int)
    ensures
        event::said(step.tools_ended(n).out).text == event::said(step.out).text,
        event::said(step.tools_ended(n).out).thinking == event::said(step.out).thinking,
    decreases n,
{
    if n > 0 {
        lemma_tools_end_says_no_text(step, n - 1);
        let before = step.tools_ended(n - 1);
        law_end_passes_input_on(
            ChatToolStep { tool: before.state.tools[n - 1].1, out: before.out },
        );
    }
}

proof fn lemma_end_says_no_text(state: ChatModel)
    ensures
        event::said(state.ended().out).text == Seq::<char>::empty(),
        event::said(state.ended().out).thinking == Seq::<char>::empty(),
{
    if !state.answer.finished {
        let start = state.silent();
        let begun = start.speaking().begun();
        answer::lemma_frame_says_nothing(start.speaking());
        answer::lemma_frame_says_nothing(begun);
        answer::lemma_frame_says_nothing(begun.text_closed());
        let closed = start.said(begun.text_closed().thinking_closed());
        let n = closed.state.tools.len() as int;
        lemma_tools_end_says_no_text(closed, n);
        let ended = closed.tools_ended(n);
        let out = ended.stopped().out;
        let stop = out[out.len() - 2];
        assert(out =~= ended.out.push(stop).push(EventModel::MessageStop));
        event::lemma_said_push(ended.out, stop);
        event::lemma_said_push(ended.out.push(stop), EventModel::MessageStop);
    }
}

proof fn lemma_processed_says(state: ChatModel, data: Seq<char>)
    requires
        !state.answer.finished,
    ensures
        event::said(state.processed(data).out).text == frame_text(data),
        event::said(state.processed(data).out).thinking == frame_thinking(data),
{
    if is_read(data) {
        let parsed = codec::json_parse(data);
        let out = state.read(parsed).out;
        if parsed is Err || tells_error(data) {
            assert(out =~= Seq::empty().push(out[0]));
            event::lemma_said_push(Seq::empty(), out[0]);
        } else {
            law_text_is_passed_on(state, parsed->Ok_0);
        }
    } else {
        lemma_end_says_no_text(state);
    }
}

/// Over a whole answer the text and the thinking that came are passed on once, in
/// their order and as they are, and nothing else is said; its end adds nothing.
pub proof fn law_text_of_an_answer(frames: Seq<Seq<char>>)
    ensures
        event::said(run(frames).out).text == text_sent(frames),
        event::said(run(frames).out).thinking == thinking_sent(frames),
        event::said(whole(frames)).text == text_sent(frames),
        event::said(whole(frames)).thinking == thinking_sent(frames),
    decreases frames.len(),
{
    if frames.len() > 0 {
        law_text_of_an_answer(frames.drop_last());
        let before = run(frames.drop_last());
        let data = frames.last();
        let now = before.state.processed(data);
        event::lemma_said_both(before.out, now.out);
        if before.state.answer.finished {
            assert(before.out + now.out =~= before.out);
        } else {
            lemma_processed_says(before.state, data);
        }
    }
    let all = run(frames);
    lemma_end_says_no_text(all.state);
    event::lemma_said_both(all.out, all.state.ended().out);
    assert(text_sent(frames) + Seq::<char>::empty() =~= text_sent(frames));
    assert(thinking_sent(frames) + Seq::<char>::empty() =~= thinking_sent(frames));
}

/// A frame that says the answer is done ends it as the end of the stream does, and
/// what follows it does not count.
pub proof fn law_done_is_the_end(frames: Seq<Seq<char>>, done: Seq<char>, more: Seq<Seq<char>>)
    requires
        text::trim_both(done) == "[DONE]"@,
    ensures
        whole(frames.push(done) + more) == whole(frames),
        run(frames.push(done) + more).state.answer.finished,
    decreases more.len(),
{
    reveal_strlit("[DONE]");
    let all = frames.push(done);
    if more.len() == 0 {
        assert(all + more =~= all);
        assert(all.drop_last() =~= frames);
        let before = run(frames);
        if before.state.answer.finished {
            assert(before.out + before.state.processed(done).out =~= before.out);
        }
        assert(run(all).out + Seq::<EventModel>::empty() =~= run(all).out);
    } else {
        law_done_is_the_end(frames, done, more.drop_last());
        assert((all + more).drop_last() =~= all + more.drop_last());
        let before = run(all + more.drop_last());
        assert(before.out + Seq::<EventModel>::empty() =~= before.out);
    }
}

}
