//! What holds of every answer that comes through the Responses protocol.
use vstd::prelude::*;

use crate::answer::{self, AnswerStep};
use crate::event::{self, EventModel, SaidModel};
use crate::json::codec;
use crate::json::JsonModel;
use crate::protocol::{self, Progress, Slot};
use crate::responses_stream::{
    self, ResponsesCalls, ResponsesModel, ResponsesStep, ResponsesToolModel, ResponsesToolStep,
};
use crate::sse::FrameModel;
use crate::text;

pub mod calls;
pub mod documents;
pub mod stop;

verus! {

/// The block of a call.
pub open spec fn slot(tool: ResponsesToolModel) -> Slot {
    Slot { index: tool.index, begun: tool.started, ended: tool.closed }
}

/// The blocks of calls.
pub open spec fn slots(tools: ResponsesCalls) -> Seq<Slot> {
    Seq::new(tools.len(), |i: int| slot(tools[i].1))
}

/// Every call has begun.
pub open spec fn all_begun(tools: ResponsesCalls) -> bool {
    forall|i: int| 0 <= i < tools.len() ==> (#[trigger] tools[i]).1.started
}

/// What was heard agrees with how far an answer has come that is not finished,
/// its calls stand by ascending key and all of them have begun.
pub open spec fn sound(heard: Progress, state: ResponsesModel) -> bool {
    state.answer.finished || {
        &&& protocol::agrees(heard, state.answer, slots(state.tools))
        &&& responses_stream::ascending(state.tools)
        &&& all_begun(state.tools)
    }
}

/// The same of an answer on its way: its events are in order too, and it has begun.
pub open spec fn sound_step(from: Progress, step: ResponsesStep) -> bool {
    &&& protocol::in_order(from, step.speaking(), slots(step.state.tools), true)
    &&& responses_stream::ascending(step.state.tools)
    &&& all_begun(step.state.tools)
    &&& step.state.answer.started
    &&& !step.state.answer.finished
}

pub proof fn lemma_tool_known(from: Progress, step: ResponsesStep, key: Seq<char>, item: JsonModel)
    requires
        sound_step(from, step),
        step.state.answer.next_index < u64::MAX,
    ensures
        sound_step(from, step.tool_known(key, item)),
        responses_stream::has_key(step.tool_known(key, item).state.tools, key),
        step.tool_known(key, item).state.answer.next_index <= step.state.answer.next_index + 1,
{
    let blocks = slots(step.state.tools);
    protocol::lemma_text_closed(from, step.speaking(), blocks, true);
    protocol::lemma_thinking_closed(from, step.speaking().text_closed(), blocks, true);
    let closed = step.said(step.speaking().text_closed().thinking_closed());
    let tools = closed.state.tools;
    let at = responses_stream::place(tools, key);
    responses_stream::lemma_before(tools, key);
    let alone = closed.with_key(key);
    let more = alone.state.tools;
    responses_stream::lemma_has_key(closed, key);
    let next = step.tool_known(key, item);
    let named = more[at].1.named(item);
    if responses_stream::has_key(tools, key) {
        assert(tools[at].1.started);
        assert(slots(next.state.tools) =~= blocks);
    } else {
        let tool = responses_stream::new_tool(closed.state.answer.next_index);
        protocol::lemma_slot_added(from, closed.speaking(), blocks, true, at);
        let fresh = slots(more);
        assert(fresh =~= blocks.insert(at, slot(tool)));
        protocol::lemma_slot_begun(
            from,
            alone.speaking(),
            fresh,
            true,
            at,
            named.id,
            named.name,
        );
        assert(slots(next.state.tools) =~= fresh.update(at, (Slot { begun: true, ..fresh[at] })));
    }
    lemma_more_ascends(closed, key);
    let last = next.state.tools;
    assert forall|i: int, j: int| 0 <= i < j < last.len() implies text::precedes(
        (#[trigger] last[i]).0,
        (#[trigger] last[j]).0,
    ) by {
        assert(text::precedes(more[i].0, more[j].0));
    }
    assert forall|i: int| 0 <= i < last.len() implies (#[trigger] last[i]).1.started by {
        if i != at {
            assert(last[i] == more[i]);
            if responses_stream::has_key(tools, key) {
                assert(tools[i].1.started);
            } else {
                assert(more[i] == tools[if i < at { i } else { i - 1 }]);
            }
        }
    }
    responses_stream::lemma_same_place(more, key, next.state.tools[at].1);
}

pub proof fn lemma_more_ascends(step: ResponsesStep, key: Seq<char>)
    requires
        responses_stream::ascending(step.state.tools),
    ensures
        responses_stream::ascending(step.with_key(key).state.tools),
{
    let tools = step.state.tools;
    let at = responses_stream::place(tools, key);
    responses_stream::lemma_before(tools, key);
    if !responses_stream::has_key(tools, key) {
        let more = step.with_key(key).state.tools;
        assert forall|i: int, j: int| 0 <= i < j < more.len() implies text::precedes(
            (#[trigger] more[i]).0,
            (#[trigger] more[j]).0,
        ) by {
            let a = if i < at { i } else { i - 1 };
            let b = if j < at { j } else { j - 1 };
            if i == at {
                assert(more[j] == tools[b]);
                text::lemma_precedes_total(tools[at].0, key);
                if b > at {
                    assert(text::precedes(tools[at].0, tools[b].0));
                    text::lemma_precedes_on(key, tools[at].0, tools[b].0);
                }
            } else if j == at {
                assert(more[i] == tools[a]);
            } else {
                assert(more[i] == tools[a] && more[j] == tools[b]);
            }
        }
    }
}

/// A call that is known may be given input.
proof fn lemma_input(from: Progress, step: ResponsesStep, at: int, json: Seq<char>)
    requires
        sound_step(from, step),
        0 <= at < step.state.tools.len(),
    ensures
        protocol::in_order(
            from,
            step.speaking().emit(
                EventModel::InputDelta { index: step.state.tools[at].1.index, json },
            ),
            slots(step.state.tools),
            true,
        ),
{
    let blocks = slots(step.state.tools);
    assert(step.state.tools[at].1.started);
    assert(blocks[at] == slot(step.state.tools[at].1));
    protocol::lemma_slot_input(from, step.speaking(), blocks, true, at, json);
}

/// A call that changes as its events tell stays sound.
proof fn lemma_with_tool(
    from: Progress,
    step: ResponsesStep,
    at: int,
    said: Slot,
    tool: ResponsesToolStep,
)
    requires
        sound_step(from, step),
        0 <= at < step.state.tools.len(),
        tool.tool.started,
        said == slot(tool.tool),
        protocol::in_order(
            from,
            (AnswerStep { answer: step.state.answer, out: tool.out }),
            slots(step.state.tools).update(at, said),
            true,
        ),
    ensures
        sound_step(from, step.with_tool(at, tool)),
{
    let tools = step.state.tools;
    let new = step.with_tool(at, tool).state.tools;
    assert(slots(new) =~= slots(tools).update(at, said));
    assert forall|i: int, j: int| 0 <= i < j < new.len() implies text::precedes(
        (#[trigger] new[i]).0,
        (#[trigger] new[j]).0,
    ) by {
        assert(text::precedes(tools[i].0, tools[j].0));
    }
    assert forall|i: int| 0 <= i < new.len() implies (#[trigger] new[i]).1.started by {
        assert(tools[i].1.started);
    }
}

pub proof fn lemma_input_given(from: Progress, step: ResponsesStep, value: JsonModel)
    requires
        sound_step(from, step),
        step.state.answer.next_index < u64::MAX,
    ensures
        sound_step(from, step.input_given(value)),
        step.input_given(value).state.answer.next_index <= step.state.answer.next_index + 1,
{
    let key = responses_stream::key_of(value, JsonModel::Null);
    let item = responses_stream::placeholder(value);
    lemma_tool_known(from, step, key, item);
    let known = step.tool_known(key, item);
    responses_stream::lemma_before(known.state.tools, key);
    if let Some(piece) = value.text_field("delta"@) {
        let at = responses_stream::place(known.state.tools, key);
        lemma_input(from, known, at, piece);
        let blocks = slots(known.state.tools);
        assert(known.state.tools[at].1.started);
        assert(blocks.update(at, slot(known.state.tools[at].1)) =~= blocks);
        let tool = known.tool(at).given(piece);
        lemma_with_tool(from, known, at, slot(tool.tool), tool);
    }
}

proof fn lemma_closed(from: Progress, step: ResponsesStep, at: int)
    requires
        sound_step(from, step),
        0 <= at < step.state.tools.len(),
    ensures
        sound_step(from, step.with_tool(at, step.tool(at).closed())),
{
    let blocks = slots(step.state.tools);
    let tool = step.state.tools[at].1;
    assert(tool.started);
    assert(blocks[at] == slot(tool));
    if !tool.closed {
        protocol::lemma_slot_ended(from, step.speaking(), blocks, true, at);
    } else {
        assert(blocks.update(at, slot(tool)) =~= blocks);
    }
    let closed = step.tool(at).closed();
    lemma_with_tool(from, step, at, slot(closed.tool), closed);
}

pub proof fn lemma_item_done(from: Progress, step: ResponsesStep, value: JsonModel, item: JsonModel)
    requires
        sound_step(from, step),
        step.state.answer.next_index < u64::MAX,
    ensures
        sound_step(from, step.item_done(value, item)),
        step.item_done(value, item).state.answer.next_index <= step.state.answer.next_index + 1,
{
    let key = responses_stream::key_of(value, item);
    lemma_tool_known(from, step, key, item);
    let known = step.tool_known(key, item);
    responses_stream::lemma_before(known.state.tools, key);
    let at = responses_stream::place(known.state.tools, key);
    let arguments = responses_stream::or_empty(item.text_field("arguments"@));
    let tool = known.state.tools[at].1;
    if !tool.emitted && arguments.len() > 0 {
        lemma_input(from, known, at, arguments);
        let passed = known.said(
            known.speaking().emit(EventModel::InputDelta { index: tool.index, json: arguments }),
        );
        lemma_closed(from, passed, at);
        assert(passed.with_tool(at, passed.tool(at).closed()) == step.item_done(value, item));
    } else {
        lemma_closed(from, known, at);
    }
}

pub proof fn lemma_tools_ended(from: Progress, step: ResponsesStep, n: int)
    requires
        sound_step(from, step),
        0 <= n <= step.state.tools.len(),
    ensures
        sound_step(from, step.tools_ended(n)),
        step.tools_ended(n).state.answer == step.state.answer,
        step.tools_ended(n).state.tools.len() == step.state.tools.len(),
        forall|i: int| 0 <= i < n ==> (#[trigger] step.tools_ended(n).state.tools[i]).1.closed,
    decreases n,
{
    if n > 0 {
        lemma_tools_ended(from, step, n - 1);
        let before = step.tools_ended(n - 1);
        lemma_closed(from, before, n - 1);
        let next = step.tools_ended(n);
        assert forall|i: int| 0 <= i < n implies (#[trigger] next.state.tools[i]).1.closed by {
            if i < n - 1 {
                assert(before.state.tools[i].1.closed);
            }
        }
    }
}

proof fn lemma_ended(from: Progress, step: ResponsesStep)
    requires
        protocol::in_order(from, step.speaking(), slots(step.state.tools), true),
        responses_stream::ascending(step.state.tools),
        all_begun(step.state.tools),
        !step.state.answer.finished,
    ensures
        from.hears_all(step.ended().out, true) is Some,
        step.ended().state.answer.finished,
        step.ended().state.answer.next_index == step.state.answer.next_index,
        protocol::complete_up_to(
            from.hears_all(step.ended().out, true)->0,
            step.state.answer.next_index,
        ),
{
    let blocks = slots(step.state.tools);
    protocol::lemma_begun(from, step.speaking(), blocks, true);
    let begun = step.speaking().begun();
    protocol::lemma_text_closed(from, begun, blocks, true);
    protocol::lemma_thinking_closed(from, begun.text_closed(), blocks, true);
    let closed = step.said(begun.text_closed().thinking_closed());
    assert(sound_step(from, closed));
    let n = closed.state.tools.len() as int;
    lemma_tools_ended(from, closed, n);
    let ended = closed.tools_ended(n);
    let all = slots(ended.state.tools);
    assert forall|k: int| 0 <= k < all.len() implies (#[trigger] all[k]).ended
        && all[k].begun by {
        assert(ended.state.tools[k].1.closed && ended.state.tools[k].1.started);
    }
    let out = ended.stopped().out;
    protocol::lemma_stopped(from, ended.speaking(), all, true, out[out.len() - 2]);
    assert(out =~= ended.out.push(out[out.len() - 2]).push(EventModel::MessageStop));
}

/// The end of an answer comes in order: every block that began has ended once, the
/// blocks have exactly the indices that were taken, and the last event is that the
/// answer ends.
pub proof fn law_finish_in_order(heard: Progress, state: ResponsesModel)
    requires
        sound(heard, state),
    ensures
        heard.hears_all(state.ended().out, true) is Some,
        state.ended().state.answer.finished,
        state.ended().state.answer.next_index == state.answer.next_index,
        !state.answer.finished ==> protocol::complete_up_to(
            heard.hears_all(state.ended().out, true)->0,
            state.answer.next_index,
        ),
{
    assert(heard.hears_all(Seq::empty(), true) == Some(heard));
    if !state.answer.finished {
        lemma_ended(heard, state.silent());
    }
}

proof fn lemma_told(from: Progress, step: ResponsesStep, kind: Seq<char>, value: JsonModel)
    requires
        sound_step(from, step),
        step.state.answer.next_index < u64::MAX,
    ensures
        from.hears_all(step.told(kind, value).out, true) is Some,
        sound(from.hears_all(step.told(kind, value).out, true)->0, step.told(kind, value).state),
        step.told(kind, value).state.answer.next_index <= step.state.answer.next_index + 1,
        step.told(kind, value).state.answer.finished ==> protocol::complete_up_to(
            from.hears_all(step.told(kind, value).out, true)->0,
            step.told(kind, value).state.answer.next_index,
        ),
{
    let blocks = slots(step.state.tools);
    let speaking = step.speaking();
    protocol::lemma_text_open(from, speaking, blocks, true);
    protocol::lemma_thinking_open(from, speaking, blocks, true);
    protocol::lemma_text_closed(from, speaking, blocks, true);
    protocol::lemma_thinking_closed(from, speaking, blocks, true);
    if let Some(piece) = value.text_field("delta"@) {
        protocol::lemma_text_said(from, speaking, blocks, true, piece);
        protocol::lemma_thinking_said(from, speaking, blocks, true, piece);
    }
    if let Some(item) = responses_stream::called_item(value) {
        lemma_tool_known(from, step, responses_stream::key_of(value, item), item);
        lemma_item_done(from, step, value, item);
    }
    lemma_input_given(from, step, value);
    lemma_ended(from, step);
}

pub proof fn lemma_informed(heard: Progress, state: ResponsesModel, value: JsonModel)
    requires
        sound(heard, state),
        !state.answer.finished,
    ensures
        sound(heard, state.informed(value)),
        !state.informed(value).answer.finished,
        state.informed(value).answer.next_index == state.answer.next_index,
{
    let blocks = slots(state.tools);
    let answer = state.informed(value).answer;
    assert forall|k: int| 0 <= k < blocks.len() implies #[trigger] protocol::slot_agrees(
        heard,
        answer,
        blocks[k],
    ) by {
        assert(protocol::slot_agrees(heard, state.answer, blocks[k]));
    }
    assert forall|i: u64| #[trigger] heard.open.contains(i) implies protocol::is_of(
        answer,
        blocks,
        i,
    ) by {
        assert(protocol::is_of(state.answer, blocks, i));
    }
}

/// The events that a frame makes come in order: the answer begins once and
/// before its blocks, no block takes an index that another had, pieces of text
/// and thinking are given to open blocks of their kind and input to blocks of
/// tools that have begun, only open blocks end, and nothing follows the end.
/// This holds as long as there is an index for one more block.
pub proof fn law_process_in_order(
    heard: Progress,
    state: ResponsesModel,
    event_name: Option<Seq<char>>,
    data: Seq<char>,
)
    requires
        sound(heard, state),
        state.answer.next_index < u64::MAX,
    ensures
        heard.hears_all(state.processed(event_name, data).out, true) is Some,
        sound(
            heard.hears_all(state.processed(event_name, data).out, true)->0,
            state.processed(event_name, data).state,
        ),
        state.processed(event_name, data).state.answer.next_index <= state.answer.next_index + 1,
        !state.answer.finished && state.processed(event_name, data).state.answer.finished
            ==> protocol::complete_up_to(
            heard.hears_all(state.processed(event_name, data).out, true)->0,
            state.processed(event_name, data).state.answer.next_index,
        ) || protocol::ends_in_failure(state.processed(event_name, data).out),
{
    let none = Seq::<EventModel>::empty();
    assert(heard.hears_all(none, true) == Some(heard));
    if text::trim_both(data) == "[DONE]"@ {
        law_finish_in_order(heard, state);
    } else if state.answer.finished || text::trim_both(data).len() == 0 {
    } else {
        let parsed = codec::json_parse(data);
        let step = state.read(event_name, parsed);
        match parsed {
            Ok(value) => {
                lemma_informed(heard, state, value);
                let informed = state.informed(value);
                if step.out == seq![step.out[0]] && step.out[0] is Failure {
                    protocol::lemma_hears_push(heard, none, step.out[0], true);
                    assert(step.out =~= none.push(step.out[0]));
                }
                let start = informed.silent();
                protocol::lemma_begun(heard, start.speaking(), slots(state.tools), true);
                let begun = start.said(start.speaking().begun());
                assert(sound_step(heard, begun));
                lemma_told(
                    heard,
                    begun,
                    responses_stream::kind_of(value, event_name),
                    value,
                );
            },
            Err(error) => {
                protocol::lemma_hears_push(heard, none, step.out[0], true);
                assert(step.out =~= none.push(step.out[0]));
            },
        }
    }
}

/// An answer from its beginning, through frames.
pub open spec fn run(frames: Seq<FrameModel>) -> ResponsesStep
    decreases frames.len(),
{
    if frames.len() == 0 {
        responses_stream::new_responses().silent()
    } else {
        let before = run(frames.drop_last());
        let now = before.state.processed(frames.last().event, frames.last().data);
        ResponsesStep { state: now.state, out: before.out + now.out }
    }
}

/// The whole of an answer: what frames make, and its end.
pub open spec fn whole(frames: Seq<FrameModel>) -> Seq<EventModel> {
    run(frames).out + run(frames).state.ended().out
}

pub proof fn lemma_run(frames: Seq<FrameModel>)
    requires
        frames.len() <= u64::MAX,
    ensures
        ({
            let heard = protocol::nothing_heard().hears_all(run(frames).out, true);
            &&& heard is Some
            &&& sound(heard->0, run(frames).state)
            &&& run(frames).state.answer.finished ==> protocol::complete_up_to(
                heard->0,
                run(frames).state.answer.next_index,
            ) || protocol::ends_in_failure(run(frames).out)
        }),
        run(frames).state.answer.next_index <= frames.len(),
    decreases frames.len(),
{
    let start = protocol::nothing_heard();
    if frames.len() > 0 {
        lemma_run(frames.drop_last());
        let before = run(frames.drop_last());
        let heard = start.hears_all(before.out, true)->0;
        let frame = frames.last();
        law_process_in_order(heard, before.state, frame.event, frame.data);
        let now = before.state.processed(frame.event, frame.data);
        protocol::lemma_hears_both(start, before.out, now.out, true);
        if before.state.answer.finished {
            assert(before.out + now.out =~= before.out);
        }
    }
}

/// Whatever the frames say, the events of the whole answer come in order, and
/// at its end every block that began has ended exactly once and the indices of the
/// blocks are exactly those below the number of blocks, unless the last event is a
/// failure. This holds as long as there are indices for the blocks.
pub proof fn law_answer_in_order(frames: Seq<FrameModel>)
    requires
        frames.len() <= u64::MAX,
    ensures
        match protocol::nothing_heard().hears_all(whole(frames), true) {
            Some(heard) => protocol::complete_up_to(
                heard,
                run(frames).state.answer.next_index,
            ) || protocol::ends_in_failure(whole(frames)),
            None => false,
        },
{
    lemma_run(frames);
    let start = protocol::nothing_heard();
    let before = run(frames);
    let heard = start.hears_all(before.out, true)->0;
    law_finish_in_order(heard, before.state);
    protocol::lemma_hears_both(start, before.out, before.state.ended().out, true);
    if before.state.answer.finished {
        assert(whole(frames) =~= before.out);
    }
}

/// A finished answer says nothing more and stays as it is, whatever comes.
pub proof fn law_finished_is_silent(
    state: ResponsesModel,
    event_name: Option<Seq<char>>,
    data: Seq<char>,
)
    requires
        state.answer.finished,
    ensures
        state.processed(event_name, data) == state.silent(),
        state.ended() == state.silent(),
{
}

/// The piece in an event.
pub open spec fn piece_in(value: JsonModel) -> Seq<char> {
    responses_stream::or_empty(value.text_field("delta"@))
}

/// Knowing a call by an item says nothing.
proof fn lemma_known_says_nothing(step: ResponsesStep, key: Seq<char>, item: JsonModel)
    ensures
        event::said(step.tool_known(key, item).out) == event::said(step.out),
{
    answer::lemma_frame_says_nothing(step.speaking());
    answer::lemma_frame_says_nothing(step.speaking().text_closed());
    let alone = step.said(step.speaking().text_closed().thinking_closed()).with_key(key);
    let at = responses_stream::place(alone.state.tools, key);
    let named = alone.tool(at).tool.named(item);
    event::lemma_said_push(
        alone.out,
        EventModel::ToolStart { index: named.index, id: named.id, name: named.name },
    );
}

/// A piece of text, of thinking or of input that an event brings is passed on once
/// and as it is, whatever came before.
pub proof fn law_pieces_are_passed_on(step: ResponsesStep, value: JsonModel)
    ensures
        event::said(step.text_given(value).out) == (SaidModel {
            text: event::said(step.out).text + piece_in(value),
            ..event::said(step.out)
        }),
        event::said(step.thinking_given(value).out) == (SaidModel {
            thinking: event::said(step.out).thinking + piece_in(value),
            ..event::said(step.out)
        }),
        event::said(step.input_given(value).out) == (SaidModel {
            input: event::said(step.out).input + piece_in(value),
            ..event::said(step.out)
        }),
{
    let before = event::said(step.out);
    let piece = piece_in(value);
    answer::lemma_frame_says_nothing(step.speaking());
    answer::lemma_pieces_are_said(step.speaking(), piece);
    let key = responses_stream::key_of(value, JsonModel::Null);
    let item = responses_stream::placeholder(value);
    lemma_known_says_nothing(step, key, item);
    let known = step.tool_known(key, item);
    let at = responses_stream::place(known.state.tools, key);
    event::lemma_said_push(
        known.out,
        EventModel::InputDelta { index: known.state.tools[at].1.index, json: piece },
    );
    if value.text_field("delta"@) is None {
        assert(before.text + piece =~= before.text);
        assert(before.thinking + piece =~= before.thinking);
        assert(before.input + piece =~= before.input);
    }
}

/// The whole input that comes with the end of a call is passed on where no piece
/// of it was, and else not: nothing of it comes twice.
pub proof fn law_input_comes_once(step: ResponsesToolStep, item: JsonModel)
    ensures
        event::said(step.done(item).out) == (SaidModel {
            input: event::said(step.out).input + if step.tool.emitted {
                Seq::empty()
            } else {
                responses_stream::or_empty(item.text_field("arguments"@))
            },
            ..event::said(step.out)
        }),
{
    let before = event::said(step.out);
    let arguments = responses_stream::or_empty(item.text_field("arguments"@));
    let given = EventModel::InputDelta { index: step.tool.index, json: arguments };
    event::lemma_said_push(step.out, given);
    event::lemma_said_push(step.out, EventModel::BlockStop { index: step.tool.index });
    event::lemma_said_push(
        step.out.push(given),
        EventModel::BlockStop { index: step.tool.index },
    );
    assert(before.input + Seq::<char>::empty() =~= before.input);
    if arguments.len() == 0 {
        assert(before.input + arguments =~= before.input);
    }
}

/// Whether the data of a frame is read as a document: it is not blank and does not
/// say that the answer is done.
pub open spec fn is_read(data: Seq<char>) -> bool {
    text::trim_both(data).len() > 0 && text::trim_both(data) != "[DONE]"@
}

/// Whether a document, under the name of an event, tells of a failure.
pub open spec fn fails(event_name: Option<Seq<char>>, value: JsonModel) -> bool {
    value.nested_text("error"@, "message"@) is Some || responses_stream::is_failure(
        responses_stream::kind_of(value, event_name),
    )
}

/// Whether a frame tells of a failure.
pub open spec fn tells_failure(frame: FrameModel) -> bool {
    is_read(frame.data) && (codec::json_parse(frame.data) matches Ok(value) && fails(
        frame.event,
        value,
    ))
}

/// Whether no frame tells of a failure.
pub open spec fn no_failures(frames: Seq<FrameModel>) -> bool {
    forall|i: int| 0 <= i < frames.len() ==> !tells_failure(#[trigger] frames[i])
}

/// An answer that ends says so last.
proof fn lemma_ends_in_message_stop(step: ResponsesStep)
    requires
        !step.state.answer.finished,
    ensures
        step.ended().out.last() is MessageStop,
        step.ended().state.answer.finished,
{
}

/// An answer that an event finishes, without a failure, has ended.
proof fn lemma_told_finishes(
    step: ResponsesStep,
    kind: Seq<char>,
    value: JsonModel,
)
    requires
        !step.state.answer.finished,
        step.told(kind, value).state.answer.finished,
    ensures
        step.told(kind, value).out.last() is MessageStop,
{
}

proof fn lemma_run_without_failures(frames: Seq<FrameModel>)
    requires
        frames.len() <= u64::MAX,
        no_failures(frames),
    ensures
        run(frames).state.answer.finished ==> protocol::complete_up_to(
            protocol::nothing_heard().hears_all(run(frames).out, true)->0,
            run(frames).state.answer.next_index,
        ),
    decreases frames.len(),
{
    if frames.len() > 0 {
        let rest = frames.drop_last();
        let frame = frames.last();
        assert forall|i: int| 0 <= i < rest.len() implies !tells_failure(#[trigger] rest[i]) by {
            assert(rest[i] == frames[i]);
        }
        assert(!tells_failure(frames[frames.len() - 1]));
        lemma_run_without_failures(rest);
        lemma_run(rest);
        lemma_run(frames);
        let start = protocol::nothing_heard();
        let before = run(rest);
        let heard = start.hears_all(before.out, true)->0;
        let now = before.state.processed(frame.event, frame.data);
        if before.state.answer.finished {
            assert(before.out + now.out =~= before.out);
        } else if now.state.answer.finished {
            law_process_in_order(heard, before.state, frame.event, frame.data);
            protocol::lemma_hears_both(start, before.out, now.out, true);
            if is_read(frame.data) {
                let value = codec::json_parse(frame.data)->Ok_0;
                let first = before.state.informed(value).silent();
                lemma_told_finishes(
                    first.said(first.speaking().begun()),
                    responses_stream::kind_of(value, frame.event),
                    value,
                );
            } else {
                lemma_ends_in_message_stop(before.state.silent());
            }
            assert(now.out.last() is MessageStop);
        }
    }
}

/// The whole of an answer in which no frame tells of a failure is well formed: it
/// begins once and before its blocks, the indices of its blocks are exactly those
/// below their number, each block begins once and ends once, and the answer says
/// why it stops and ends, once and last. This holds as long as there are indices
/// for the blocks.
pub proof fn law_answer_is_well_formed(frames: Seq<FrameModel>)
    requires
        frames.len() <= u64::MAX,
        no_failures(frames),
    ensures
        protocol::nothing_heard().hears_all(whole(frames), true) is Some,
        protocol::well_formed(whole(frames), run(frames).state.answer.next_index),
        run(frames).state.ended().state.ended().out == Seq::<EventModel>::empty(),
{
    lemma_run(frames);
    lemma_run_without_failures(frames);
    let start = protocol::nothing_heard();
    let before = run(frames);
    let heard = start.hears_all(before.out, true)->0;
    law_finish_in_order(heard, before.state);
    protocol::lemma_hears_both(start, before.out, before.state.ended().out, true);
    if before.state.answer.finished {
        assert(whole(frames) =~= before.out);
    }
    protocol::law_complete_is_well_formed(whole(frames), before.state.answer.next_index, true);
}

/// The text that a document brings, under the name of an event.
pub open spec fn text_in(event_name: Option<Seq<char>>, value: JsonModel) -> Seq<char> {
    if !fails(event_name, value) && responses_stream::kind_of(value, event_name)
        == "response.output_text.delta"@ {
        piece_in(value)
    } else {
        Seq::empty()
    }
}

/// The thinking that a document brings, under the name of an event.
pub open spec fn thinking_in(event_name: Option<Seq<char>>, value: JsonModel) -> Seq<char> {
    let kind = responses_stream::kind_of(value, event_name);
    if !fails(event_name, value) && (kind == "response.reasoning_summary_text.delta"@ || kind
        == "response.reasoning_text.delta"@) {
        piece_in(value)
    } else {
        Seq::empty()
    }
}

/// The text that a frame brings.
pub open spec fn frame_text(frame: FrameModel) -> Seq<char> {
    if is_read(frame.data) {
        match codec::json_parse(frame.data) {
            Ok(value) => text_in(frame.event, value),
            Err(_) => Seq::empty(),
        }
    } else {
        Seq::empty()
    }
}

/// The thinking that a frame brings.
pub open spec fn frame_thinking(frame: FrameModel) -> Seq<char> {
    if is_read(frame.data) {
        match codec::json_parse(frame.data) {
            Ok(value) => thinking_in(frame.event, value),
            Err(_) => Seq::empty(),
        }
    } else {
        Seq::empty()
    }
}

/// The text that frames bring until the answer is finished.
pub open spec fn text_sent(frames: Seq<FrameModel>) -> Seq<char>
    decreases frames.len(),
{
    if frames.len() == 0 {
        Seq::empty()
    } else if run(frames.drop_last()).state.answer.finished {
        text_sent(frames.drop_last())
    } else {
        text_sent(frames.drop_last()) + frame_text(frames.last())
    }
}

/// The thinking that frames bring until the answer is finished.
pub open spec fn thinking_sent(frames: Seq<FrameModel>) -> Seq<char>
    decreases frames.len(),
{
    if frames.len() == 0 {
        Seq::empty()
    } else if run(frames.drop_last()).state.answer.finished {
        thinking_sent(frames.drop_last())
    } else {
        thinking_sent(frames.drop_last()) + frame_thinking(frames.last())
    }
}

proof fn lemma_tools_end_says_nothing(step: ResponsesStep, n: int)
    ensures
        event::said(step.tools_ended(n).out) == event::said(step.out),
    decreases n,
{
    if n > 0 {
        lemma_tools_end_says_nothing(step, n - 1);
        let before = step.tools_ended(n - 1);
        let tool = before.state.tools[n - 1].1;
        event::lemma_said_push(before.out, EventModel::BlockStop { index: tool.index });
    }
}

proof fn lemma_end_says_nothing(step: ResponsesStep)
    ensures
        event::said(step.ended().out) == event::said(step.out),
{
    if !step.state.answer.finished {
        let begun = step.speaking().begun();
        answer::lemma_frame_says_nothing(step.speaking());
        answer::lemma_frame_says_nothing(begun);
        answer::lemma_frame_says_nothing(begun.text_closed());
        let closed = step.said(begun.text_closed().thinking_closed());
        let n = closed.state.tools.len() as int;
        lemma_tools_end_says_nothing(closed, n);
        let ended = closed.tools_ended(n);
        let out = ended.stopped().out;
        let stop = out[out.len() - 2];
        assert(out =~= ended.out.push(stop).push(EventModel::MessageStop));
        event::lemma_said_push(ended.out, stop);
        event::lemma_said_push(ended.out.push(stop), EventModel::MessageStop);
    }
}

proof fn lemma_kinds_differ()
    ensures
        "response.output_text.delta"@ != "response.output_item.added"@,
        "response.output_text.delta"@ != "response.content_part.added"@,
        "response.output_text.delta"@ != "response.reasoning_summary_text.delta"@,
        "response.output_text.delta"@ != "response.reasoning_text.delta"@,
        "response.reasoning_summary_text.delta"@ != "response.output_item.added"@,
        "response.reasoning_summary_text.delta"@ != "response.content_part.added"@,
        "response.reasoning_summary_text.delta"@ != "response.output_text.done"@,
        "response.reasoning_summary_text.delta"@ != "response.content_part.done"@,
        "response.reasoning_text.delta"@ != "response.output_item.added"@,
        "response.reasoning_text.delta"@ != "response.content_part.added"@,
        "response.reasoning_text.delta"@ != "response.output_text.done"@,
        "response.reasoning_text.delta"@ != "response.content_part.done"@,
{
    reveal_strlit("response.output_text.delta");
    reveal_strlit("response.output_item.added");
    reveal_strlit("response.content_part.added");
    reveal_strlit("response.output_text.done");
    reveal_strlit("response.content_part.done");
    reveal_strlit("response.reasoning_summary_text.delta");
    reveal_strlit("response.reasoning_text.delta");
    assert("response.output_text.delta"@[16] == 't');
    assert("response.output_item.added"@[16] == 'i');
    assert("response.output_text.delta"@[9] == 'o');
    assert("response.content_part.added"@[9] == 'c');
    assert("response.content_part.done"@[9] == 'c');
    assert("response.output_item.added"@[9] == 'o');
    assert("response.output_text.done"@[9] == 'o');
    assert("response.reasoning_summary_text.delta"@[9] == 'r');
    assert("response.reasoning_text.delta"@[9] == 'r');
}

proof fn lemma_told_says(
    step: ResponsesStep,
    event_name: Option<Seq<char>>,
    value: JsonModel,
)
    requires
        !fails(event_name, value),
        event::said(step.out) == event::said(Seq::empty()),
    ensures
        ({
            let kind = responses_stream::kind_of(value, event_name);
            &&& event::said(step.told(kind, value).out).text == text_in(event_name, value)
            &&& event::said(step.told(kind, value).out).thinking == thinking_in(event_name, value)
        }),
{
    lemma_kinds_differ();
    let kind = responses_stream::kind_of(value, event_name);
    answer::lemma_frame_says_nothing(step.speaking());
    law_pieces_are_passed_on(step, value);
    let piece = piece_in(value);
    assert(Seq::<char>::empty() + piece =~= piece);
    if let Some(item) = responses_stream::called_item(value) {
        let key = responses_stream::key_of(value, item);
        lemma_known_says_nothing(step, key, item);
        let known = step.tool_known(key, item);
        let at = responses_stream::place(known.state.tools, key);
        law_input_comes_once(known.tool(at), item);
    }
    lemma_end_says_nothing(step);
}

proof fn lemma_processed_says(state: ResponsesModel, frame: FrameModel)
    requires
        !state.answer.finished,
    ensures
        event::said(state.processed(frame.event, frame.data).out).text == frame_text(frame),
        event::said(state.processed(frame.event, frame.data).out).thinking == frame_thinking(
            frame,
        ),
{
    if is_read(frame.data) {
        let parsed = codec::json_parse(frame.data);
        let out = state.read(frame.event, parsed).out;
        if parsed is Err || tells_failure(frame) {
            assert(out =~= Seq::empty().push(out[0]));
            event::lemma_said_push(Seq::empty(), out[0]);
        } else {
            let value = parsed->Ok_0;
            let first = state.informed(value).silent();
            answer::lemma_frame_says_nothing(first.speaking());
            lemma_told_says(first.said(first.speaking().begun()), frame.event, value);
        }
    } else {
        lemma_end_says_nothing(state.silent());
    }
}

/// Over a whole answer the text and the thinking that came are passed on once, in
/// their order and as they are, and nothing else is said; its end adds nothing.
pub proof fn law_text_of_an_answer(frames: Seq<FrameModel>)
    ensures
        event::said(run(frames).out).text == text_sent(frames),
        event::said(run(frames).out).thinking == thinking_sent(frames),
        event::said(whole(frames)).text == text_sent(frames),
        event::said(whole(frames)).thinking == thinking_sent(frames),
    decreases frames.len(),
{
    if frames.len() > 0 {
        law_text_of_an_answer(frames.drop_last());
        let before = run(frames.drop_last());
        let frame = frames.last();
        let now = before.state.processed(frame.event, frame.data);
        event::lemma_said_both(before.out, now.out);
        if before.state.answer.finished {
            assert(before.out + now.out =~= before.out);
        } else {
            lemma_processed_says(before.state, frame);
        }
    }
    let all = run(frames);
    lemma_end_says_nothing(all.state.silent());
    event::lemma_said_both(all.out, all.state.ended().out);
    assert(text_sent(frames) + Seq::<char>::empty() =~= text_sent(frames));
    assert(thinking_sent(frames) + Seq::<char>::empty() =~= thinking_sent(frames));
}

/// Whether a list of events begins a block of a tool.
pub open spec fn opens_tool(events: Seq<EventModel>) -> bool {
    exists|i: int| 0 <= i < events.len() && (#[trigger] events[i]) is ToolStart
}

proof fn lemma_opens_push(events: Seq<EventModel>, event: EventModel)
    ensures
        opens_tool(events.push(event)) == (opens_tool(events) || event is ToolStart),
{
    let more = events.push(event);
    assert(more[events.len() as int] == event);
    if opens_tool(events) {
        let i = choose|i: int| 0 <= i < events.len() && (#[trigger] events[i]) is ToolStart;
        assert(more[i] == events[i]);
    }
    if opens_tool(more) {
        let i = choose|i: int| 0 <= i < more.len() && (#[trigger] more[i]) is ToolStart;
        if i < events.len() {
            assert(events[i] == more[i]);
        }
    }
}

proof fn lemma_opens_both(a: Seq<EventModel>, b: Seq<EventModel>)
    ensures
        opens_tool(a + b) == (opens_tool(a) || opens_tool(b)),
    decreases b.len(),
{
    if b.len() == 0 {
        assert(a + b =~= a);
    } else {
        let rest = b.drop_last();
        lemma_opens_both(a, rest);
        lemma_opens_push(a + rest, b.last());
        lemma_opens_push(rest, b.last());
        assert((a + rest).push(b.last()) =~= a + b);
        assert(rest.push(b.last()) =~= b);
    }
}

/// All calls have begun, and there are any where there were before or where a block
/// of a tool began on the way.
spec fn tells_calls(before: bool, step: ResponsesStep) -> bool {
    &&& all_begun(step.state.tools)
    &&& (step.state.tools.len() > 0) == (before || opens_tool(step.out))
}

proof fn lemma_speaking_opens_no_tool(step: AnswerStep, piece: Seq<char>)
    ensures
        opens_tool(step.begun().out) == opens_tool(step.out),
        opens_tool(step.text_closed().out) == opens_tool(step.out),
        opens_tool(step.thinking_closed().out) == opens_tool(step.out),
        opens_tool(step.text_open().out) == opens_tool(step.out),
        opens_tool(step.thinking_open().out) == opens_tool(step.out),
        opens_tool(step.text_said(piece).out) == opens_tool(step.out),
        opens_tool(step.thinking_said(piece).out) == opens_tool(step.out),
{
    let answer = step.answer;
    let index = answer.next_index;
    lemma_opens_push(
        step.out,
        EventModel::MessageStart { id: answer.id, model: answer.model },
    );
    if let Some(open) = answer.text_index {
        lemma_opens_push(step.out, EventModel::BlockStop { index: open });
    }
    if let Some(open) = answer.thinking_index {
        lemma_opens_push(step.out, EventModel::BlockStop { index: open });
    }
    lemma_opens_push(step.thinking_closed().out, EventModel::TextStart { index });
    lemma_opens_push(step.text_closed().out, EventModel::ThinkingStart { index });
    let one = step.text_open();
    let two = step.thinking_open();
    lemma_opens_push(
        one.out,
        EventModel::TextDelta { index: one.answer.text_index->0, text: piece },
    );
    lemma_opens_push(
        two.out,
        EventModel::ThinkingDelta { index: two.answer.thinking_index->0, thinking: piece },
    );
}

proof fn lemma_known_tells_calls(
    before: bool,
    step: ResponsesStep,
    key: Seq<char>,
    item: JsonModel,
)
    requires
        tells_calls(before, step),
    ensures
        tells_calls(before, step.tool_known(key, item)),
        responses_stream::has_key(step.tool_known(key, item).state.tools, key),
{
    let empty = Seq::<char>::empty();
    lemma_speaking_opens_no_tool(step.speaking(), empty);
    lemma_speaking_opens_no_tool(step.speaking().text_closed(), empty);
    let closed = step.said(step.speaking().text_closed().thinking_closed());
    let tools = closed.state.tools;
    responses_stream::lemma_before(tools, key);
    responses_stream::lemma_has_key(closed, key);
    let alone = closed.with_key(key);
    let at = responses_stream::place(tools, key);
    let held = alone.state.tools;
    let named = held[at].1.named(item);
    lemma_opens_push(
        alone.out,
        EventModel::ToolStart { index: named.index, id: named.id, name: named.name },
    );
    let next = step.tool_known(key, item);
    assert forall|i: int| 0 <= i < next.state.tools.len() implies (
    #[trigger] next.state.tools[i]).1.started by {
        if i != at {
            assert(next.state.tools[i] == held[i]);
            if responses_stream::has_key(tools, key) {
                assert(tools[i].1.started);
            } else {
                assert(held[i] == tools[if i < at { i } else { i - 1 }]);
            }
        }
    }
    if responses_stream::has_key(tools, key) {
        assert(tools[at].1.started);
    }
    responses_stream::lemma_same_place(held, key, next.state.tools[at].1);
}

/// A call that is given input or ends tells of no other calls.
proof fn lemma_with_tool_tells_calls(
    before: bool,
    step: ResponsesStep,
    at: int,
    tool: ResponsesToolStep,
)
    requires
        tells_calls(before, step),
        0 <= at < step.state.tools.len(),
        tool.tool.started,
        opens_tool(tool.out) == opens_tool(step.out),
    ensures
        tells_calls(before, step.with_tool(at, tool)),
{
    let next = step.with_tool(at, tool).state.tools;
    assert forall|i: int| 0 <= i < next.len() implies (#[trigger] next[i]).1.started by {
        assert(step.state.tools[i].1.started);
    }
}

proof fn lemma_closed_opens_no_tool(step: ResponsesToolStep)
    ensures
        opens_tool(step.closed().out) == opens_tool(step.out),
{
    lemma_opens_push(step.out, EventModel::BlockStop { index: step.tool.index });
}

proof fn lemma_tools_end_tells_calls(before: bool, step: ResponsesStep, n: int)
    requires
        tells_calls(before, step),
        0 <= n <= step.state.tools.len(),
    ensures
        tells_calls(before, step.tools_ended(n)),
        step.tools_ended(n).state.tools.len() == step.state.tools.len(),
    decreases n,
{
    if n > 0 {
        lemma_tools_end_tells_calls(before, step, n - 1);
        let last = step.tools_ended(n - 1);
        assert(last.state.tools[n - 1].1.started);
        lemma_closed_opens_no_tool(last.tool(n - 1));
        lemma_with_tool_tells_calls(before, last, n - 1, last.tool(n - 1).closed());
    }
}

proof fn lemma_end_tells_calls(before: bool, step: ResponsesStep)
    requires
        tells_calls(before, step),
    ensures
        tells_calls(before, step.ended()),
{
    if !step.state.answer.finished {
        let empty = Seq::<char>::empty();
        let begun = step.speaking().begun();
        lemma_speaking_opens_no_tool(step.speaking(), empty);
        lemma_speaking_opens_no_tool(begun, empty);
        lemma_speaking_opens_no_tool(begun.text_closed(), empty);
        let closed = step.said(begun.text_closed().thinking_closed());
        let n = closed.state.tools.len() as int;
        lemma_tools_end_tells_calls(before, closed, n);
        let ended = closed.tools_ended(n);
        let out = ended.stopped().out;
        let stop = out[out.len() - 2];
        assert(out =~= ended.out.push(stop).push(EventModel::MessageStop));
        lemma_opens_push(ended.out, stop);
        lemma_opens_push(ended.out.push(stop), EventModel::MessageStop);
    }
}

proof fn lemma_told_tells_calls(
    before: bool,
    step: ResponsesStep,
    kind: Seq<char>,
    value: JsonModel,
)
    requires
        tells_calls(before, step),
    ensures
        tells_calls(before, step.told(kind, value)),
{
    let piece = piece_in(value);
    lemma_speaking_opens_no_tool(step.speaking(), piece);
    if let Some(item) = responses_stream::called_item(value) {
        let key = responses_stream::key_of(value, item);
        lemma_known_tells_calls(before, step, key, item);
        let known = step.tool_known(key, item);
        let at = responses_stream::place(known.state.tools, key);
        responses_stream::lemma_before(known.state.tools, key);
        let tool = known.tool(at);
        assert(tool.tool.started);
        let arguments = responses_stream::or_empty(item.text_field("arguments"@));
        let given = EventModel::InputDelta { index: tool.tool.index, json: arguments };
        lemma_opens_push(tool.out, given);
        lemma_closed_opens_no_tool(tool);
        lemma_closed_opens_no_tool(tool.emit(given));
        lemma_with_tool_tells_calls(before, known, at, tool.done(item));
    }
    let key = responses_stream::key_of(value, JsonModel::Null);
    let item = responses_stream::placeholder(value);
    lemma_known_tells_calls(before, step, key, item);
    let known = step.tool_known(key, item);
    let at = responses_stream::place(known.state.tools, key);
    responses_stream::lemma_before(known.state.tools, key);
    assert(known.state.tools[at].1.started);
    lemma_opens_push(
        known.out,
        EventModel::InputDelta { index: known.state.tools[at].1.index, json: piece },
    );
    if value.text_field("delta"@) is Some {
        lemma_with_tool_tells_calls(before, known, at, known.tool(at).given(piece));
    }
    lemma_end_tells_calls(before, step);
}

proof fn lemma_processed_tells_calls(state: ResponsesModel, frame: FrameModel)
    requires
        all_begun(state.tools),
    ensures
        tells_calls(state.tools.len() > 0, state.processed(frame.event, frame.data)),
{
    let before = state.tools.len() > 0;
    let silent = state.silent();
    assert(!opens_tool(Seq::<EventModel>::empty()));
    assert(tells_calls(before, silent));
    lemma_end_tells_calls(before, silent);
    if is_read(frame.data) && !state.answer.finished {
        let parsed = codec::json_parse(frame.data);
        let out = state.read(frame.event, parsed).out;
        if parsed is Err || tells_failure(frame) {
            assert(out =~= Seq::empty().push(out[0]));
            lemma_opens_push(Seq::empty(), out[0]);
        } else {
            let value = parsed->Ok_0;
            let first = state.informed(value).silent();
            lemma_speaking_opens_no_tool(first.speaking(), Seq::empty());
            lemma_told_tells_calls(
                before,
                first.said(first.speaking().begun()),
                responses_stream::kind_of(value, frame.event),
                value,
            );
        }
    }
}

/// Whether a document says that the answer is incomplete.
pub open spec fn is_incomplete(value: JsonModel) -> bool {
    value.field("response"@) matches Some(response) && response.nested_text(
        "incomplete_details"@,
        "reason"@,
    ) is Some
}

/// Whether a frame says that the answer is incomplete.
pub open spec fn tells_incomplete(frame: FrameModel) -> bool {
    is_read(frame.data) && (codec::json_parse(frame.data) matches Ok(value) && is_incomplete(value))
}

/// Whether any of a list of frames says that the answer is incomplete, before the
/// answer is finished.
pub open spec fn told_incomplete(frames: Seq<FrameModel>) -> bool {
    exists|i: int|
        0 <= i < frames.len() && tells_incomplete(#[trigger] frames[i]) && !run(
            frames.take(i),
        ).state.answer.finished
}

proof fn lemma_told_incomplete(frames: Seq<FrameModel>)
    requires
        frames.len() > 0,
    ensures
        told_incomplete(frames) == (told_incomplete(frames.drop_last()) || (tells_incomplete(
            frames.last(),
        ) && !run(frames.drop_last()).state.answer.finished)),
{
    let rest = frames.drop_last();
    let n = rest.len() as int;
    assert(frames.take(n) =~= rest);
    assert(frames[n] == frames.last());
    if told_incomplete(rest) {
        let i = choose|i: int|
            0 <= i < rest.len() && tells_incomplete(#[trigger] rest[i]) && !run(
                rest.take(i),
            ).state.answer.finished;
        assert(frames[i] == rest[i]);
        assert(frames.take(i) =~= rest.take(i));
    }
    if told_incomplete(frames) {
        let i = choose|i: int|
            0 <= i < frames.len() && tells_incomplete(#[trigger] frames[i]) && !run(
                frames.take(i),
            ).state.answer.finished;
        if i < n {
            assert(rest[i] == frames[i]);
            assert(frames.take(i) =~= rest.take(i));
        }
    }
}

/// Reading frames does not touch why an answer is incomplete, unless they say so.
proof fn lemma_told_keeps_reason(step: ResponsesStep, kind: Seq<char>, value: JsonModel)
    ensures
        step.told(kind, value).state.incomplete_reason == step.state.incomplete_reason,
{
    lemma_end_keeps_reason(step);
}

proof fn lemma_end_keeps_reason(step: ResponsesStep)
    ensures
        step.ended().state.incomplete_reason == step.state.incomplete_reason,
{
    let closed = step.said(step.speaking().begun().text_closed().thinking_closed());
    lemma_tools_keep_reason(closed, closed.state.tools.len() as int);
}

proof fn lemma_tools_keep_reason(step: ResponsesStep, n: int)
    ensures
        step.tools_ended(n).state.incomplete_reason == step.state.incomplete_reason,
    decreases n,
{
    if n > 0 {
        lemma_tools_keep_reason(step, n - 1);
    }
}

/// What an answer knows of its history: it has calls if and only if a block of a
/// tool began, and it is incomplete if and only if a document that was read said so.
pub proof fn law_history_of_an_answer(frames: Seq<FrameModel>)
    ensures
        (run(frames).state.tools.len() > 0) == opens_tool(run(frames).out),
        run(frames).state.incomplete_reason is Some == told_incomplete(frames),
        all_begun(run(frames).state.tools),
    decreases frames.len(),
{
    if frames.len() > 0 {
        law_history_of_an_answer(frames.drop_last());
        lemma_told_incomplete(frames);
        let before = run(frames.drop_last());
        let frame = frames.last();
        let now = before.state.processed(frame.event, frame.data);
        lemma_processed_tells_calls(before.state, frame);
        lemma_opens_both(before.out, now.out);
        lemma_end_keeps_reason(before.state.silent());
        if is_read(frame.data) && !before.state.answer.finished {
            if let Ok(value) = codec::json_parse(frame.data) {
                let first = before.state.informed(value).silent();
                lemma_told_keeps_reason(
                    first.said(first.speaking().begun()),
                    responses_stream::kind_of(value, frame.event),
                    value,
                );
            }
        }
    }
}

/// Why an answer stops goes by its history: it calls a tool if a block of a tool
/// ever began, or else it is too long if any document that was read said that it is
/// incomplete, or else it is at its end. The answer says so and ends, behind the
/// ends of the blocks that are still open.
pub proof fn law_stop_reason_of_an_answer(frames: Seq<FrameModel>)
    requires
        !run(frames).state.answer.finished,
    ensures
        ({
            let end = run(frames).state.ended().out;
            &&& end.len() >= 2
            &&& end.last() is MessageStop
            &&& end[end.len() - 2] matches EventModel::MessageDelta { stop_reason, .. }
                && stop_reason == if opens_tool(run(frames).out) {
                "tool_use"@
            } else if told_incomplete(frames) {
                "max_tokens"@
            } else {
                "end_turn"@
            }
        }),
{
    law_history_of_an_answer(frames);
    let step = run(frames).state.silent();
    let closed = step.said(step.speaking().begun().text_closed().thinking_closed());
    let n = closed.state.tools.len() as int;
    lemma_tools_keep_reason(closed, n);
    lemma_tools_keep_count(closed, n);
}

proof fn lemma_tools_keep_count(step: ResponsesStep, n: int)
    requires
        0 <= n <= step.state.tools.len(),
    ensures
        step.tools_ended(n).state.tools.len() == step.state.tools.len(),
    decreases n,
{
    if n > 0 {
        lemma_tools_keep_count(step, n - 1);
    }
}

/// A frame that says the answer is done ends it as the end of the stream does, and
/// what follows it does not count.
pub proof fn law_done_is_the_end(
    frames: Seq<FrameModel>,
    done: FrameModel,
    more: Seq<FrameModel>,
)
    requires
        text::trim_both(done.data) == "[DONE]"@,
    ensures
        whole(frames.push(done) + more) == whole(frames),
        run(frames.push(done) + more).state.answer.finished,
    decreases more.len(),
{
    let all = frames.push(done);
    if more.len() == 0 {
        assert(all + more =~= all);
        assert(all.drop_last() =~= frames);
        assert(run(all).out + Seq::<EventModel>::empty() =~= run(all).out);
    } else {
        law_done_is_the_end(frames, done, more.drop_last());
        assert((all + more).drop_last() =~= all + more.drop_last());
        let before = run(all + more.drop_last());
        assert(before.out + Seq::<EventModel>::empty() =~= before.out);
    }
}

}
