//! What holds of the calls of tools over a whole answer.
use vstd::prelude::*;

use crate::answer::AnswerStep;
use crate::chat_stream::laws;
use crate::chat_stream::{self, ChatCalls, ChatModel, ChatStep, ChatToolModel, ChatToolStep};
use crate::event::{self, EventModel};
use crate::json::codec;
use crate::json::JsonModel;
use crate::protocol::{self, Progress};
use crate::text;
use crate::transform::usage;

verus! {

/// The input in a piece of a call.
pub open spec fn arguments_of(call: JsonModel) -> Seq<char> {
    match call.nested_text("function"@, "arguments"@) {
        Some(arguments) => arguments,
        None => Seq::empty(),
    }
}

/// The input that pieces of calls bring for a key, each piece behind the one before
/// it.
pub open spec fn sent_for(calls: Seq<JsonModel>, key: u64) -> Seq<char>
    decreases calls.len(),
{
    if calls.len() == 0 {
        Seq::empty()
    } else {
        sent_for(calls.drop_last(), key) + if chat_stream::call_key(calls.last()) == key {
            arguments_of(calls.last())
        } else {
            Seq::empty()
        }
    }
}

/// Whether any of a list of pieces of calls is of a key.
pub open spec fn is_sent(calls: Seq<JsonModel>, key: u64) -> bool {
    exists|i: int| 0 <= i < calls.len() && chat_stream::call_key(#[trigger] calls[i]) == key
}

proof fn lemma_sent_push(calls: Seq<JsonModel>, call: JsonModel, key: u64)
    ensures
        sent_for(calls.push(call), key) == sent_for(calls, key) + if chat_stream::call_key(call)
            == key {
            arguments_of(call)
        } else {
            Seq::empty()
        },
        is_sent(calls.push(call), key) == (is_sent(calls, key) || chat_stream::call_key(call)
            == key),
{
    let more = calls.push(call);
    assert(more.drop_last() =~= calls);
    if is_sent(calls, key) {
        let i = choose|i: int|
            0 <= i < calls.len() && chat_stream::call_key(#[trigger] calls[i]) == key;
        assert(more[i] == calls[i]);
    }
    if chat_stream::call_key(call) == key {
        assert(more[calls.len() as int] == call);
    }
    if is_sent(more, key) {
        let i = choose|i: int|
            0 <= i < more.len() && chat_stream::call_key(#[trigger] more[i]) == key;
        if i < calls.len() {
            assert(calls[i] == more[i]);
        }
    }
}

proof fn lemma_sent_both(a: Seq<JsonModel>, b: Seq<JsonModel>, key: u64)
    ensures
        sent_for(a + b, key) == sent_for(a, key) + sent_for(b, key),
        is_sent(a + b, key) == (is_sent(a, key) || is_sent(b, key)),
    decreases b.len(),
{
    if b.len() == 0 {
        assert(a + b =~= a);
        assert(sent_for(a, key) + sent_for(b, key) =~= sent_for(a, key));
    } else {
        let rest = b.drop_last();
        lemma_sent_both(a, rest, key);
        lemma_sent_push(a + rest, b.last(), key);
        lemma_sent_push(rest, b.last(), key);
        assert((a + rest).push(b.last()) =~= a + b);
        assert(rest.push(b.last()) =~= b);
        assert(sent_for(a + b, key) =~= sent_for(a, key) + sent_for(b, key));
    }
}

proof fn lemma_nothing_sent(calls: Seq<JsonModel>, key: u64)
    requires
        !is_sent(calls, key),
    ensures
        sent_for(calls, key) == Seq::<char>::empty(),
    decreases calls.len(),
{
    if calls.len() > 0 {
        let rest = calls.drop_last();
        lemma_sent_push(rest, calls.last(), key);
        assert(rest.push(calls.last()) =~= calls);
        lemma_nothing_sent(rest, key);
    }
}

/// The call under a key.
pub open spec fn call_at(tools: ChatCalls, key: u64) -> ChatToolModel {
    tools[chat_stream::place(tools, key)].1
}

/// The input that waits under a key.
pub open spec fn waiting(tools: ChatCalls, key: u64) -> Seq<char> {
    if chat_stream::has_key(tools, key) {
        call_at(tools, key).pending
    } else {
        Seq::empty()
    }
}

/// Where keys ascend, each key stands at its place.
proof fn lemma_key_at(tools: ChatCalls, i: int)
    requires
        chat_stream::ascending(tools),
        0 <= i < tools.len(),
    ensures
        chat_stream::place(tools, tools[i].0) == i,
        chat_stream::has_key(tools, tools[i].0),
        call_at(tools, tools[i].0) == tools[i].1,
{
    chat_stream::lemma_place(tools, tools[i].0, i);
}

proof fn lemma_inserted(tools: ChatCalls, key: u64, tool: ChatToolModel)
    requires
        chat_stream::ascending(tools),
        !chat_stream::has_key(tools, key),
        chat_stream::ascending(tools.insert(chat_stream::place(tools, key), (key, tool))),
    ensures
        ({
            let more = tools.insert(chat_stream::place(tools, key), (key, tool));
            &&& forall|k: u64| #[trigger]
                chat_stream::has_key(more, k) == (chat_stream::has_key(tools, k) || k == key)
            &&& forall|k: u64|
                chat_stream::has_key(tools, k) ==> #[trigger] call_at(more, k) == call_at(tools, k)
            &&& call_at(more, key) == tool
        }),
{
    let at = chat_stream::place(tools, key);
    chat_stream::lemma_before(tools, key);
    let more = tools.insert(at, (key, tool));
    assert(more[at] == (key, tool));
    lemma_key_at(more, at);
    assert forall|k: u64|
        chat_stream::has_key(tools, k) implies chat_stream::has_key(more, k) && #[trigger] call_at(
        more,
        k,
    ) == call_at(tools, k) by {
        chat_stream::lemma_before(tools, k);
        let i = chat_stream::place(tools, k);
        let j = if i < at { i } else { i + 1 };
        assert(more[j] == tools[i]);
        lemma_key_at(more, j);
    }
    assert forall|k: u64| #[trigger]
        chat_stream::has_key(more, k) == (chat_stream::has_key(tools, k) || k == key) by {
        if chat_stream::has_key(more, k) && k != key {
            chat_stream::lemma_before(more, k);
            let j = chat_stream::place(more, k);
            assert(j != at);
            let i = if j < at { j } else { j - 1 };
            assert(more[j] == tools[i]);
            lemma_key_at(tools, i);
        }
        if chat_stream::has_key(tools, k) {
            assert(call_at(more, k) == call_at(tools, k));
        }
    }
}

proof fn lemma_updated(tools: ChatCalls, key: u64, tool: ChatToolModel)
    requires
        chat_stream::ascending(tools),
        chat_stream::has_key(tools, key),
        chat_stream::ascending(tools.update(chat_stream::place(tools, key), (key, tool))),
    ensures
        ({
            let new = tools.update(chat_stream::place(tools, key), (key, tool));
            &&& forall|k: u64| #[trigger]
                chat_stream::has_key(new, k) == chat_stream::has_key(tools, k)
            &&& forall|k: u64|
                chat_stream::has_key(tools, k) && k != key ==> #[trigger] call_at(new, k)
                    == call_at(tools, k)
            &&& call_at(new, key) == tool
        }),
{
    let at = chat_stream::place(tools, key);
    chat_stream::lemma_before(tools, key);
    let new = tools.update(at, (key, tool));
    lemma_key_at(new, at);
    assert forall|k: u64|
        chat_stream::has_key(tools, k) implies chat_stream::has_key(new, k) && (k != key
        ==> #[trigger] call_at(new, k) == call_at(tools, k)) by {
        chat_stream::lemma_before(tools, k);
        let i = chat_stream::place(tools, k);
        assert(new[i].0 == k);
        lemma_key_at(new, i);
    }
    assert forall|k: u64| #[trigger]
        chat_stream::has_key(new, k) == chat_stream::has_key(tools, k) by {
        if chat_stream::has_key(new, k) {
            chat_stream::lemma_before(new, k);
            let i = chat_stream::place(new, k);
            assert(tools[i].0 == k);
            lemma_key_at(tools, i);
        }
        if chat_stream::has_key(tools, k) && k != key {
            assert(call_at(new, k) == call_at(tools, k));
        }
    }
}

/// From a state on, the input of pieces of calls was passed on or waits: there is a
/// call for each key that there was one for or that was sent, and what its block
/// was given and what waits for it is what waited before and what was sent.
pub open spec fn relays(from: ChatModel, step: ChatStep, calls: Seq<JsonModel>) -> bool {
    &&& forall|k: u64| #[trigger]
        chat_stream::has_key(step.state.tools, k) == (chat_stream::has_key(from.tools, k)
            || is_sent(calls, k))
    &&& forall|k: u64|
        chat_stream::has_key(step.state.tools, k) ==> #[trigger] relays_key(from, step, calls, k)
    &&& forall|i: u64|
        i >= step.state.answer.next_index ==> #[trigger] event::input_at(step.out, i) == Seq::<
            char,
        >::empty()
    &&& from.answer.next_index <= step.state.answer.next_index
}

/// The same of one key.
pub open spec fn relays_key(
    from: ChatModel,
    step: ChatStep,
    calls: Seq<JsonModel>,
    key: u64,
) -> bool {
    let tool = call_at(step.state.tools, key);
    &&& event::input_at(step.out, tool.index) + tool.pending == waiting(from.tools, key) + sent_for(
        calls,
        key,
    )
    &&& tool.index < step.state.answer.next_index
    &&& if chat_stream::has_key(from.tools, key) {
        tool.index == call_at(from.tools, key).index
    } else {
        tool.index >= from.answer.next_index
    }
}

/// Calls in two stretches of an answer are those of the whole.
proof fn lemma_relays_on(
    from: ChatModel,
    one: ChatStep,
    a: Seq<JsonModel>,
    two: ChatStep,
    b: Seq<JsonModel>,
)
    requires
        relays(from, one, a),
        relays(one.state, two, b),
    ensures
        relays(from, (ChatStep { state: two.state, out: one.out + two.out }), a + b),
{
    let whole = ChatStep { state: two.state, out: one.out + two.out };
    assert forall|k: u64| #[trigger]
        chat_stream::has_key(whole.state.tools, k) == (chat_stream::has_key(from.tools, k)
            || is_sent(a + b, k)) by {
        lemma_sent_both(a, b, k);
        assert(chat_stream::has_key(one.state.tools, k) == (chat_stream::has_key(from.tools, k)
            || is_sent(a, k)));
    }
    assert forall|k: u64|
        chat_stream::has_key(whole.state.tools, k) implies #[trigger] relays_key(
        from,
        whole,
        a + b,
        k,
    ) by {
        lemma_sent_both(a, b, k);
        assert(relays_key(one.state, two, b, k));
        let tool = call_at(two.state.tools, k);
        event::lemma_input_both(one.out, two.out, tool.index);
        let first = event::input_at(one.out, tool.index);
        let second = event::input_at(two.out, tool.index);
        assert(first + second + tool.pending =~= first + (second + tool.pending));
        if chat_stream::has_key(one.state.tools, k) {
            assert(relays_key(from, one, a, k));
            let held = call_at(one.state.tools, k).pending;
            assert(first + (held + sent_for(b, k)) =~= (first + held) + sent_for(b, k));
            assert((waiting(from.tools, k) + sent_for(a, k)) + sent_for(b, k) =~= waiting(
                from.tools,
                k,
            ) + (sent_for(a, k) + sent_for(b, k)));
        } else {
            assert(first == Seq::<char>::empty());
            assert(!is_sent(a, k) && !chat_stream::has_key(from.tools, k));
            lemma_nothing_sent(a, k);
            assert(first + (waiting(one.state.tools, k) + sent_for(b, k)) =~= waiting(
                from.tools,
                k,
            ) + (sent_for(a, k) + sent_for(b, k)));
        }
    }
    assert forall|i: u64|
        i >= whole.state.answer.next_index implies #[trigger] event::input_at(whole.out, i) == Seq::<
        char,
    >::empty() by {
        event::lemma_input_both(one.out, two.out, i);
        assert(event::input_at(one.out, i) == Seq::<char>::empty());
        assert(event::input_at(two.out, i) == Seq::<char>::empty());
    }
}

/// Text and thinking are no input.
proof fn lemma_relays_kept(
    from: ChatModel,
    step: ChatStep,
    calls: Seq<JsonModel>,
    next: ChatStep,
)
    requires
        relays(from, step, calls),
        next.state.tools == step.state.tools,
        next.state.answer.next_index >= step.state.answer.next_index,
        forall|i: u64| #[trigger] event::input_at(next.out, i) == event::input_at(step.out, i),
    ensures
        relays(from, next, calls),
{
    assert forall|k: u64|
        chat_stream::has_key(next.state.tools, k) implies #[trigger] relays_key(
        from,
        next,
        calls,
        k,
    ) by {
        assert(relays_key(from, step, calls, k));
    }
}

proof fn lemma_speaking_is_no_input(step: AnswerStep, piece: Seq<char>)
    ensures
        forall|i: u64| #[trigger] event::input_at(step.begun().out, i) == event::input_at(step.out, i),
        forall|i: u64| #[trigger] event::input_at(step.text_closed().out, i) == event::input_at(step.out, i),
        forall|i: u64| #[trigger] event::input_at(step.thinking_closed().out, i) == event::input_at(step.out, i),
        forall|i: u64| #[trigger] event::input_at(step.text_said(piece).out, i) == event::input_at(step.out, i),
        forall|i: u64| #[trigger]
            event::input_at(step.thinking_said(piece).out, i) == event::input_at(step.out, i),
{
    let answer = step.answer;
    let index = answer.next_index;
    let start = EventModel::MessageStart { id: answer.id, model: answer.model };
    let one = step.text_open();
    let two = step.thinking_open();
    let text = EventModel::TextDelta { index: one.answer.text_index->0, text: piece };
    let thinking = EventModel::ThinkingDelta {
        index: two.answer.thinking_index->0,
        thinking: piece,
    };
    assert forall|i: u64|
        ({
            &&& #[trigger] event::input_at(step.out, i) == event::input_at(step.begun().out, i)
            &&& event::input_at(step.text_closed().out, i) == event::input_at(step.out, i)
            &&& event::input_at(step.thinking_closed().out, i) == event::input_at(step.out, i)
            &&& event::input_at(step.text_said(piece).out, i) == event::input_at(step.out, i)
            &&& event::input_at(step.thinking_said(piece).out, i) == event::input_at(step.out, i)
        }) by {
        event::lemma_input_push(step.out, start, i);
        if let Some(open) = answer.text_index {
            event::lemma_input_push(step.out, EventModel::BlockStop { index: open }, i);
        }
        if let Some(open) = answer.thinking_index {
            event::lemma_input_push(step.out, EventModel::BlockStop { index: open }, i);
        }
        event::lemma_input_push(step.thinking_closed().out, EventModel::TextStart { index }, i);
        event::lemma_input_push(step.text_closed().out, EventModel::ThinkingStart { index }, i);
        event::lemma_input_push(one.out, text, i);
        event::lemma_input_push(two.out, thinking, i);
    }
}

/// What a piece of a call gives its block and leaves waiting, and that it gives no
/// other block any input.
proof fn lemma_tool_called(step: ChatToolStep, call: JsonModel, other: u64)
    ensures
        ({
            let next = step.called(call);
            &&& next.tool.index == step.tool.index
            &&& event::input_at(next.out, step.tool.index) + next.tool.pending == event::input_at(
                step.out,
                step.tool.index,
            ) + (step.tool.pending + arguments_of(call))
            &&& other != step.tool.index ==> event::input_at(next.out, other) == event::input_at(step.out, other)
        }),
{
    let grown = ChatToolStep { tool: step.tool.grown(call), ..step };
    let tool = grown.tool;
    assert(tool.pending =~= step.tool.pending + arguments_of(call));
    let start = EventModel::ToolStart { index: tool.index, id: tool.id, name: tool.name };
    let known = if !tool.started && (tool.id.len() > 0 || tool.name.len() > 0) {
        grown.begun()
    } else {
        grown
    };
    let given = EventModel::InputDelta { index: tool.index, json: tool.pending };
    event::lemma_input_push(step.out, start, tool.index);
    event::lemma_input_push(step.out, start, other);
    event::lemma_input_push(known.out, given, tool.index);
    event::lemma_input_push(known.out, given, other);
    let next = step.called(call);
    assert(event::input_at(next.out, tool.index) + next.tool.pending =~= event::input_at(step.out, tool.index)
        + tool.pending);
}

/// Calls under different keys have different blocks.
proof fn lemma_different_blocks(from: Progress, step: ChatStep, a: u64, b: u64)
    requires
        laws::sound_step(from, step),
        chat_stream::has_key(step.state.tools, a),
        chat_stream::has_key(step.state.tools, b),
        a != b,
    ensures
        call_at(step.state.tools, a).index != call_at(step.state.tools, b).index,
{
    let tools = step.state.tools;
    chat_stream::lemma_before(tools, a);
    chat_stream::lemma_before(tools, b);
    let i = chat_stream::place(tools, a);
    let j = chat_stream::place(tools, b);
    assert(i != j);
    let blocks = laws::slots(tools);
    assert(blocks[i].index == tools[i].1.index);
    assert(blocks[j].index == tools[j].1.index);
    assert(blocks[if i < j { i } else { j }].index != blocks[if i < j { j } else { i }].index);
}

proof fn lemma_relays_called(
    heard: Progress,
    from: ChatModel,
    step: ChatStep,
    calls: Seq<JsonModel>,
    call: JsonModel,
)
    requires
        laws::sound_step(heard, step),
        step.state.answer.next_index < u64::MAX,
        relays(from, step, calls),
    ensures
        relays(from, step.called(call), calls.push(call)),
{
    let key = chat_stream::call_key(call);
    let tools = step.state.tools;
    laws::lemma_with_key(heard, step, key);
    laws::lemma_called(heard, step, call);
    let known = step.with_key(key);
    let held = known.state.tools;
    let more = calls.push(call);
    chat_stream::lemma_before(held, key);
    let at = chat_stream::place(held, key);
    let before = held[at].1;
    let fresh = !chat_stream::has_key(tools, key);
    if fresh {
        lemma_inserted(
            tools,
            key,
            chat_stream::new_tool(step.state.answer.next_index),
        );
        lemma_nothing_sent(calls, key);
    } else {
        assert(relays_key(from, step, calls, key));
    }
    let step_in = ChatToolStep { tool: before, out: known.out };
    let step_out = step_in.called(call);
    let next = step.called(call);
    lemma_updated(held, key, step_out.tool);
    lemma_tool_called(step_in, call, before.index);
    assert forall|k: u64| #[trigger]
        chat_stream::has_key(next.state.tools, k) == (chat_stream::has_key(from.tools, k)
            || is_sent(more, k)) by {
        lemma_sent_push(calls, call, k);
        assert(chat_stream::has_key(held, k) == (chat_stream::has_key(tools, k) || k == key));
    }
    assert forall|k: u64|
        chat_stream::has_key(next.state.tools, k) implies #[trigger] relays_key(
        from,
        next,
        more,
        k,
    ) by {
        lemma_sent_push(calls, call, k);
        if k == key {
            assert(event::input_at(step.out, before.index) + before.pending =~= waiting(from.tools, key)
                + sent_for(calls, key));
            assert(event::input_at(step.out, before.index) + (before.pending + arguments_of(call)) =~= (
            event::input_at(step.out, before.index) + before.pending) + arguments_of(call));
            assert((waiting(from.tools, key) + sent_for(calls, key)) + arguments_of(call)
                =~= waiting(from.tools, key) + (sent_for(calls, key) + arguments_of(call)));
        } else {
            assert(chat_stream::has_key(tools, k));
            assert(relays_key(from, step, calls, k));
            assert(call_at(next.state.tools, k) == call_at(held, k));
            assert(call_at(held, k) == call_at(tools, k));
            lemma_different_blocks(heard, known, k, key);
            lemma_tool_called(step_in, call, call_at(tools, k).index);
            assert(sent_for(calls, k) + Seq::<char>::empty() =~= sent_for(calls, k));
        }
    }
    assert forall|i: u64|
        i >= next.state.answer.next_index implies #[trigger] event::input_at(next.out, i) == Seq::<
        char,
    >::empty() by {
        lemma_tool_called(step_in, call, i);
        assert(event::input_at(step.out, i) == Seq::<char>::empty());
        assert(i != before.index);
    }
}

proof fn lemma_relays_all_called(
    heard: Progress,
    from: ChatModel,
    step: ChatStep,
    calls: Seq<JsonModel>,
)
    requires
        laws::sound_step(heard, step),
        step.state.answer.next_index + calls.len() <= u64::MAX,
        relays(from, step, Seq::empty()),
    ensures
        relays(from, step.all_called(calls), calls),
    decreases calls.len(),
{
    if calls.len() == 0 {
        assert(calls =~= Seq::<JsonModel>::empty());
    } else {
        let rest = calls.drop_last();
        lemma_relays_all_called(heard, from, step, rest);
        laws::lemma_all_called(heard, step, rest);
        lemma_relays_called(heard, from, step.all_called(rest), rest, calls.last());
        assert(rest.push(calls.last()) =~= calls);
    }
}

/// From a state that agrees with what was heard, nothing was relayed yet.
proof fn lemma_relays_nothing(heard: Progress, state: ChatModel)
    requires
        laws::sound(heard, state),
        !state.answer.finished,
    ensures
        relays(state, state.silent(), Seq::empty()),
{
    let none = Seq::<JsonModel>::empty();
    let step = state.silent();
    assert forall|k: u64| #[trigger]
        chat_stream::has_key(step.state.tools, k) == (chat_stream::has_key(state.tools, k)
            || is_sent(none, k)) by {
        assert(!is_sent(none, k));
    }
    assert forall|k: u64|
        chat_stream::has_key(step.state.tools, k) implies #[trigger] relays_key(
        state,
        step,
        none,
        k,
    ) by {
        chat_stream::lemma_before(state.tools, k);
        let at = chat_stream::place(state.tools, k);
        let blocks = laws::slots(state.tools);
        assert(protocol::slot_agrees(heard, state.answer, blocks[at]));
        assert(blocks[at].index == state.tools[at].1.index);
        let tool = call_at(state.tools, k);
        assert(Seq::<char>::empty() + tool.pending =~= tool.pending + Seq::<char>::empty());
    }
}

proof fn lemma_relays_told(heard: Progress, state: ChatModel, value: JsonModel)
    requires
        laws::sound(heard, state),
        !state.answer.finished,
        value.nested_text("error"@, "message"@) is None,
        state.answer.next_index + 2 + laws::calls_in(value).len() <= u64::MAX,
    ensures
        relays(state, state.told(value), laws::calls_in(value)),
{
    let none = Seq::<JsonModel>::empty();
    lemma_relays_nothing(heard, state);
    let named = ChatModel {
        answer: state.answer.named(value.text_field("id"@), value.text_field("model"@)),
        ..state
    }.silent();
    let empty = Seq::<char>::empty();
    lemma_relays_kept(state, state.silent(), none, named);
    lemma_speaking_is_no_input(named.speaking(), empty);
    let informed = state.informed(value);
    lemma_relays_kept(state, named, none, informed);
    laws::lemma_informed(heard, state, value);
    if let Some(choice) = chat_stream::first_choice(value) {
        let delta = usage::or_null(choice.field("delta"@));
        let thinking = laws::thinking_in(value);
        let said = laws::text_in(value);
        lemma_speaking_is_no_input(informed.speaking(), thinking);
        let one = informed.with_reasoning(delta);
        lemma_relays_kept(state, informed, none, one);
        lemma_speaking_is_no_input(one.speaking(), said);
        let two = one.with_content(delta);
        lemma_relays_kept(state, one, none, two);
        laws::lemma_spoken(heard, informed, delta);
        if let Some(calls) = delta.array_field("tool_calls"@) {
            lemma_speaking_is_no_input(two.speaking(), empty);
            lemma_speaking_is_no_input(two.speaking().text_closed(), empty);
            let closed = two.said(two.speaking().text_closed().thinking_closed());
            assert forall|i: u64| #[trigger] event::input_at(closed.out, i) == event::input_at(two.out, i) by {
                assert(event::input_at(two.speaking().text_closed().out, i) == event::input_at(two.out, i));
            }
            lemma_relays_kept(state, two, none, closed);
            let blocks = laws::slots(two.state.tools);
            protocol::lemma_text_closed(heard, two.speaking(), blocks, false);
            protocol::lemma_thinking_closed(heard, two.speaking().text_closed(), blocks, false);
            lemma_relays_all_called(heard, state, closed, calls);
        }
        let three = two.with_calls(delta);
        lemma_relays_kept(state, three, laws::calls_in(value), informed.chosen(choice));
    }
}

/// The pieces of calls that the data of a frame brings.
pub open spec fn frame_calls(data: Seq<char>) -> Seq<JsonModel> {
    if laws::is_read(data) {
        match codec::json_parse(data) {
            Ok(value) => laws::calls_in(value),
            Err(_) => Seq::empty(),
        }
    } else {
        Seq::empty()
    }
}

/// The pieces of calls that the data of frames brings.
pub open spec fn all_calls(frames: Seq<Seq<char>>) -> Seq<JsonModel>
    decreases frames.len(),
{
    if frames.len() == 0 {
        Seq::empty()
    } else {
        all_calls(frames.drop_last()) + frame_calls(frames.last())
    }
}

/// Whether no frame says that the answer is done.
pub open spec fn none_done(frames: Seq<Seq<char>>) -> bool {
    forall|i: int|
        0 <= i < frames.len() ==> text::trim_both(#[trigger] frames[i]) != "[DONE]"@
}

proof fn lemma_relays_processed(heard: Progress, state: ChatModel, data: Seq<char>)
    requires
        laws::sound(heard, state),
        !state.answer.finished,
        state.answer.next_index + laws::blocks_in(data) <= u64::MAX,
        !laws::tells_error(data),
        text::trim_both(data) != "[DONE]"@,
    ensures
        relays(state, state.processed(data), frame_calls(data)),
        !state.processed(data).state.answer.finished,
{
    lemma_relays_nothing(heard, state);
    if laws::is_read(data) {
        match codec::json_parse(data) {
            Ok(value) => {
                lemma_relays_told(heard, state, value);
                laws::lemma_told_goes_on(state, value);
            },
            Err(error) => {
                let event = state.read(codec::json_parse(data)).out[0];
                let step = state.processed(data);
                assert(step.out =~= Seq::empty().push(event));
                assert forall|i: u64| #[trigger]
                    event::input_at(step.out, i) == event::input_at(state.silent().out, i) by {
                    event::lemma_input_push(Seq::empty(), event, i);
                }
                lemma_relays_kept(state, state.silent(), Seq::empty(), step);
            },
        }
    }
}

proof fn lemma_run_relays(frames: Seq<Seq<char>>)
    requires
        laws::blocks_in_all(frames) <= u64::MAX,
        laws::no_errors(frames),
        none_done(frames),
    ensures
        relays(chat_stream::new_chat(), laws::run(frames), all_calls(frames)),
        !laws::run(frames).state.answer.finished,
    decreases frames.len(),
{
    if frames.len() == 0 {
        lemma_relays_nothing(protocol::nothing_heard(), chat_stream::new_chat());
    } else {
        let rest = frames.drop_last();
        let data = frames.last();
        assert forall|i: int| 0 <= i < rest.len() implies !laws::tells_error(
            #[trigger] rest[i],
        ) && text::trim_both(rest[i]) != "[DONE]"@ by {
            assert(rest[i] == frames[i]);
        }
        assert(data == frames[frames.len() - 1]);
        lemma_run_relays(rest);
        laws::lemma_run(rest);
        let before = laws::run(rest);
        let heard = protocol::nothing_heard().hears_all(before.out, false)->0;
        lemma_relays_processed(heard, before.state, data);
        lemma_relays_on(
            chat_stream::new_chat(),
            before,
            all_calls(rest),
            before.state.processed(data),
            frame_calls(data),
        );
    }
}

/// What the end of the first `n` calls gives the blocks of all of them.
proof fn lemma_ended_input(heard: Progress, step: ChatStep, n: int)
    requires
        laws::sound_step(heard, step),
        0 <= n <= step.state.tools.len(),
    ensures
        step.tools_ended(n).state.tools.len() == step.state.tools.len(),
        forall|i: int|
            n <= i < step.state.tools.len() ==> (#[trigger] step.tools_ended(n).state.tools[i])
                == step.state.tools[i],
        forall|i: int|
            0 <= i < step.state.tools.len() ==> event::input_at(
                step.tools_ended(n).out,
                (#[trigger] step.state.tools[i]).1.index,
            ) == event::input_at(step.out, step.state.tools[i].1.index) + if i < n {
                step.state.tools[i].1.pending
            } else {
                Seq::empty()
            },
    decreases n,
{
    let tools = step.state.tools;
    if n == 0 {
        assert forall|i: int| 0 <= i < tools.len() implies event::input_at(
            step.out,
            (#[trigger] tools[i]).1.index,
        ) + Seq::<char>::empty() == event::input_at(step.out, tools[i].1.index) by {
            assert(event::input_at(step.out, tools[i].1.index) + Seq::<char>::empty() =~= event::input_at(
                step.out,
                tools[i].1.index,
            ));
        }
    } else {
        let at = n - 1;
        lemma_ended_input(heard, step, at);
        let before = step.tools_ended(at);
        let tool = before.state.tools[at].1;
        assert(tool == tools[at].1);
        let step_in = ChatToolStep { tool, out: before.out };
        let next = step.tools_ended(n);
        let blocks = laws::slots(tools);
        assert forall|i: int| 0 <= i < tools.len() implies event::input_at(
            next.out,
            (#[trigger] tools[i]).1.index,
        ) == event::input_at(step.out, tools[i].1.index) + if i < n {
            tools[i].1.pending
        } else {
            Seq::empty()
        } by {
            lemma_tool_ended(step_in, tools[i].1.index);
            let first = event::input_at(step.out, tools[i].1.index);
            if i == at {
                assert(first + Seq::<char>::empty() + tool.pending =~= first + tool.pending);
            } else {
                assert(blocks[i].index == tools[i].1.index);
                assert(blocks[at].index == tool.index);
                assert(blocks[if i < at { i } else { at }].index != blocks[if i < at {
                    at
                } else {
                    i
                }].index);
            }
        }
        assert forall|i: int| n <= i < tools.len() implies (#[trigger] next.state.tools[i])
            == tools[i] by {
            assert(before.state.tools[i] == tools[i]);
        }
    }
}

proof fn lemma_tool_ended(step: ChatToolStep, index: u64)
    ensures
        event::input_at(step.ended().out, index) == event::input_at(step.out, index) + if index
            == step.tool.index {
            step.tool.pending
        } else {
            Seq::empty()
        },
{
    let named = step.tool.with_names();
    let start = EventModel::ToolStart { index: named.index, id: named.id, name: named.name };
    event::lemma_input_push(step.out, start, index);
    let known = if step.tool.started {
        step
    } else {
        ChatToolStep { tool: named, ..step }.begun()
    };
    let given = EventModel::InputDelta { index: known.tool.index, json: known.tool.pending };
    event::lemma_input_push(known.out, given, index);
    let passed = known.flushed();
    event::lemma_input_push(passed.out, EventModel::BlockStop { index: passed.tool.index }, index);
    assert(event::input_at(step.ended().out, index) =~= event::input_at(step.out, index) + if index
        == step.tool.index {
        step.tool.pending
    } else {
        Seq::empty()
    });
}

/// What the end of an answer gives the block of a call: what waits for it.
proof fn lemma_end_input(heard: Progress, state: ChatModel, key: u64)
    requires
        laws::sound(heard, state),
        !state.answer.finished,
        chat_stream::has_key(state.tools, key),
    ensures
        event::input_at(state.ended().out, call_at(state.tools, key).index) == call_at(
            state.tools,
            key,
        ).pending,
{
    let start = state.silent();
    let blocks = laws::slots(state.tools);
    let empty = Seq::<char>::empty();
    assert(heard.hears_all(Seq::empty(), false) == Some(heard));
    protocol::lemma_begun(heard, start.speaking(), blocks, false);
    let begun = start.speaking().begun();
    protocol::lemma_text_closed(heard, begun, blocks, false);
    protocol::lemma_thinking_closed(heard, begun.text_closed(), blocks, false);
    let closed = start.said(begun.text_closed().thinking_closed());
    lemma_speaking_is_no_input(start.speaking(), empty);
    lemma_speaking_is_no_input(begun, empty);
    lemma_speaking_is_no_input(begun.text_closed(), empty);
    let n = closed.state.tools.len() as int;
    lemma_ended_input(heard, closed, n);
    chat_stream::lemma_before(state.tools, key);
    let at = chat_stream::place(state.tools, key);
    let tool = state.tools[at].1;
    assert(closed.state.tools[at].1 == tool);
    let ended = closed.tools_ended(n);
    let out = ended.stopped().out;
    let stop = out[out.len() - 2];
    assert(out =~= ended.out.push(stop).push(EventModel::MessageStop));
    event::lemma_input_push(ended.out, stop, tool.index);
    event::lemma_input_push(ended.out.push(stop), EventModel::MessageStop, tool.index);
    assert(event::input_at(closed.out, tool.index) == empty);
    assert(empty + tool.pending =~= tool.pending);
}

/// The index of the block of the call under a key.
pub open spec fn block_of(frames: Seq<Seq<char>>, key: u64) -> u64 {
    call_at(laws::run(frames).state.tools, key).index
}

/// Over a whole answer each call has one block of a tool, whatever its pieces are,
/// and the input that this block is given is all input that was sent for the call,
/// in its order: that sent before the call had an id or a name too.
pub proof fn law_input_of_a_call(frames: Seq<Seq<char>>, key: u64)
    requires
        laws::blocks_in_all(frames) <= u64::MAX,
        laws::no_errors(frames),
        none_done(frames),
        is_sent(all_calls(frames), key),
    ensures
        protocol::has_tool(laws::whole(frames), block_of(frames, key)) == 1,
        event::input_at(laws::whole(frames), block_of(frames, key)) == sent_for(all_calls(frames), key),
{
    lemma_run_relays(frames);
    laws::lemma_run(frames);
    let start = protocol::nothing_heard();
    let before = laws::run(frames);
    let heard = start.hears_all(before.out, false)->0;
    let tools = before.state.tools;
    assert(chat_stream::has_key(tools, key));
    assert(relays_key(chat_stream::new_chat(), before, all_calls(frames), key));
    assert(!chat_stream::has_key(chat_stream::new_chat().tools, key));
    let index = block_of(frames, key);
    lemma_end_input(heard, before.state, key);
    let end = before.state.ended().out;
    event::lemma_input_both(before.out, end, index);
    assert(Seq::<char>::empty() + sent_for(all_calls(frames), key) =~= sent_for(
        all_calls(frames),
        key,
    ));
    laws::law_finish_in_order(heard, before.state);
    protocol::lemma_hears_both(start, before.out, end, false);
    chat_stream::lemma_before(tools, key);
    let at = chat_stream::place(tools, key);
    let blocks = laws::slots(tools);
    assert(blocks[at].index == index);
    protocol::law_heard_once(laws::whole(frames), index, false);
}

/// The blocks of tools of a whole answer are those of its calls: different calls
/// have different blocks, and every block of a tool is that of a call.
pub proof fn law_blocks_of_calls(frames: Seq<Seq<char>>, index: u64)
    requires
        laws::blocks_in_all(frames) <= u64::MAX,
        laws::no_errors(frames),
        none_done(frames),
    ensures
        forall|a: u64, b: u64|
            is_sent(all_calls(frames), a) && is_sent(all_calls(frames), b) && a != b
                ==> #[trigger] block_of(frames, a) != #[trigger] block_of(frames, b),
        protocol::has_tool(laws::whole(frames), index) > 0 ==> exists|key: u64|
            is_sent(all_calls(frames), key) && #[trigger] block_of(frames, key) == index,
{
    lemma_run_relays(frames);
    laws::lemma_run(frames);
    let start = protocol::nothing_heard();
    let before = laws::run(frames);
    let heard = start.hears_all(before.out, false)->0;
    let tools = before.state.tools;
    let blocks = laws::slots(tools);
    assert forall|a: u64, b: u64|
        is_sent(all_calls(frames), a) && is_sent(all_calls(frames), b) && a
            != b implies #[trigger] block_of(frames, a) != #[trigger] block_of(frames, b) by {
        assert(chat_stream::has_key(tools, a) && chat_stream::has_key(tools, b));
        chat_stream::lemma_before(tools, a);
        chat_stream::lemma_before(tools, b);
        let i = chat_stream::place(tools, a);
        let j = chat_stream::place(tools, b);
        assert(i != j);
        assert(blocks[i].index == tools[i].1.index);
        assert(blocks[j].index == tools[j].1.index);
        assert(blocks[if i < j { i } else { j }].index != blocks[if i < j { j } else { i }].index);
    }
    laws::law_finish_in_order(heard, before.state);
    let end = before.state.ended().out;
    protocol::lemma_hears_both(start, before.out, end, false);
    protocol::law_heard_once(laws::whole(frames), index, false);
    if protocol::has_tool(laws::whole(frames), index) > 0 {
        assert(protocol::is_call(blocks, index));
        let k = choose|k: int| 0 <= k < blocks.len() && (#[trigger] blocks[k]).index == index;
        lemma_key_at(tools, k);
        let key = tools[k].0;
        assert(chat_stream::has_key(tools, key));
        assert(!chat_stream::has_key(chat_stream::new_chat().tools, key));
        assert(is_sent(all_calls(frames), key));
        assert(block_of(frames, key) == index);
    }
}

}
