//! What holds of the calls of tools over a whole answer.
use vstd::prelude::*;

use crate::answer::AnswerStep;
use crate::event::{self, EventModel};
use crate::json::codec;
use crate::json::JsonModel;
use crate::protocol::{self, Progress};
use crate::responses_stream::laws;
use crate::responses_stream::{
    self, ResponsesCalls, ResponsesModel, ResponsesStep, ResponsesToolModel, ResponsesToolStep,
};
use crate::sse::FrameModel;
use crate::text;

verus! {

/// What a document says of a call: the key of the call, a piece of its input, and
/// the whole of its input where the call ends.
pub struct Touch {
    pub key: Seq<char>,
    pub piece: Option<Seq<char>>,
    pub end: Option<Seq<char>>,
}

/// What a document, under the name of an event, says of a call, if it speaks of one.
pub open spec fn touches_in(event_name: Option<Seq<char>>, value: JsonModel) -> Seq<Touch> {
    let kind = responses_stream::kind_of(value, event_name);
    if laws::fails(event_name, value) {
        Seq::empty()
    } else if kind == "response.output_item.added"@ {
        match responses_stream::called_item(value) {
            Some(item) => seq![
                Touch { key: responses_stream::key_of(value, item), piece: None, end: None },
            ],
            None => Seq::empty(),
        }
    } else if kind == "response.function_call_arguments.delta"@ {
        seq![
            Touch {
                key: responses_stream::key_of(value, JsonModel::Null),
                piece: value.text_field("delta"@),
                end: None,
            },
        ]
    } else if kind == "response.output_item.done"@ {
        match responses_stream::called_item(value) {
            Some(item) => seq![
                Touch {
                    key: responses_stream::key_of(value, item),
                    piece: None,
                    end: Some(responses_stream::or_empty(item.text_field("arguments"@))),
                },
            ],
            None => Seq::empty(),
        }
    } else {
        Seq::empty()
    }
}

/// What a frame says of a call, if it speaks of one.
pub open spec fn frame_touches(frame: FrameModel) -> Seq<Touch> {
    if laws::is_read(frame.data) {
        match codec::json_parse(frame.data) {
            Ok(value) => touches_in(frame.event, value),
            Err(_) => Seq::empty(),
        }
    } else {
        Seq::empty()
    }
}

/// What frames say of calls until the answer is finished.
pub open spec fn touches(frames: Seq<FrameModel>) -> Seq<Touch>
    decreases frames.len(),
{
    if frames.len() == 0 {
        Seq::empty()
    } else if laws::run(frames.drop_last()).state.answer.finished {
        touches(frames.drop_last())
    } else {
        touches(frames.drop_last()) + frame_touches(frames.last())
    }
}

/// Whether a call is spoken of.
pub open spec fn is_seen(list: Seq<Touch>, key: Seq<char>) -> bool {
    exists|i: int| 0 <= i < list.len() && (#[trigger] list[i]).key == key
}

/// Whether a piece of the input of a call came.
pub open spec fn has_piece(list: Seq<Touch>, key: Seq<char>) -> bool {
    exists|i: int| 0 <= i < list.len() && (#[trigger] list[i]).key == key && list[i].piece is Some
}

/// The pieces of the input of a call, each behind the one before it.
pub open spec fn pieces_for(list: Seq<Touch>, key: Seq<char>) -> Seq<char>
    decreases list.len(),
{
    if list.len() == 0 {
        Seq::empty()
    } else {
        pieces_for(list.drop_last(), key) + if list.last().key == key {
            responses_stream::or_empty(list.last().piece)
        } else {
            Seq::empty()
        }
    }
}

/// The whole input that comes with the ends of a call before any piece of it came.
pub open spec fn early_ends(list: Seq<Touch>, key: Seq<char>) -> Seq<char>
    decreases list.len(),
{
    if list.len() == 0 {
        Seq::empty()
    } else {
        early_ends(list.drop_last(), key) + if list.last().key == key && !has_piece(
            list.drop_last(),
            key,
        ) {
            responses_stream::or_empty(list.last().end)
        } else {
            Seq::empty()
        }
    }
}

/// What a call was given, and whether any of it came piece by piece.
pub struct GivenModel {
    pub emitted: bool,
    pub input: Seq<char>,
}

/// What a call is given by what is said of calls.
spec fn given(start: bool, list: Seq<Touch>, key: Seq<char>) -> GivenModel
    decreases list.len(),
{
    if list.len() == 0 {
        GivenModel { emitted: start, input: Seq::empty() }
    } else {
        let before = given(start, list.drop_last(), key);
        let last = list.last();
        if last.key != key {
            before
        } else if let Some(piece) = last.piece {
            GivenModel { emitted: true, input: before.input + piece }
        } else if before.emitted {
            before
        } else {
            GivenModel { input: before.input + responses_stream::or_empty(last.end), ..before }
        }
    }
}

/// What a call is given by what is said of it once.
proof fn lemma_given_once(start: bool, touch: Touch)
    ensures
        given(start, seq![touch], touch.key) == (if let Some(piece) = touch.piece {
            GivenModel { emitted: true, input: piece }
        } else if start {
            GivenModel { emitted: true, input: Seq::empty() }
        } else {
            GivenModel { emitted: false, input: responses_stream::or_empty(touch.end) }
        }),
{
    let empty = Seq::<char>::empty();
    let none = Seq::<Touch>::empty();
    assert(seq![touch].drop_last() =~= none);
    assert(given(start, none, touch.key) == (GivenModel { emitted: start, input: empty }));
    if let Some(piece) = touch.piece {
        assert(empty + piece =~= piece);
    }
    let end = responses_stream::or_empty(touch.end);
    assert(empty + end =~= end);
}

proof fn lemma_given_both(start: bool, a: Seq<Touch>, b: Seq<Touch>, key: Seq<char>)
    ensures
        ({
            let one = given(start, a, key);
            let two = given(one.emitted, b, key);
            given(start, a + b, key) == (GivenModel {
                emitted: two.emitted,
                input: one.input + two.input,
            })
        }),
    decreases b.len(),
{
    let one = given(start, a, key);
    if b.len() == 0 {
        assert(a + b =~= a);
        assert(one.input + Seq::<char>::empty() =~= one.input);
    } else {
        lemma_given_both(start, a, b.drop_last(), key);
        assert((a + b).drop_last() =~= a + b.drop_last());
        let two = given(one.emitted, b.drop_last(), key);
        let last = b.last();
        if let Some(piece) = last.piece {
            assert((one.input + two.input) + piece =~= one.input + (two.input + piece));
        }
        let end = responses_stream::or_empty(last.end);
        assert((one.input + two.input) + end =~= one.input + (two.input + end));
    }
}

proof fn lemma_seen_both(a: Seq<Touch>, b: Seq<Touch>, key: Seq<char>)
    ensures
        is_seen(a + b, key) == (is_seen(a, key) || is_seen(b, key)),
{
    let all = a + b;
    if is_seen(a, key) {
        let i = choose|i: int| 0 <= i < a.len() && (#[trigger] a[i]).key == key;
        assert(all[i] == a[i]);
    }
    if is_seen(b, key) {
        let i = choose|i: int| 0 <= i < b.len() && (#[trigger] b[i]).key == key;
        assert(all[a.len() + i] == b[i]);
    }
    if is_seen(all, key) {
        let i = choose|i: int| 0 <= i < all.len() && (#[trigger] all[i]).key == key;
        if i < a.len() {
            assert(a[i] == all[i]);
        } else {
            assert(b[i - a.len()] == all[i]);
        }
    }
}

proof fn lemma_nothing_given(start: bool, list: Seq<Touch>, key: Seq<char>)
    requires
        !is_seen(list, key),
    ensures
        given(start, list, key) == (GivenModel { emitted: start, input: Seq::empty() }),
    decreases list.len(),
{
    if list.len() > 0 {
        let rest = list.drop_last();
        lemma_seen_both(rest, seq![list.last()], key);
        assert(rest + seq![list.last()] =~= list);
        assert(seq![list.last()][0] == list.last());
        lemma_nothing_given(start, rest, key);
        assert(list.last().key != key) by {
            assert(list[list.len() - 1] == list.last());
        }
    }
}

proof fn lemma_piece_push(list: Seq<Touch>, touch: Touch, key: Seq<char>)
    ensures
        has_piece(list.push(touch), key) == (has_piece(list, key) || (touch.key == key
            && touch.piece is Some)),
{
    let more = list.push(touch);
    assert(more[list.len() as int] == touch);
    if has_piece(list, key) {
        let i = choose|i: int|
            0 <= i < list.len() && (#[trigger] list[i]).key == key && list[i].piece is Some;
        assert(more[i] == list[i]);
    }
    if has_piece(more, key) {
        let i = choose|i: int|
            0 <= i < more.len() && (#[trigger] more[i]).key == key && more[i].piece is Some;
        if i < list.len() {
            assert(list[i] == more[i]);
        }
    }
}

/// No document brings a piece of the input of a call and its end.
pub open spec fn one_at_a_time(list: Seq<Touch>) -> bool {
    forall|i: int|
        0 <= i < list.len() ==> (#[trigger] list[i]).piece is None || list[i].end is None
}

/// What a call is given from its beginning: the whole input of its ends before any
/// piece came, and then the pieces.
proof fn lemma_given_in_all(list: Seq<Touch>, key: Seq<char>)
    requires
        one_at_a_time(list),
    ensures
        given(false, list, key) == (GivenModel {
            emitted: has_piece(list, key),
            input: early_ends(list, key) + pieces_for(list, key),
        }),
        !has_piece(list, key) ==> pieces_for(list, key) == Seq::<char>::empty(),
    decreases list.len(),
{
    if list.len() == 0 {
        assert(early_ends(list, key) + pieces_for(list, key) =~= Seq::<char>::empty());
    } else {
        let rest = list.drop_last();
        let last = list.last();
        assert forall|i: int| 0 <= i < rest.len() implies (#[trigger] rest[i]).piece is None
            || rest[i].end is None by {
            assert(rest[i] == list[i]);
        }
        assert(list[list.len() - 1] == last);
        lemma_given_in_all(rest, key);
        lemma_piece_push(rest, last, key);
        assert(rest.push(last) =~= list);
        let early = early_ends(rest, key);
        let pieces = pieces_for(rest, key);
        assert(early_ends(list, key) + pieces_for(list, key) =~= given(false, list, key).input);
        if !has_piece(list, key) {
            assert(pieces_for(list, key) =~= Seq::<char>::empty());
        }
    }
}

/// The call under a key.
pub open spec fn call_at(tools: ResponsesCalls, key: Seq<char>) -> ResponsesToolModel {
    tools[responses_stream::place(tools, key)].1
}

/// Where keys ascend, each key stands at its place.
proof fn lemma_key_at(tools: ResponsesCalls, i: int)
    requires
        responses_stream::ascending(tools),
        0 <= i < tools.len(),
    ensures
        responses_stream::place(tools, tools[i].0) == i,
        responses_stream::has_key(tools, tools[i].0),
        call_at(tools, tools[i].0) == tools[i].1,
{
    text::lemma_precedes_total(tools[i].0, tools[i].0);
    responses_stream::lemma_place(tools, tools[i].0, i);
}

proof fn lemma_inserted(tools: ResponsesCalls, key: Seq<char>, tool: ResponsesToolModel)
    requires
        responses_stream::ascending(tools),
        !responses_stream::has_key(tools, key),
        responses_stream::ascending(
            tools.insert(responses_stream::place(tools, key), (key, tool)),
        ),
    ensures
        ({
            let more = tools.insert(responses_stream::place(tools, key), (key, tool));
            &&& forall|k: Seq<char>| #[trigger]
                responses_stream::has_key(more, k) == (responses_stream::has_key(tools, k) || k
                    == key)
            &&& forall|k: Seq<char>|
                responses_stream::has_key(tools, k) ==> #[trigger] call_at(more, k) == call_at(
                    tools,
                    k,
                )
            &&& call_at(more, key) == tool
        }),
{
    let at = responses_stream::place(tools, key);
    responses_stream::lemma_before(tools, key);
    let more = tools.insert(at, (key, tool));
    assert(more[at] == (key, tool));
    lemma_key_at(more, at);
    assert forall|k: Seq<char>|
        responses_stream::has_key(tools, k) implies responses_stream::has_key(more, k)
        && #[trigger] call_at(more, k) == call_at(tools, k) by {
        responses_stream::lemma_before(tools, k);
        let i = responses_stream::place(tools, k);
        let j = if i < at { i } else { i + 1 };
        assert(more[j] == tools[i]);
        lemma_key_at(more, j);
    }
    assert forall|k: Seq<char>| #[trigger]
        responses_stream::has_key(more, k) == (responses_stream::has_key(tools, k) || k
            == key) by {
        if responses_stream::has_key(more, k) && k != key {
            responses_stream::lemma_before(more, k);
            let j = responses_stream::place(more, k);
            assert(j != at);
            let i = if j < at { j } else { j - 1 };
            assert(more[j] == tools[i]);
            lemma_key_at(tools, i);
        }
        if responses_stream::has_key(tools, k) {
            assert(call_at(more, k) == call_at(tools, k));
        }
    }
}

proof fn lemma_updated(tools: ResponsesCalls, key: Seq<char>, tool: ResponsesToolModel)
    requires
        responses_stream::ascending(tools),
        responses_stream::has_key(tools, key),
        responses_stream::ascending(
            tools.update(responses_stream::place(tools, key), (key, tool)),
        ),
    ensures
        ({
            let new = tools.update(responses_stream::place(tools, key), (key, tool));
            &&& forall|k: Seq<char>| #[trigger]
                responses_stream::has_key(new, k) == responses_stream::has_key(tools, k)
            &&& forall|k: Seq<char>|
                responses_stream::has_key(tools, k) && k != key ==> #[trigger] call_at(new, k)
                    == call_at(tools, k)
            &&& call_at(new, key) == tool
        }),
{
    let at = responses_stream::place(tools, key);
    responses_stream::lemma_before(tools, key);
    let new = tools.update(at, (key, tool));
    lemma_key_at(new, at);
    assert forall|k: Seq<char>|
        responses_stream::has_key(tools, k) implies responses_stream::has_key(new, k) && (k != key
        ==> #[trigger] call_at(new, k) == call_at(tools, k)) by {
        responses_stream::lemma_before(tools, k);
        let i = responses_stream::place(tools, k);
        assert(new[i].0 == k);
        lemma_key_at(new, i);
    }
    assert forall|k: Seq<char>| #[trigger]
        responses_stream::has_key(new, k) == responses_stream::has_key(tools, k) by {
        if responses_stream::has_key(new, k) {
            responses_stream::lemma_before(new, k);
            let i = responses_stream::place(new, k);
            assert(tools[i].0 == k);
            lemma_key_at(tools, i);
        }
        if responses_stream::has_key(tools, k) && k != key {
            assert(call_at(new, k) == call_at(tools, k));
        }
    }
}

/// Whether the input of a call came piece by piece.
pub open spec fn was_emitted(tools: ResponsesCalls, key: Seq<char>) -> bool {
    responses_stream::has_key(tools, key) && call_at(tools, key).emitted
}

/// Whether an index is that of the block of a call.
pub open spec fn is_block_of(tools: ResponsesCalls, index: u64) -> bool {
    exists|k: Seq<char>|
        responses_stream::has_key(tools, k) && (#[trigger] call_at(tools, k)).index == index
}

/// From a state on, what is said of calls is passed on: there is a call for each key
/// that there was one for or that is spoken of, a new one has one block of a tool
/// that began, and each block was given what is said of its call.
spec fn relays(from: ResponsesModel, step: ResponsesStep, list: Seq<Touch>) -> bool {
    &&& forall|k: Seq<char>| #[trigger]
        responses_stream::has_key(step.state.tools, k) == (responses_stream::has_key(
            from.tools,
            k,
        ) || is_seen(list, k))
    &&& forall|k: Seq<char>|
        responses_stream::has_key(step.state.tools, k) ==> #[trigger] relays_key(
            from,
            step,
            list,
            k,
        )
    &&& forall|i: u64|
        i >= step.state.answer.next_index ==> #[trigger] event::input_at(step.out, i) == Seq::<
            char,
        >::empty() && protocol::has_tool(step.out, i) == 0
    &&& forall|i: u64|
        (#[trigger] protocol::has_tool(step.out, i)) > 0 ==> is_block_of(step.state.tools, i)
    &&& from.answer.next_index <= step.state.answer.next_index
}

/// The same of one key.
spec fn relays_key(
    from: ResponsesModel,
    step: ResponsesStep,
    list: Seq<Touch>,
    key: Seq<char>,
) -> bool {
    let tool = call_at(step.state.tools, key);
    let known = responses_stream::has_key(from.tools, key);
    let sent = given(was_emitted(from.tools, key), list, key);
    &&& event::input_at(step.out, tool.index) == sent.input
    &&& tool.emitted == sent.emitted
    &&& tool.index < step.state.answer.next_index
    &&& protocol::has_tool(step.out, tool.index) == protocol::once_if(!known)
    &&& if known {
        tool.index == call_at(from.tools, key).index
    } else {
        tool.index >= from.answer.next_index
    }
}

/// Calls in two stretches of an answer are those of the whole.
proof fn lemma_relays_on(
    from: ResponsesModel,
    one: ResponsesStep,
    a: Seq<Touch>,
    two: ResponsesStep,
    b: Seq<Touch>,
)
    requires
        relays(from, one, a),
        relays(one.state, two, b),
    ensures
        relays(from, (ResponsesStep { state: two.state, out: one.out + two.out }), a + b),
{
    let whole = ResponsesStep { state: two.state, out: one.out + two.out };
    assert forall|k: Seq<char>| #[trigger]
        responses_stream::has_key(whole.state.tools, k) == (responses_stream::has_key(
            from.tools,
            k,
        ) || is_seen(a + b, k)) by {
        lemma_seen_both(a, b, k);
        assert(responses_stream::has_key(one.state.tools, k) == (responses_stream::has_key(
            from.tools,
            k,
        ) || is_seen(a, k)));
    }
    assert forall|k: Seq<char>|
        responses_stream::has_key(whole.state.tools, k) implies #[trigger] relays_key(
        from,
        whole,
        a + b,
        k,
    ) by {
        lemma_given_both(was_emitted(from.tools, k), a, b, k);
        assert(relays_key(one.state, two, b, k));
        let tool = call_at(two.state.tools, k);
        event::lemma_input_both(one.out, two.out, tool.index);
        protocol::lemma_tool_both(one.out, two.out, tool.index);
        if responses_stream::has_key(one.state.tools, k) {
            assert(relays_key(from, one, a, k));
        } else {
            assert(!is_seen(a, k) && !responses_stream::has_key(from.tools, k));
            lemma_nothing_given(was_emitted(from.tools, k), a, k);
            assert(event::input_at(one.out, tool.index) == Seq::<char>::empty());
        }
    }
    assert forall|i: u64|
        i >= whole.state.answer.next_index implies #[trigger] event::input_at(whole.out, i)
        == Seq::<char>::empty() && protocol::has_tool(whole.out, i) == 0 by {
        event::lemma_input_both(one.out, two.out, i);
        protocol::lemma_tool_both(one.out, two.out, i);
        assert(event::input_at(one.out, i) == Seq::<char>::empty());
        assert(event::input_at(two.out, i) == Seq::<char>::empty());
    }
    assert forall|i: u64|
        (#[trigger] protocol::has_tool(whole.out, i)) > 0 implies is_block_of(
        whole.state.tools,
        i,
    ) by {
        protocol::lemma_tool_both(one.out, two.out, i);
        if protocol::has_tool(one.out, i) > 0 {
            assert(is_block_of(one.state.tools, i));
            let k = choose|k: Seq<char>|
                responses_stream::has_key(one.state.tools, k) && (#[trigger] call_at(
                    one.state.tools,
                    k,
                )).index == i;
            assert(responses_stream::has_key(two.state.tools, k));
            assert(relays_key(one.state, two, b, k));
            assert(call_at(two.state.tools, k).index == i);
        }
    }
}

/// Whether events say nothing more of calls than those before them.
spec fn quiet(before: Seq<EventModel>, now: Seq<EventModel>) -> bool {
    forall|i: u64|
        #![trigger event::input_at(now, i)]
        #![trigger protocol::has_tool(now, i)]
        event::input_at(now, i) == event::input_at(before, i) && protocol::has_tool(now, i)
            == protocol::has_tool(before, i)
}

proof fn lemma_quiet_push(before: Seq<EventModel>, now: Seq<EventModel>, event: EventModel)
    requires
        quiet(before, now),
        !(event is InputDelta),
        !(event is ToolStart),
    ensures
        quiet(before, now.push(event)),
{
    assert forall|i: u64|
        event::input_at(now.push(event), i) == event::input_at(before, i) && protocol::has_tool(
            now.push(event),
            i,
        ) == protocol::has_tool(before, i) by {
        event::lemma_input_push(now, event, i);
        protocol::lemma_tool_push(now, event, i);
        assert(event::input_at(now, i) == event::input_at(before, i));
    }
}

/// Text and thinking say nothing of calls.
proof fn lemma_speaking_is_quiet(step: AnswerStep, piece: Seq<char>)
    ensures
        quiet(step.out, step.begun().out),
        quiet(step.out, step.text_closed().out),
        quiet(step.out, step.thinking_closed().out),
        quiet(step.out, step.text_open().out),
        quiet(step.out, step.thinking_open().out),
        quiet(step.out, step.text_said(piece).out),
        quiet(step.out, step.thinking_said(piece).out),
{
    let answer = step.answer;
    let index = answer.next_index;
    let out = step.out;
    assert(quiet(out, out));
    lemma_quiet_push(out, out, EventModel::MessageStart { id: answer.id, model: answer.model });
    if let Some(open) = answer.text_index {
        lemma_quiet_push(out, out, EventModel::BlockStop { index: open });
    }
    if let Some(open) = answer.thinking_index {
        lemma_quiet_push(out, out, EventModel::BlockStop { index: open });
    }
    lemma_quiet_push(out, step.thinking_closed().out, EventModel::TextStart { index });
    lemma_quiet_push(out, step.text_closed().out, EventModel::ThinkingStart { index });
    let one = step.text_open();
    let two = step.thinking_open();
    lemma_quiet_push(
        out,
        one.out,
        EventModel::TextDelta { index: one.answer.text_index->0, text: piece },
    );
    lemma_quiet_push(
        out,
        two.out,
        EventModel::ThinkingDelta { index: two.answer.thinking_index->0, thinking: piece },
    );
}

/// An answer whose calls keep their keys, blocks and input, and whose events say
/// nothing more of calls, relays the same.
proof fn lemma_relays_kept(
    from: ResponsesModel,
    step: ResponsesStep,
    list: Seq<Touch>,
    next: ResponsesStep,
)
    requires
        relays(from, step, list),
        next.state.tools == step.state.tools,
        next.state.answer.next_index >= step.state.answer.next_index,
        quiet(step.out, next.out),
    ensures
        relays(from, next, list),
{
    assert forall|k: Seq<char>|
        responses_stream::has_key(next.state.tools, k) implies #[trigger] relays_key(
        from,
        next,
        list,
        k,
    ) by {
        assert(relays_key(from, step, list, k));
    }
    assert forall|i: u64|
        i >= next.state.answer.next_index implies #[trigger] event::input_at(next.out, i) == Seq::<
        char,
    >::empty() && protocol::has_tool(next.out, i) == 0 by {
        assert(event::input_at(step.out, i) == Seq::<char>::empty());
    }
    assert forall|i: u64|
        (#[trigger] protocol::has_tool(next.out, i)) > 0 implies is_block_of(
        next.state.tools,
        i,
    ) by {
        assert(protocol::has_tool(step.out, i) > 0);
    }
}

/// From a state that agrees with what was heard, nothing was relayed yet.
proof fn lemma_relays_nothing(heard: Progress, state: ResponsesModel)
    requires
        laws::sound(heard, state),
        !state.answer.finished,
    ensures
        relays(state, state.silent(), Seq::empty()),
{
    let none = Seq::<Touch>::empty();
    let step = state.silent();
    assert forall|k: Seq<char>| #[trigger]
        responses_stream::has_key(step.state.tools, k) == (responses_stream::has_key(
            state.tools,
            k,
        ) || is_seen(none, k)) by {
        assert(!is_seen(none, k));
    }
    assert forall|k: Seq<char>|
        responses_stream::has_key(step.state.tools, k) implies #[trigger] relays_key(
        state,
        step,
        none,
        k,
    ) by {
        responses_stream::lemma_before(state.tools, k);
        let at = responses_stream::place(state.tools, k);
        let blocks = laws::slots(state.tools);
        assert(protocol::slot_agrees(heard, state.answer, blocks[at]));
        assert(blocks[at].index == state.tools[at].1.index);
    }
}

/// Calls under different keys have different blocks.
proof fn lemma_different_blocks(heard: Progress, step: ResponsesStep, a: Seq<char>, b: Seq<char>)
    requires
        laws::sound_step(heard, step),
        responses_stream::has_key(step.state.tools, a),
        responses_stream::has_key(step.state.tools, b),
        a != b,
    ensures
        call_at(step.state.tools, a).index != call_at(step.state.tools, b).index,
{
    let tools = step.state.tools;
    responses_stream::lemma_before(tools, a);
    responses_stream::lemma_before(tools, b);
    let i = responses_stream::place(tools, a);
    let j = responses_stream::place(tools, b);
    assert(i != j);
    let blocks = laws::slots(tools);
    assert(blocks[i].index == tools[i].1.index);
    assert(blocks[j].index == tools[j].1.index);
    assert(blocks[if i < j { i } else { j }].index != blocks[if i < j { j } else { i }].index);
}

/// A document that speaks of a call and says nothing of its input.
spec fn mention(key: Seq<char>) -> Seq<Touch> {
    seq![Touch { key, piece: None, end: None }]
}

/// A call that becomes known has one block that begins.
proof fn lemma_relays_known(
    heard: Progress,
    state: ResponsesModel,
    step: ResponsesStep,
    key: Seq<char>,
    item: JsonModel,
)
    requires
        laws::sound_step(heard, step),
        step.state.answer.next_index < u64::MAX,
        relays(state, step, Seq::empty()),
        step.state.tools == state.tools,
    ensures
        relays(state, step.tool_known(key, item), mention(key)),
{
    let none = Seq::<Touch>::empty();
    let empty = Seq::<char>::empty();
    let list = mention(key);
    let touch = Touch { key, piece: None, end: None };
    lemma_speaking_is_quiet(step.speaking(), empty);
    lemma_speaking_is_quiet(step.speaking().text_closed(), empty);
    let closed = step.said(step.speaking().text_closed().thinking_closed());
    assert(quiet(step.out, closed.out)) by {
        assert forall|i: u64|
            event::input_at(closed.out, i) == event::input_at(step.out, i) && protocol::has_tool(
                closed.out,
                i,
            ) == protocol::has_tool(step.out, i) by {
            let between = step.speaking().text_closed().out;
            assert(event::input_at(between, i) == event::input_at(step.out, i));
            assert(event::input_at(closed.out, i) == event::input_at(between, i));
        }
    }
    lemma_relays_kept(state, step, none, closed);
    laws::lemma_tool_known(heard, step, key, item);
    let tools = closed.state.tools;
    let fresh = !responses_stream::has_key(tools, key);
    responses_stream::lemma_before(tools, key);
    responses_stream::lemma_has_key(closed, key);
    laws::lemma_more_ascends(closed, key);
    let alone = closed.with_key(key);
    let held = alone.state.tools;
    let at = responses_stream::place(held, key);
    let next = step.tool_known(key, item);
    let before = held[at].1;
    let tool = alone.tool(at).known(item).tool;
    if fresh {
        lemma_inserted(
            tools,
            key,
            responses_stream::new_tool(closed.state.answer.next_index),
        );
    }
    assert(next.state.tools == held.update(at, (key, tool)));
    lemma_updated(held, key, tool);
    if !fresh {
        assert(tools[at].1.started);
    }
    let named = before.named(item);
    let start = EventModel::ToolStart { index: named.index, id: named.id, name: named.name };
    assert(tool.index == before.index && tool.emitted == before.emitted);
    assert(next.out == if fresh { closed.out.push(start) } else { closed.out });
    assert forall|i: u64|
        event::input_at(next.out, i) == event::input_at(closed.out, i) && protocol::has_tool(
            next.out,
            i,
        ) == protocol::has_tool(closed.out, i) + protocol::once_if(
            fresh && i == before.index,
        ) by {
        event::lemma_input_push(closed.out, start, i);
        protocol::lemma_tool_push(closed.out, start, i);
    }
    assert(list[0] == touch);
    assert(list.drop_last() =~= none);
    assert forall|k: Seq<char>| is_seen(list, k) == (k == key) by {
        assert(list[0].key == key);
    }
    assert forall|k: Seq<char>| #[trigger]
        responses_stream::has_key(next.state.tools, k) == (responses_stream::has_key(
            state.tools,
            k,
        ) || is_seen(list, k)) by {
        assert(is_seen(list, k) == (k == key));
        assert(responses_stream::has_key(next.state.tools, k) == responses_stream::has_key(
            held,
            k,
        ));
    }
    assert forall|k: Seq<char>|
        responses_stream::has_key(next.state.tools, k) implies #[trigger] relays_key(
        state,
        next,
        list,
        k,
    ) by {
        let start_k = was_emitted(state.tools, k);
        assert(given(start_k, none, k) == (GivenModel { emitted: start_k, input: empty }));
        assert(empty + empty =~= empty);
        assert(given(start_k, list, k) == (GivenModel { emitted: start_k, input: empty }));
        if k == key {
            assert(event::input_at(next.out, before.index) == event::input_at(
                closed.out,
                before.index,
            ));
            if fresh {
                assert(event::input_at(closed.out, closed.state.answer.next_index) == empty);
            } else {
                assert(relays_key(state, closed, none, key));
            }
        } else {
            assert(responses_stream::has_key(held, k));
            assert(responses_stream::has_key(tools, k));
            assert(relays_key(state, closed, none, k));
            assert(call_at(next.state.tools, k) == call_at(held, k));
            assert(call_at(held, k) == call_at(tools, k));
            let index = call_at(tools, k).index;
            assert(event::input_at(next.out, index) == event::input_at(closed.out, index));
            if fresh {
                assert(index != before.index);
            }
        }
    }
    assert forall|i: u64|
        i >= next.state.answer.next_index implies #[trigger] event::input_at(next.out, i) == empty
        && protocol::has_tool(next.out, i) == 0 by {
        assert(event::input_at(closed.out, i) == empty);
        if fresh {
            assert(i != before.index);
        }
    }
    assert forall|i: u64|
        (#[trigger] protocol::has_tool(next.out, i)) > 0 implies is_block_of(
        next.state.tools,
        i,
    ) by {
        if fresh && i == before.index {
            assert(call_at(next.state.tools, key).index == i);
        } else {
            assert(event::input_at(next.out, i) == event::input_at(closed.out, i));
            assert(protocol::has_tool(closed.out, i) > 0);
            assert(is_block_of(tools, i));
            let k = choose|k: Seq<char>|
                responses_stream::has_key(tools, k) && (#[trigger] call_at(tools, k)).index == i;
            assert(responses_stream::has_key(next.state.tools, k));
            if k == key {
                assert(call_at(next.state.tools, key).index == i);
            } else {
                assert(responses_stream::has_key(held, k));
                assert(call_at(held, k) == call_at(tools, k));
                assert(call_at(next.state.tools, k).index == i);
            }
        }
    }
}

/// A known call that is spoken of is given what is said of its input, and no other
/// call is given anything.
proof fn lemma_relays_given(
    heard: Progress,
    state: ResponsesModel,
    known: ResponsesStep,
    touch: Touch,
    tool: ResponsesToolStep,
)
    requires
        laws::sound_step(heard, known),
        relays(state, known, mention(touch.key)),
        responses_stream::has_key(known.state.tools, touch.key),
        ({
            let before = call_at(known.state.tools, touch.key);
            let sent = given(before.emitted, seq![touch], touch.key);
            &&& tool.tool.index == before.index
            &&& tool.tool.emitted == sent.emitted
            &&& event::input_at(tool.out, before.index) == event::input_at(
                known.out,
                before.index,
            ) + sent.input
            &&& forall|i: u64|
                i != before.index ==> #[trigger] event::input_at(tool.out, i) == event::input_at(
                    known.out,
                    i,
                )
            &&& forall|i: u64| #[trigger]
                protocol::has_tool(tool.out, i) == protocol::has_tool(known.out, i)
        }),
        responses_stream::ascending(
            known.with_tool(
                responses_stream::place(known.state.tools, touch.key),
                tool,
            ).state.tools,
        ),
    ensures
        relays(
            state,
            known.with_tool(responses_stream::place(known.state.tools, touch.key), tool),
            seq![touch],
        ),
{
    let empty = Seq::<char>::empty();
    let key = touch.key;
    let held = known.state.tools;
    let at = responses_stream::place(held, key);
    responses_stream::lemma_before(held, key);
    let next = known.with_tool(at, tool);
    let before = call_at(held, key);
    let list = seq![touch];
    let old_list = mention(key);
    assert(next.state.tools == held.update(at, (key, tool.tool)));
    lemma_updated(held, key, tool.tool);
    assert(list.drop_last() =~= Seq::<Touch>::empty());
    assert(old_list.drop_last() =~= Seq::<Touch>::empty());
    assert forall|k: Seq<char>| is_seen(list, k) == is_seen(old_list, k) by {
        assert(list[0].key == key);
        assert(old_list[0].key == key);
    }
    assert forall|k: Seq<char>| #[trigger]
        responses_stream::has_key(next.state.tools, k) == (responses_stream::has_key(
            state.tools,
            k,
        ) || is_seen(list, k)) by {
        assert(responses_stream::has_key(held, k) == (responses_stream::has_key(state.tools, k)
            || is_seen(old_list, k)));
        assert(is_seen(list, k) == is_seen(old_list, k));
    }
    assert forall|k: Seq<char>|
        responses_stream::has_key(next.state.tools, k) implies #[trigger] relays_key(
        state,
        next,
        list,
        k,
    ) by {
        assert(responses_stream::has_key(held, k));
        assert(relays_key(state, known, old_list, k));
        let start = was_emitted(state.tools, k);
        assert(empty + empty =~= empty);
        assert(given(start, Seq::empty(), k) == (GivenModel { emitted: start, input: empty }));
        assert(given(start, old_list, k) == (GivenModel { emitted: start, input: empty }));
        if k == key {
            let sent = given(before.emitted, list, key);
            assert(empty + sent.input =~= sent.input);
            assert(protocol::has_tool(tool.out, before.index) == protocol::has_tool(
                known.out,
                before.index,
            ));
        } else {
            assert(call_at(next.state.tools, k) == call_at(held, k));
            lemma_different_blocks(heard, known, k, key);
            let index = call_at(held, k).index;
            assert(event::input_at(tool.out, index) == event::input_at(known.out, index));
            assert(protocol::has_tool(tool.out, index) == protocol::has_tool(known.out, index));
        }
    }
    assert forall|i: u64|
        i >= next.state.answer.next_index implies #[trigger] event::input_at(next.out, i) == empty
        && protocol::has_tool(next.out, i) == 0 by {
        assert(relays_key(state, known, old_list, key));
        assert(i != before.index);
        assert(event::input_at(known.out, i) == empty);
        assert(protocol::has_tool(tool.out, i) == protocol::has_tool(known.out, i));
    }
    assert forall|i: u64|
        (#[trigger] protocol::has_tool(next.out, i)) > 0 implies is_block_of(
        next.state.tools,
        i,
    ) by {
        assert(protocol::has_tool(tool.out, i) == protocol::has_tool(known.out, i));
        assert(is_block_of(held, i));
        let k = choose|k: Seq<char>|
            responses_stream::has_key(held, k) && (#[trigger] call_at(held, k)).index == i;
        assert(responses_stream::has_key(next.state.tools, k));
        if k != key {
            assert(call_at(next.state.tools, k) == call_at(held, k));
        }
        assert(call_at(next.state.tools, k).index == i);
    }
}

/// The end of a block says nothing of calls.
proof fn lemma_closed_is_quiet(step: ResponsesToolStep)
    ensures
        quiet(step.out, step.closed().out),
{
    assert(quiet(step.out, step.out));
    lemma_quiet_push(
        step.out,
        step.out,
        EventModel::BlockStop { index: step.tool.index },
    );
}

proof fn lemma_relays_input(
    heard: Progress,
    state: ResponsesModel,
    step: ResponsesStep,
    value: JsonModel,
)
    requires
        laws::sound_step(heard, step),
        step.state.answer.next_index < u64::MAX,
        relays(state, step, Seq::empty()),
        step.state.tools == state.tools,
    ensures
        relays(
            state,
            step.input_given(value),
            seq![
                Touch {
                    key: responses_stream::key_of(value, JsonModel::Null),
                    piece: value.text_field("delta"@),
                    end: None,
                },
            ],
        ),
{
    let key = responses_stream::key_of(value, JsonModel::Null);
    let item = responses_stream::placeholder(value);
    lemma_relays_known(heard, state, step, key, item);
    laws::lemma_tool_known(heard, step, key, item);
    laws::lemma_input_given(heard, step, value);
    let known = step.tool_known(key, item);
    let at = responses_stream::place(known.state.tools, key);
    if let Some(piece) = value.text_field("delta"@) {
        let touch = Touch { key, piece: Some(piece), end: None };
        let before = call_at(known.state.tools, key);
        let tool = known.tool(at).given(piece);
        let event = EventModel::InputDelta { index: before.index, json: piece };
        lemma_given_once(before.emitted, touch);
        event::lemma_input_push(known.out, event, before.index);
        assert forall|i: u64|
            i != before.index implies #[trigger] event::input_at(tool.out, i) == event::input_at(
            known.out,
            i,
        ) by {
            event::lemma_input_push(known.out, event, i);
        }
        assert forall|i: u64| #[trigger]
            protocol::has_tool(tool.out, i) == protocol::has_tool(known.out, i) by {
            protocol::lemma_tool_push(known.out, event, i);
        }
        lemma_relays_given(heard, state, known, touch, tool);
    } else {
        assert(mention(key) =~= seq![Touch { key, piece: None, end: None }]);
    }
}

proof fn lemma_relays_done(
    heard: Progress,
    state: ResponsesModel,
    step: ResponsesStep,
    value: JsonModel,
    item: JsonModel,
)
    requires
        laws::sound_step(heard, step),
        step.state.answer.next_index < u64::MAX,
        relays(state, step, Seq::empty()),
        step.state.tools == state.tools,
    ensures
        relays(
            state,
            step.item_done(value, item),
            seq![
                Touch {
                    key: responses_stream::key_of(value, item),
                    piece: None,
                    end: Some(responses_stream::or_empty(item.text_field("arguments"@))),
                },
            ],
        ),
{
    let key = responses_stream::key_of(value, item);
    let arguments = responses_stream::or_empty(item.text_field("arguments"@));
    lemma_relays_known(heard, state, step, key, item);
    laws::lemma_tool_known(heard, step, key, item);
    laws::lemma_item_done(heard, step, value, item);
    let known = step.tool_known(key, item);
    let at = responses_stream::place(known.state.tools, key);
    let touch = Touch { key, piece: None, end: Some(arguments) };
    let before = call_at(known.state.tools, key);
    let start = known.tool(at);
    let tool = start.done(item);
    let event = EventModel::InputDelta { index: before.index, json: arguments };
    let passed = if !before.emitted && arguments.len() > 0 {
        start.emit(event)
    } else {
        start
    };
    lemma_closed_is_quiet(passed);
    lemma_given_once(before.emitted, touch);
    let sent = given(before.emitted, seq![touch], key);
    assert(sent.input =~= if before.emitted { Seq::<char>::empty() } else { arguments });
    assert forall|i: u64|
        i != before.index implies #[trigger] event::input_at(tool.out, i) == event::input_at(
        known.out,
        i,
    ) by {
        event::lemma_input_push(known.out, event, i);
        assert(event::input_at(tool.out, i) == event::input_at(passed.out, i));
    }
    event::lemma_input_push(known.out, event, before.index);
    assert(event::input_at(tool.out, before.index) == event::input_at(passed.out, before.index));
    assert(event::input_at(tool.out, before.index) =~= event::input_at(known.out, before.index)
        + sent.input);
    assert forall|i: u64| #[trigger]
        protocol::has_tool(tool.out, i) == protocol::has_tool(known.out, i) by {
        protocol::lemma_tool_push(known.out, event, i);
        assert(event::input_at(tool.out, i) == event::input_at(passed.out, i));
    }
    lemma_relays_given(heard, state, known, touch, tool);
}

/// The end of calls changes nothing of what was relayed.
proof fn lemma_relays_closed(
    heard: Progress,
    state: ResponsesModel,
    step: ResponsesStep,
    n: int,
)
    requires
        laws::sound_step(heard, step),
        relays(state, step, Seq::empty()),
        0 <= n <= step.state.tools.len(),
    ensures
        relays(state, step.tools_ended(n), Seq::empty()),
    decreases n,
{
    if n > 0 {
        lemma_relays_closed(heard, state, step, n - 1);
        laws::lemma_tools_ended(heard, step, n - 1);
        laws::lemma_tools_ended(heard, step, n);
        let none = Seq::<Touch>::empty();
        let before = step.tools_ended(n - 1);
        let at = n - 1;
        let next = step.tools_ended(n);
        let tools = before.state.tools;
        let key = tools[at].0;
        lemma_key_at(tools, at);
        lemma_closed_is_quiet(before.tool(at));
        let tool = before.tool(at).closed().tool;
        lemma_updated(tools, key, tool);
        assert forall|k: Seq<char>| #[trigger]
            responses_stream::has_key(next.state.tools, k) == (responses_stream::has_key(
                state.tools,
                k,
            ) || is_seen(none, k)) by {
            assert(responses_stream::has_key(next.state.tools, k) == responses_stream::has_key(
                tools,
                k,
            ));
        }
        assert forall|k: Seq<char>|
            responses_stream::has_key(next.state.tools, k) implies #[trigger] relays_key(
            state,
            next,
            none,
            k,
        ) by {
            assert(responses_stream::has_key(tools, k));
            assert(relays_key(state, before, none, k));
            if k != key {
                assert(call_at(next.state.tools, k) == call_at(tools, k));
            }
            let index = call_at(tools, k).index;
            assert(event::input_at(next.out, index) == event::input_at(before.out, index));
        }
        assert forall|i: u64|
            i >= next.state.answer.next_index implies #[trigger] event::input_at(next.out, i)
            == Seq::<char>::empty() && protocol::has_tool(next.out, i) == 0 by {
            assert(event::input_at(before.out, i) == Seq::<char>::empty());
        }
        assert forall|i: u64|
            (#[trigger] protocol::has_tool(next.out, i)) > 0 implies is_block_of(
            next.state.tools,
            i,
        ) by {
            assert(protocol::has_tool(before.out, i) > 0);
            assert(is_block_of(tools, i));
            let k = choose|k: Seq<char>|
                responses_stream::has_key(tools, k) && (#[trigger] call_at(tools, k)).index == i;
            assert(responses_stream::has_key(next.state.tools, k));
            if k != key {
                assert(call_at(next.state.tools, k) == call_at(tools, k));
            }
            assert(call_at(next.state.tools, k).index == i);
        }
    }
}

/// The end of an answer relays nothing.
proof fn lemma_relays_ended(heard: Progress, state: ResponsesModel, step: ResponsesStep)
    requires
        protocol::in_order(heard, step.speaking(), laws::slots(step.state.tools), true),
        responses_stream::ascending(step.state.tools),
        laws::all_begun(step.state.tools),
        !step.state.answer.finished,
        relays(state, step, Seq::empty()),
    ensures
        relays(state, step.ended(), Seq::empty()),
{
    let none = Seq::<Touch>::empty();
    let empty = Seq::<char>::empty();
    let blocks = laws::slots(step.state.tools);
    protocol::lemma_begun(heard, step.speaking(), blocks, true);
    let begun = step.speaking().begun();
    protocol::lemma_text_closed(heard, begun, blocks, true);
    protocol::lemma_thinking_closed(heard, begun.text_closed(), blocks, true);
    lemma_speaking_is_quiet(step.speaking(), empty);
    lemma_speaking_is_quiet(begun, empty);
    lemma_speaking_is_quiet(begun.text_closed(), empty);
    let one = step.said(begun);
    let two = step.said(begun.text_closed());
    let closed = step.said(begun.text_closed().thinking_closed());
    lemma_relays_kept(state, step, none, one);
    lemma_relays_kept(state, one, none, two);
    lemma_relays_kept(state, two, none, closed);
    let n = closed.state.tools.len() as int;
    lemma_relays_closed(heard, state, closed, n);
    let ended = closed.tools_ended(n);
    let last = ended.stopped();
    let stop = last.out[last.out.len() - 2];
    assert(last.out =~= ended.out.push(stop).push(EventModel::MessageStop));
    assert(quiet(ended.out, ended.out));
    lemma_quiet_push(ended.out, ended.out, stop);
    lemma_quiet_push(ended.out, ended.out.push(stop), EventModel::MessageStop);
    lemma_relays_kept(state, ended, none, last);
}

/// The kinds of events that speak of calls are not those of others.
proof fn lemma_kinds_of_calls()
    ensures
        "response.output_item.added"@ != "response.function_call_arguments.delta"@,
        "response.output_item.added"@ != "response.output_item.done"@,
        "response.output_item.added"@ != "response.content_part.added"@,
        "response.output_item.added"@ != "response.output_text.delta"@,
        "response.output_item.added"@ != "response.output_text.done"@,
        "response.output_item.added"@ != "response.content_part.done"@,
        "response.output_item.added"@ != "response.reasoning_summary_text.delta"@,
        "response.output_item.added"@ != "response.reasoning_text.delta"@,
        "response.output_item.added"@ != "response.reasoning_summary_text.done"@,
        "response.output_item.added"@ != "response.reasoning_text.done"@,
        "response.function_call_arguments.delta"@ != "response.output_item.done"@,
        "response.function_call_arguments.delta"@ != "response.content_part.added"@,
        "response.function_call_arguments.delta"@ != "response.output_text.delta"@,
        "response.function_call_arguments.delta"@ != "response.output_text.done"@,
        "response.function_call_arguments.delta"@ != "response.content_part.done"@,
        "response.function_call_arguments.delta"@ != "response.reasoning_summary_text.delta"@,
        "response.function_call_arguments.delta"@ != "response.reasoning_text.delta"@,
        "response.function_call_arguments.delta"@ != "response.reasoning_summary_text.done"@,
        "response.function_call_arguments.delta"@ != "response.reasoning_text.done"@,
        "response.output_item.done"@ != "response.content_part.added"@,
        "response.output_item.done"@ != "response.output_text.delta"@,
        "response.output_item.done"@ != "response.output_text.done"@,
        "response.output_item.done"@ != "response.content_part.done"@,
        "response.output_item.done"@ != "response.reasoning_summary_text.delta"@,
        "response.output_item.done"@ != "response.reasoning_text.delta"@,
        "response.output_item.done"@ != "response.reasoning_summary_text.done"@,
        "response.output_item.done"@ != "response.reasoning_text.done"@,
{
    reveal_strlit("response.output_item.added");
    reveal_strlit("response.function_call_arguments.delta");
    reveal_strlit("response.output_item.done");
    reveal_strlit("response.content_part.added");
    reveal_strlit("response.output_text.delta");
    reveal_strlit("response.output_text.done");
    reveal_strlit("response.content_part.done");
    reveal_strlit("response.reasoning_summary_text.delta");
    reveal_strlit("response.reasoning_text.delta");
    reveal_strlit("response.reasoning_summary_text.done");
    reveal_strlit("response.reasoning_text.done");
    assert("response.output_item.added"@.len() == 26);
    assert("response.output_item.done"@.len() == 25);
    assert("response.output_item.added"@[9] == 'o');
    assert("response.function_call_arguments.delta"@[9] == 'f');
    assert("response.output_item.done"@[9] == 'o');
    assert("response.content_part.added"@[9] == 'c');
    assert("response.output_text.delta"@[9] == 'o');
    assert("response.output_text.done"@[9] == 'o');
    assert("response.content_part.done"@[9] == 'c');
    assert("response.reasoning_summary_text.delta"@[9] == 'r');
    assert("response.reasoning_text.delta"@[9] == 'r');
    assert("response.reasoning_summary_text.done"@[9] == 'r');
    assert("response.reasoning_text.done"@[9] == 'r');
    assert("response.output_item.added"@[16] == 'i');
    assert("response.output_item.done"@[16] == 'i');
    assert("response.output_text.delta"@[16] == 't');
    assert("response.output_text.done"@[16] == 't');
}

/// A document is relayed as what it says of a call.
proof fn lemma_relays_told(
    heard: Progress,
    state: ResponsesModel,
    event_name: Option<Seq<char>>,
    value: JsonModel,
)
    requires
        laws::sound(heard, state),
        !state.answer.finished,
        state.answer.next_index < u64::MAX,
        !laws::fails(event_name, value),
    ensures
        relays(state, state.told(event_name, value), touches_in(event_name, value)),
{
    let none = Seq::<Touch>::empty();
    let empty = Seq::<char>::empty();
    let kind = responses_stream::kind_of(value, event_name);
    lemma_kinds_of_calls();
    lemma_relays_nothing(heard, state);
    laws::lemma_informed(heard, state, value);
    let informed = state.informed(value).silent();
    lemma_speaking_is_quiet(informed.speaking(), empty);
    assert(quiet(state.silent().out, informed.out));
    lemma_relays_kept(state, state.silent(), none, informed);
    let step = informed.said(informed.speaking().begun());
    lemma_relays_kept(state, informed, none, step);
    assert(heard.hears_all(Seq::empty(), true) == Some(heard));
    protocol::lemma_begun(heard, informed.speaking(), laws::slots(state.tools), true);
    assert(laws::sound_step(heard, step));
    let piece = laws::piece_in(value);
    lemma_speaking_is_quiet(step.speaking(), piece);
    let next = step.told(kind, value);
    assert(state.told(event_name, value) == next);
    if kind == "response.output_item.added"@ {
        if let Some(item) = responses_stream::called_item(value) {
            let key = responses_stream::key_of(value, item);
            lemma_relays_known(heard, state, step, key, item);
            assert(touches_in(event_name, value) =~= mention(key));
        }
    } else if kind == "response.function_call_arguments.delta"@ {
        lemma_relays_input(heard, state, step, value);
    } else if kind == "response.output_item.done"@ {
        if let Some(item) = responses_stream::called_item(value) {
            lemma_relays_done(heard, state, step, value, item);
        }
    } else if next == step.ended() {
        lemma_relays_ended(heard, state, step);
    } else {
        assert(quiet(step.out, step.out));
        assert(next.state.tools == step.state.tools);
        lemma_relays_kept(state, step, none, next);
    }
}

proof fn lemma_relays_processed(heard: Progress, state: ResponsesModel, frame: FrameModel)
    requires
        laws::sound(heard, state),
        !state.answer.finished,
        state.answer.next_index < u64::MAX,
        !laws::tells_failure(frame),
    ensures
        relays(state, state.processed(frame.event, frame.data), frame_touches(frame)),
{
    let none = Seq::<Touch>::empty();
    lemma_relays_nothing(heard, state);
    assert(heard.hears_all(Seq::empty(), true) == Some(heard));
    if laws::is_read(frame.data) {
        match codec::json_parse(frame.data) {
            Ok(value) => {
                lemma_relays_told(heard, state, frame.event, value);
            },
            Err(error) => {
                let silent = state.silent();
                let step = state.processed(frame.event, frame.data);
                assert(step.out =~= silent.out.push(step.out[0]));
                assert(quiet(silent.out, silent.out));
                lemma_quiet_push(silent.out, silent.out, step.out[0]);
                lemma_relays_kept(state, silent, none, step);
            },
        }
    } else {
        lemma_relays_ended(heard, state, state.silent());
    }
}

proof fn lemma_run_relays(frames: Seq<FrameModel>)
    requires
        frames.len() <= u64::MAX,
        laws::no_failures(frames),
    ensures
        relays(responses_stream::new_responses(), laws::run(frames), touches(frames)),
        one_at_a_time(touches(frames)),
    decreases frames.len(),
{
    if frames.len() == 0 {
        lemma_relays_nothing(protocol::nothing_heard(), responses_stream::new_responses());
    } else {
        let rest = frames.drop_last();
        let frame = frames.last();
        assert forall|i: int| 0 <= i < rest.len() implies !laws::tells_failure(
            #[trigger] rest[i],
        ) by {
            assert(rest[i] == frames[i]);
        }
        assert(!laws::tells_failure(frames[frames.len() - 1]));
        lemma_run_relays(rest);
        laws::lemma_run(rest);
        let before = laws::run(rest);
        let now = before.state.processed(frame.event, frame.data);
        if before.state.answer.finished {
            assert(before.out + now.out =~= before.out);
        } else {
            let heard = protocol::nothing_heard().hears_all(before.out, true)->0;
            lemma_relays_processed(heard, before.state, frame);
            lemma_relays_on(
                responses_stream::new_responses(),
                before,
                touches(rest),
                now,
                frame_touches(frame),
            );
            let all = touches(frames);
            assert forall|i: int| 0 <= i < all.len() implies (#[trigger] all[i]).piece is None
                || all[i].end is None by {
                if i < touches(rest).len() {
                    assert(all[i] == touches(rest)[i]);
                } else {
                    assert(all[i] == frame_touches(frame)[i - touches(rest).len()]);
                }
            }
        }
    }
}

/// The index of the block of the call under a key.
pub open spec fn block_of(frames: Seq<FrameModel>, key: Seq<char>) -> u64 {
    call_at(laws::run(frames).state.tools, key).index
}

/// What the end of a run adds to what it relayed.
proof fn lemma_whole_relays(frames: Seq<FrameModel>)
    requires
        frames.len() <= u64::MAX,
        laws::no_failures(frames),
    ensures
        ({
            let end = laws::run(frames).state.ended();
            let whole = ResponsesStep { state: end.state, out: laws::whole(frames) };
            &&& relays(responses_stream::new_responses(), whole, touches(frames))
            &&& forall|k: Seq<char>|
                responses_stream::has_key(laws::run(frames).state.tools, k)
                    == responses_stream::has_key(end.state.tools, k)
            &&& forall|k: Seq<char>|
                responses_stream::has_key(end.state.tools, k) ==> (#[trigger] call_at(
                    end.state.tools,
                    k,
                )).index == block_of(frames, k)
        }),
{
    lemma_run_relays(frames);
    laws::lemma_run(frames);
    let before = laws::run(frames);
    let end = before.state.ended();
    let none = Seq::<Touch>::empty();
    if before.state.answer.finished {
        assert(laws::whole(frames) =~= before.out);
    } else {
        let heard = protocol::nothing_heard().hears_all(before.out, true)->0;
        assert(heard.hears_all(Seq::empty(), true) == Some(heard));
        lemma_relays_nothing(heard, before.state);
        lemma_relays_ended(heard, before.state, before.state.silent());
        lemma_relays_on(
            responses_stream::new_responses(),
            before,
            touches(frames),
            end,
            none,
        );
        assert(touches(frames) + none =~= touches(frames));
        assert forall|k: Seq<char>|
            responses_stream::has_key(before.state.tools, k) == responses_stream::has_key(
                end.state.tools,
                k,
            ) by {
            assert(!is_seen(none, k));
        }
        assert forall|k: Seq<char>|
            responses_stream::has_key(end.state.tools, k) implies (#[trigger] call_at(
            end.state.tools,
            k,
        )).index == block_of(frames, k) by {
            assert(relays_key(before.state, end, none, k));
            assert(!is_seen(none, k));
        }
    }
}

/// Over a whole answer without a failure each call that is spoken of has one block of
/// a tool. The input that this block is given is the whole input that came with an end
/// of the call before any piece of it, and then all pieces, in their order. This holds
/// as long as there are indices for the blocks.
pub proof fn law_input_of_a_call(frames: Seq<FrameModel>, key: Seq<char>)
    requires
        frames.len() <= u64::MAX,
        laws::no_failures(frames),
        is_seen(touches(frames), key),
    ensures
        protocol::has_tool(laws::whole(frames), block_of(frames, key)) == 1,
        event::input_at(laws::whole(frames), block_of(frames, key)) == early_ends(
            touches(frames),
            key,
        ) + pieces_for(touches(frames), key),
{
    lemma_whole_relays(frames);
    lemma_run_relays(frames);
    let end = laws::run(frames).state.ended();
    let whole = ResponsesStep { state: end.state, out: laws::whole(frames) };
    let new = responses_stream::new_responses();
    assert(!responses_stream::has_key(new.tools, key));
    assert(responses_stream::has_key(end.state.tools, key));
    assert(relays_key(new, whole, touches(frames), key));
    lemma_given_in_all(touches(frames), key);
}

/// The blocks of tools of a whole answer without a failure are those of its calls:
/// different calls have different blocks, and every block of a tool is that of a
/// call.
pub proof fn law_blocks_of_calls(frames: Seq<FrameModel>, index: u64)
    requires
        frames.len() <= u64::MAX,
        laws::no_failures(frames),
    ensures
        forall|a: Seq<char>, b: Seq<char>|
            is_seen(touches(frames), a) && is_seen(touches(frames), b) && a != b
                ==> #[trigger] block_of(frames, a) != #[trigger] block_of(frames, b),
        protocol::has_tool(laws::whole(frames), index) > 0 ==> exists|key: Seq<char>|
            is_seen(touches(frames), key) && #[trigger] block_of(frames, key) == index,
{
    lemma_whole_relays(frames);
    assert forall|a: Seq<char>, b: Seq<char>|
        is_seen(touches(frames), a) && is_seen(touches(frames), b) && a != b implies #[trigger]
        block_of(frames, a) != #[trigger] block_of(frames, b) by {
        lemma_run_differs(frames, a, b);
    }
    let end = laws::run(frames).state.ended();
    let new = responses_stream::new_responses();
    let whole = ResponsesStep { state: end.state, out: laws::whole(frames) };
    if protocol::has_tool(laws::whole(frames), index) > 0 {
        assert(protocol::has_tool(whole.out, index) > 0);
        assert(is_block_of(end.state.tools, index));
        let key = choose|k: Seq<char>|
            responses_stream::has_key(end.state.tools, k) && (#[trigger] call_at(
                end.state.tools,
                k,
            )).index == index;
        assert(!responses_stream::has_key(new.tools, key));
        assert(is_seen(touches(frames), key));
        assert(block_of(frames, key) == index);
    }
}

/// Different calls have different blocks.
proof fn lemma_run_differs(frames: Seq<FrameModel>, a: Seq<char>, b: Seq<char>)
    requires
        frames.len() <= u64::MAX,
        laws::no_failures(frames),
        is_seen(touches(frames), a),
        is_seen(touches(frames), b),
        a != b,
    ensures
        block_of(frames, a) != block_of(frames, b),
    decreases frames.len(),
{
    if frames.len() > 0 {
        let rest = frames.drop_last();
        let frame = frames.last();
        assert forall|i: int| 0 <= i < rest.len() implies !laws::tells_failure(
            #[trigger] rest[i],
        ) by {
            assert(rest[i] == frames[i]);
        }
        assert(!laws::tells_failure(frames[frames.len() - 1]));
        let before = laws::run(rest);
        let now = before.state.processed(frame.event, frame.data);
        let list = frame_touches(frame);
        if before.state.answer.finished {
            lemma_run_differs(rest, a, b);
            assert(laws::run(frames).state == before.state);
        } else {
            lemma_seen_both(touches(rest), list, a);
            lemma_seen_both(touches(rest), list, b);
            if is_seen(touches(rest), a) && is_seen(touches(rest), b) {
                lemma_run_differs(rest, a, b);
            }
            lemma_block_stays(rest, frame, a);
            lemma_block_stays(rest, frame, b);
            if !is_seen(touches(rest), a) && !is_seen(touches(rest), b) {
                let i = choose|i: int| 0 <= i < list.len() && (#[trigger] list[i]).key == a;
                let j = choose|j: int| 0 <= j < list.len() && (#[trigger] list[j]).key == b;
                assert(list.len() <= 1);
                assert(i == j);
            }
            assert(laws::run(frames).state == now.state);
        }
    }
}

/// The block of a call that is known stays, and that of a new one comes behind those
/// before.
proof fn lemma_block_stays(rest: Seq<FrameModel>, frame: FrameModel, key: Seq<char>)
    requires
        rest.len() < u64::MAX,
        laws::no_failures(rest),
        !laws::tells_failure(frame),
        !laws::run(rest).state.answer.finished,
        is_seen(touches(rest), key) || is_seen(frame_touches(frame), key),
    ensures
        ({
            let before = laws::run(rest).state;
            let now = before.processed(frame.event, frame.data).state;
            let index = call_at(now.tools, key).index;
            if is_seen(touches(rest), key) {
                index == block_of(rest, key) && index < before.answer.next_index
            } else {
                index >= before.answer.next_index
            }
        }),
{
    lemma_run_relays(rest);
    laws::lemma_run(rest);
    lemma_has_keys(rest, key);
    let before = laws::run(rest);
    let now = before.state.processed(frame.event, frame.data);
    let heard = protocol::nothing_heard().hears_all(before.out, true)->0;
    lemma_relays_processed(heard, before.state, frame);
    assert(responses_stream::has_key(now.state.tools, key));
    assert(relays_key(before.state, now, frame_touches(frame), key));
    if is_seen(touches(rest), key) {
        assert(relays_key(responses_stream::new_responses(), before, touches(rest), key));
    }
}

/// There is a call under a key if and only if it is spoken of.
proof fn lemma_has_keys(frames: Seq<FrameModel>, key: Seq<char>)
    requires
        frames.len() <= u64::MAX,
        laws::no_failures(frames),
    ensures
        responses_stream::has_key(laws::run(frames).state.tools, key) == is_seen(
            touches(frames),
            key,
        ),
{
    lemma_run_relays(frames);
    assert(!responses_stream::has_key(responses_stream::new_responses().tools, key));
}

/// Whether a call ends at most once.
pub open spec fn ends_at_most_once(list: Seq<Touch>, key: Seq<char>) -> bool {
    forall|i: int, j: int|
        0 <= i < j < list.len() && (#[trigger] list[i]).key == key && list[i].end is Some && (
        #[trigger] list[j]).key == key ==> list[j].end is None
}

/// Before any piece of a call came, a call that ends at most once was given the whole
/// input that came with its end, or nothing where it has not ended.
proof fn lemma_early_end(list: Seq<Touch>, key: Seq<char>, at: int)
    requires
        ends_at_most_once(list, key),
        0 <= at < list.len(),
        list[at].key == key,
        list[at].end is Some,
    ensures
        early_ends(list, key) == if has_piece(list.take(at), key) {
            Seq::empty()
        } else {
            list[at].end->0
        },
    decreases list.len(),
{
    let rest = list.drop_last();
    let last = list.last();
    let empty = Seq::<char>::empty();
    if at < rest.len() {
        assert forall|i: int, j: int|
            0 <= i < j < rest.len() && (#[trigger] rest[i]).key == key && rest[i].end is Some && (
            #[trigger] rest[j]).key == key implies rest[j].end is None by {
            assert(list[i] == rest[i] && list[j] == rest[j]);
        }
        assert(rest[at] == list[at]);
        lemma_early_end(rest, key, at);
        assert(rest.take(at) =~= list.take(at));
        assert(list[list.len() - 1] == last);
        assert(last.key == key ==> last.end is None);
        assert(early_ends(rest, key) + empty =~= early_ends(rest, key));
    } else {
        assert(list.take(at) =~= rest);
        assert forall|i: int| 0 <= i < rest.len() implies (#[trigger] rest[i]).key != key
            || rest[i].end is None by {
            assert(list[i] == rest[i]);
            if rest[i].key == key && rest[i].end is Some {
                assert(list[at].end is None);
            }
        }
        lemma_no_end(rest, key);
        assert(empty + last.end->0 =~= last.end->0);
        assert(empty + empty =~= empty);
    }
}

proof fn lemma_no_end(list: Seq<Touch>, key: Seq<char>)
    requires
        forall|i: int|
            0 <= i < list.len() ==> (#[trigger] list[i]).key != key || list[i].end is None,
    ensures
        early_ends(list, key) == Seq::<char>::empty(),
    decreases list.len(),
{
    if list.len() > 0 {
        let rest = list.drop_last();
        assert forall|i: int| 0 <= i < rest.len() implies (#[trigger] rest[i]).key != key
            || rest[i].end is None by {
            assert(rest[i] == list[i]);
        }
        lemma_no_end(rest, key);
        assert(list[list.len() - 1] == list.last());
        assert(early_ends(list, key) =~= Seq::<char>::empty());
    }
}

/// Over a whole answer without a failure the block of a call that ends at most once is
/// given the pieces of its input, in their order; and where no piece came before the
/// end, the whole input that came with the end stands before them. Where no piece came
/// at all, that is all the input.
pub proof fn law_input_of_a_call_that_ends_once(frames: Seq<FrameModel>, key: Seq<char>, at: int)
    requires
        frames.len() <= u64::MAX,
        laws::no_failures(frames),
        ends_at_most_once(touches(frames), key),
        0 <= at < touches(frames).len(),
        touches(frames)[at].key == key,
    ensures
        ({
            let list = touches(frames);
            let input = event::input_at(laws::whole(frames), block_of(frames, key));
            &&& list[at].end matches Some(arguments) ==> {
                &&& has_piece(list.take(at), key) ==> input == pieces_for(list, key)
                &&& !has_piece(list.take(at), key) ==> input == arguments + pieces_for(list, key)
                &&& !has_piece(list, key) ==> input == arguments
            }
            &&& (forall|i: int|
                0 <= i < list.len() ==> (#[trigger] list[i]).key != key || list[i].end is None)
                ==> input == pieces_for(list, key)
        }),
{
    let list = touches(frames);
    let empty = Seq::<char>::empty();
    let pieces = pieces_for(list, key);
    law_input_of_a_call(frames, key);
    lemma_run_relays(frames);
    lemma_given_in_all(list, key);
    assert(empty + pieces =~= pieces);
    if list[at].end is Some {
        lemma_early_end(list, key, at);
        if !has_piece(list, key) {
            if has_piece(list.take(at), key) {
                let i = choose|i: int|
                    0 <= i < list.take(at).len() && (#[trigger] list.take(at)[i]).key == key
                        && list.take(at)[i].piece is Some;
                assert(list[i] == list.take(at)[i]);
            }
            assert(list[at].end->0 + pieces =~= list[at].end->0);
        }
    }
    if forall|i: int| 0 <= i < list.len() ==> (#[trigger] list[i]).key != key || list[i].end is None {
        lemma_no_end(list, key);
    }
}

}
