//! The order in which the events of an answer may come, and what keeps it.
use vstd::prelude::*;

use crate::answer::{AnswerModel, AnswerStep};
use crate::event::EventModel;

verus! {

/// What a block holds.
pub enum BlockKind {
    Text,
    Thinking,
    Tool,
}

/// How much of an answer a listener has heard.
pub struct Progress {
    /// The answer has begun.
    pub started: bool,
    /// Why the answer stops has been said.
    pub stopping: bool,
    /// The answer has ended.
    pub ended: bool,
    /// The blocks that have begun, and what each holds.
    pub kinds: Map<u64, BlockKind>,
    /// The blocks that have begun and not ended.
    pub open: Set<u64>,
}

/// Nothing was heard yet.
pub open spec fn nothing_heard() -> Progress {
    Progress {
        started: false,
        stopping: false,
        ended: false,
        kinds: Map::empty(),
        open: Set::empty(),
    }
}

impl Progress {
    /// Whether blocks may be spoken of.
    pub open spec fn in_body(self) -> bool {
        self.started && !self.stopping && !self.ended
    }

    /// A block begins. No block had its index before.
    pub open spec fn begins(self, index: u64, kind: BlockKind) -> Option<Progress> {
        if self.in_body() && !self.kinds.dom().contains(index) {
            Some(
                Progress {
                    kinds: self.kinds.insert(index, kind),
                    open: self.open.insert(index),
                    ..self
                },
            )
        } else {
            None
        }
    }

    /// Whether a block of that kind has begun under that index.
    pub open spec fn holds(self, index: u64, kind: BlockKind) -> bool {
        self.in_body() && self.kinds.dom().contains(index) && self.kinds[index] == kind
    }

    /// One more event is heard; `None` where it is out of order. With `late` the
    /// input of a tool may still come when its block has ended.
    pub open spec fn hears(self, event: EventModel, late: bool) -> Option<Progress> {
        match event {
            EventModel::MessageStart { .. } => if !self.started && !self.stopping && !self.ended {
                Some(Progress { started: true, ..self })
            } else {
                None
            },
            EventModel::TextStart { index } => self.begins(index, BlockKind::Text),
            EventModel::ThinkingStart { index } => self.begins(index, BlockKind::Thinking),
            EventModel::ToolStart { index, .. } => self.begins(index, BlockKind::Tool),
            EventModel::TextDelta { index, .. } => if self.holds(index, BlockKind::Text)
                && self.open.contains(index) {
                Some(self)
            } else {
                None
            },
            EventModel::ThinkingDelta { index, .. } => if self.holds(index, BlockKind::Thinking)
                && self.open.contains(index) {
                Some(self)
            } else {
                None
            },
            EventModel::InputDelta { index, .. } => if self.holds(index, BlockKind::Tool) && (late
                || self.open.contains(index)) {
                Some(self)
            } else {
                None
            },
            EventModel::BlockStop { index } => if self.in_body() && self.open.contains(index) {
                Some(Progress { open: self.open.remove(index), ..self })
            } else {
                None
            },
            EventModel::MessageDelta { .. } => if self.in_body() && self.open =~= Set::empty() {
                Some(Progress { stopping: true, ..self })
            } else {
                None
            },
            EventModel::MessageStop => if self.started && self.stopping && !self.ended {
                Some(Progress { ended: true, ..self })
            } else {
                None
            },
            EventModel::Failure { .. } => if !self.stopping && !self.ended {
                Some(self)
            } else {
                None
            },
        }
    }

    /// Events are heard one after the other; `None` where one is out of order.
    pub open spec fn hears_all(self, events: Seq<EventModel>, late: bool) -> Option<Progress>
        decreases events.len(),
    {
        if events.len() == 0 {
            Some(self)
        } else {
            match self.hears_all(events.drop_last(), late) {
                Some(before) => before.hears(events.last(), late),
                None => None,
            }
        }
    }
}

/// Whether a list of events ends in a failure.
pub open spec fn ends_in_failure(events: Seq<EventModel>) -> bool {
    events.len() > 0 && events.last() is Failure
}

/// Whether an answer has ended with every block that began.
pub open spec fn complete(heard: Progress) -> bool {
    heard.ended && heard.open =~= Set::empty()
}

/// Whether the blocks that have begun have exactly the indices below a bound.
pub open spec fn has_indices(heard: Progress, bound: u64) -> bool {
    heard.kinds.dom() =~= Set::new(|i: u64| i < bound)
}

/// Whether an answer has ended with every block that began, and these have exactly
/// the indices below a bound.
pub open spec fn complete_up_to(heard: Progress, bound: u64) -> bool {
    complete(heard) && has_indices(heard, bound)
}

/// Whether the blocks of tools that have begun are exactly those of the calls.
pub open spec fn has_calls(heard: Progress, slots: Seq<Slot>) -> bool {
    &&& forall|k: int|
        0 <= k < slots.len() ==> heard.kinds.dom().contains((#[trigger] slots[k]).index)
            && heard.kinds[slots[k].index] == BlockKind::Tool
    &&& forall|i: u64|
        #[trigger] heard.kinds.dom().contains(i) && heard.kinds[i] == BlockKind::Tool ==> is_call(
            slots,
            i,
        )
}

/// One more event is heard behind others.
pub proof fn lemma_hears_push(
    from: Progress,
    events: Seq<EventModel>,
    event: EventModel,
    late: bool,
)
    ensures
        from.hears_all(events.push(event), late) == (match from.hears_all(events, late) {
            Some(before) => before.hears(event, late),
            None => None,
        }),
{
    assert(events.push(event).drop_last() =~= events);
}

/// Events in two lists are heard as one list.
pub proof fn lemma_hears_both(
    from: Progress,
    a: Seq<EventModel>,
    b: Seq<EventModel>,
    late: bool,
)
    ensures
        from.hears_all(a + b, late) == (match from.hears_all(a, late) {
            Some(between) => between.hears_all(b, late),
            None => None,
        }),
    decreases b.len(),
{
    if b.len() == 0 {
        assert(a + b =~= a);
    } else {
        lemma_hears_both(from, a, b.drop_last(), late);
        assert((a + b).drop_last() =~= a + b.drop_last());
    }
}

/// The block of a call of a tool.
pub struct Slot {
    pub index: u64,
    /// It has begun.
    pub begun: bool,
    /// It has ended.
    pub ended: bool,
}

/// What was heard agrees with how far the answer and its calls have come.
pub open spec fn agrees(heard: Progress, answer: AnswerModel, slots: Seq<Slot>) -> bool {
    &&& heard.started == answer.started
    &&& !heard.stopping && !heard.ended
    &&& forall|i: u64| #[trigger] heard.kinds.dom().contains(i) ==> i < answer.next_index
    &&& forall|i: u64| #[trigger] heard.open.contains(i) ==> heard.kinds.dom().contains(i)
    &&& answer.text_index is None || answer.thinking_index is None
    &&& answer.text_index matches Some(i) ==> heard.kinds.dom().contains(i) && heard.kinds[i]
        == BlockKind::Text && heard.open.contains(i)
    &&& answer.thinking_index matches Some(i) ==> heard.kinds.dom().contains(i) && heard.kinds[i]
        == BlockKind::Thinking && heard.open.contains(i)
    &&& forall|k: int| 0 <= k < slots.len() ==> #[trigger] slot_agrees(heard, answer, slots[k])
    &&& forall|j: int, k: int|
        0 <= j < k < slots.len() ==> (#[trigger] slots[j]).index != (#[trigger] slots[k]).index
    &&& forall|i: u64| #[trigger] heard.open.contains(i) ==> is_of(answer, slots, i)
    &&& forall|i: u64| i < answer.next_index ==> #[trigger] is_taken(heard, slots, i)
    &&& forall|i: u64|
        #[trigger] heard.kinds.dom().contains(i) && heard.kinds[i] == BlockKind::Tool ==> is_call(
            slots,
            i,
        )
}

/// Whether a block has begun under an index, or is that of a call that is to begin.
pub open spec fn is_taken(heard: Progress, slots: Seq<Slot>, index: u64) -> bool {
    ||| heard.kinds.dom().contains(index)
    ||| exists|k: int|
        0 <= k < slots.len() && (#[trigger] slots[k]).index == index && !slots[k].begun
}

/// Whether an index is that of a call.
pub open spec fn is_call(slots: Seq<Slot>, index: u64) -> bool {
    exists|k: int| 0 <= k < slots.len() && (#[trigger] slots[k]).index == index
}

/// What was heard of one call agrees with how far it has come.
pub open spec fn slot_agrees(heard: Progress, answer: AnswerModel, slot: Slot) -> bool {
    &&& slot.index < answer.next_index
    &&& slot.begun == heard.kinds.dom().contains(slot.index)
    &&& slot.begun ==> heard.kinds[slot.index] == BlockKind::Tool
    &&& slot.begun && !slot.ended ==> heard.open.contains(slot.index)
}

/// Whether an open block is that of the text, the thinking or a call.
pub open spec fn is_of(answer: AnswerModel, slots: Seq<Slot>, index: u64) -> bool {
    ||| answer.text_index == Some(index)
    ||| answer.thinking_index == Some(index)
    ||| exists|k: int|
        0 <= k < slots.len() && (#[trigger] slots[k]).index == index && slots[k].begun
            && !slots[k].ended
}

/// The events so far are in order, and what was heard agrees with the answer.
pub open spec fn in_order(
    from: Progress,
    step: AnswerStep,
    slots: Seq<Slot>,
    late: bool,
) -> bool {
    match from.hears_all(step.out, late) {
        Some(heard) => agrees(heard, step.answer, slots),
        None => false,
    }
}

/// Beginning an answer keeps the order.
pub proof fn lemma_begun(from: Progress, step: AnswerStep, slots: Seq<Slot>, late: bool)
    requires
        in_order(from, step, slots, late),
    ensures
        in_order(from, step.begun(), slots, late),
        step.begun().answer.started,
{
    if !step.answer.started {
        let start = EventModel::MessageStart { id: step.answer.id, model: step.answer.model };
        lemma_hears_push(from, step.out, start, late);
        let heard = from.hears_all(step.out, late)->0;
        let now = from.hears_all(step.begun().out, late)->0;
        assert forall|k: int| 0 <= k < slots.len() implies #[trigger] slot_agrees(
            now,
            step.begun().answer,
            slots[k],
        ) by {
            assert(slot_agrees(heard, step.answer, slots[k]));
        }
        assert forall|i: u64| #[trigger] now.open.contains(i) implies is_of(
            step.begun().answer,
            slots,
            i,
        ) by {
            assert(is_of(step.answer, slots, i));
        }
        assert forall|i: u64| i < step.answer.next_index implies #[trigger] is_taken(
            now,
            slots,
            i,
        ) by {
            assert(is_taken(heard, slots, i));
        }
    }
}

/// Ending the open block of text keeps the order.
pub proof fn lemma_text_closed(from: Progress, step: AnswerStep, slots: Seq<Slot>, late: bool)
    requires
        in_order(from, step, slots, late),
        step.answer.started,
    ensures
        in_order(from, step.text_closed(), slots, late),
{
    if let Some(index) = step.answer.text_index {
        lemma_block_closed(from, step, slots, late, index, step.text_closed());
    }
}

/// Ending the open block of thinking keeps the order.
pub proof fn lemma_thinking_closed(from: Progress, step: AnswerStep, slots: Seq<Slot>, late: bool)
    requires
        in_order(from, step, slots, late),
        step.answer.started,
    ensures
        in_order(from, step.thinking_closed(), slots, late),
{
    if let Some(index) = step.answer.thinking_index {
        lemma_block_closed(from, step, slots, late, index, step.thinking_closed());
    }
}

proof fn lemma_block_closed(
    from: Progress,
    step: AnswerStep,
    slots: Seq<Slot>,
    late: bool,
    index: u64,
    next: AnswerStep,
)
    requires
        in_order(from, step, slots, late),
        step.answer.started,
        step.answer.text_index == Some(index) || step.answer.thinking_index == Some(index),
        next == (AnswerStep {
            answer: AnswerModel { text_index: None, thinking_index: None, ..step.answer },
            out: step.out.push(EventModel::BlockStop { index }),
        }),
    ensures
        in_order(from, next, slots, late),
{
    lemma_hears_push(from, step.out, EventModel::BlockStop { index }, late);
    let heard = from.hears_all(step.out, late)->0;
    let now = from.hears_all(next.out, late)->0;
    assert forall|k: int| 0 <= k < slots.len() implies #[trigger] slot_agrees(
        now,
        next.answer,
        slots[k],
    ) by {
        assert(slot_agrees(heard, step.answer, slots[k]));
    }
    assert forall|i: u64| #[trigger] now.open.contains(i) implies is_of(next.answer, slots, i) by {
        assert(heard.open.contains(i));
        assert(is_of(step.answer, slots, i));
    }
    assert forall|i: u64| i < next.answer.next_index implies #[trigger] is_taken(now, slots, i) by {
        assert(is_taken(heard, slots, i));
    }
}

/// Opening a block of text keeps the order as long as there is an index for it.
pub proof fn lemma_text_open(from: Progress, step: AnswerStep, slots: Seq<Slot>, late: bool)
    requires
        in_order(from, step, slots, late),
        step.answer.started,
        step.answer.next_index < u64::MAX,
    ensures
        in_order(from, step.text_open(), slots, late),
        step.text_open().answer.text_index is Some,
{
    lemma_thinking_closed(from, step, slots, late);
    let at = step.thinking_closed();
    if at.answer.text_index is None {
        let index = at.answer.next_index;
        lemma_block_opened(
            from,
            at,
            slots,
            late,
            EventModel::TextStart { index },
            BlockKind::Text,
            step.text_open(),
        );
    }
}

/// Opening a block of thinking keeps the order as long as there is an index for
/// it.
pub proof fn lemma_thinking_open(from: Progress, step: AnswerStep, slots: Seq<Slot>, late: bool)
    requires
        in_order(from, step, slots, late),
        step.answer.started,
        step.answer.next_index < u64::MAX,
    ensures
        in_order(from, step.thinking_open(), slots, late),
        step.thinking_open().answer.thinking_index is Some,
{
    lemma_text_closed(from, step, slots, late);
    let at = step.text_closed();
    if at.answer.thinking_index is None {
        let index = at.answer.next_index;
        lemma_block_opened(
            from,
            at,
            slots,
            late,
            EventModel::ThinkingStart { index },
            BlockKind::Thinking,
            step.thinking_open(),
        );
    }
}

proof fn lemma_block_opened(
    from: Progress,
    step: AnswerStep,
    slots: Seq<Slot>,
    late: bool,
    event: EventModel,
    kind: BlockKind,
    next: AnswerStep,
)
    requires
        in_order(from, step, slots, late),
        step.answer.started,
        step.answer.next_index < u64::MAX,
        step.answer.text_index is None && step.answer.thinking_index is None,
        ({
            let index = step.answer.next_index;
            let answer = AnswerModel { next_index: (index + 1) as u64, ..step.answer };
            ||| event == (EventModel::TextStart { index }) && kind == BlockKind::Text
                && next.answer == (AnswerModel { text_index: Some(index), ..answer })
            ||| event == (EventModel::ThinkingStart { index }) && kind == BlockKind::Thinking
                && next.answer == (AnswerModel { thinking_index: Some(index), ..answer })
        }),
        next.out == step.out.push(event),
    ensures
        in_order(from, next, slots, late),
{
    lemma_hears_push(from, step.out, event, late);
    let heard = from.hears_all(step.out, late)->0;
    let index = step.answer.next_index;
    assert(!heard.kinds.dom().contains(index));
    let now = from.hears_all(next.out, late)->0;
    assert forall|k: int| 0 <= k < slots.len() implies #[trigger] slot_agrees(
        now,
        next.answer,
        slots[k],
    ) by {
        assert(slot_agrees(heard, step.answer, slots[k]));
    }
    assert forall|i: u64| #[trigger] now.open.contains(i) implies is_of(next.answer, slots, i) by {
        if i != index {
            assert(heard.open.contains(i));
            assert(is_of(step.answer, slots, i));
        }
    }
    assert forall|i: u64| i < next.answer.next_index implies #[trigger] is_taken(now, slots, i) by {
        if i != index {
            assert(is_taken(heard, slots, i));
        }
    }
    assert forall|i: u64| #[trigger]
        now.kinds.dom().contains(i) && now.kinds[i] == BlockKind::Tool implies is_call(
        slots,
        i,
    ) by {
        assert(heard.kinds.dom().contains(i));
    }
}

/// Saying a piece of text keeps the order.
pub proof fn lemma_text_said(
    from: Progress,
    step: AnswerStep,
    slots: Seq<Slot>,
    late: bool,
    text: Seq<char>,
)
    requires
        in_order(from, step, slots, late),
        step.answer.started,
        step.answer.next_index < u64::MAX,
    ensures
        in_order(from, step.text_said(text), slots, late),
{
    lemma_text_open(from, step, slots, late);
    let at = step.text_open();
    lemma_hears_push(
        from,
        at.out,
        EventModel::TextDelta { index: at.answer.text_index->0, text },
        late,
    );
}

/// Saying a piece of thinking keeps the order.
pub proof fn lemma_thinking_said(
    from: Progress,
    step: AnswerStep,
    slots: Seq<Slot>,
    late: bool,
    thinking: Seq<char>,
)
    requires
        in_order(from, step, slots, late),
        step.answer.started,
        step.answer.next_index < u64::MAX,
    ensures
        in_order(from, step.thinking_said(thinking), slots, late),
{
    lemma_thinking_open(from, step, slots, late);
    let at = step.thinking_open();
    lemma_hears_push(
        from,
        at.out,
        EventModel::ThinkingDelta { index: at.answer.thinking_index->0, thinking },
        late,
    );
}

/// A new call under the next index keeps the order.
pub proof fn lemma_slot_added(
    from: Progress,
    step: AnswerStep,
    slots: Seq<Slot>,
    late: bool,
    at: int,
)
    requires
        in_order(from, step, slots, late),
        step.answer.next_index < u64::MAX,
        0 <= at <= slots.len(),
    ensures
        in_order(
            from,
            step.allocated(),
            slots.insert(at, (Slot { index: step.answer.next_index, begun: false, ended: false })),
            late,
        ),
{
    let heard = from.hears_all(step.out, late)->0;
    let slot = Slot { index: step.answer.next_index, begun: false, ended: false };
    let more = slots.insert(at, slot);
    let answer = step.allocated().answer;
    assert forall|k: int| 0 <= k < more.len() implies #[trigger] slot_agrees(
        heard,
        answer,
        more[k],
    ) by {
        if k < at {
            assert(slot_agrees(heard, step.answer, slots[k]));
        } else if k > at {
            assert(slot_agrees(heard, step.answer, slots[k - 1]));
        }
    }
    assert forall|j: int, k: int| 0 <= j < k < more.len() implies (#[trigger] more[j]).index != (
    #[trigger] more[k]).index by {
        if j != at {
            assert(slot_agrees(heard, step.answer, slots[if j < at { j } else { j - 1 }]));
        }
        if k != at {
            assert(slot_agrees(heard, step.answer, slots[if k < at { k } else { k - 1 }]));
        }
    }
    assert forall|i: u64| #[trigger] heard.open.contains(i) implies is_of(answer, more, i) by {
        assert(is_of(step.answer, slots, i));
        if !(answer.text_index == Some(i)) && !(answer.thinking_index == Some(i)) {
            let k = choose|k: int|
                0 <= k < slots.len() && (#[trigger] slots[k]).index == i && slots[k].begun
                    && !slots[k].ended;
            assert(more[if k < at { k } else { k + 1 }] == slots[k]);
        }
    }
    assert forall|i: u64| i < answer.next_index implies #[trigger] is_taken(heard, more, i) by {
        if i == slot.index {
            assert(more[at].index == i);
        } else {
            assert(is_taken(heard, slots, i));
            if !heard.kinds.dom().contains(i) {
                let k = choose|k: int|
                    0 <= k < slots.len() && (#[trigger] slots[k]).index == i && !slots[k].begun;
                assert(more[if k < at { k } else { k + 1 }] == slots[k]);
            }
        }
    }
    assert forall|i: u64| #[trigger]
        heard.kinds.dom().contains(i) && heard.kinds[i] == BlockKind::Tool implies is_call(
        more,
        i,
    ) by {
        let k = choose|k: int| 0 <= k < slots.len() && (#[trigger] slots[k]).index == i;
        assert(more[if k < at { k } else { k + 1 }] == slots[k]);
    }
}

/// The beginning of the block of a call keeps the order.
pub proof fn lemma_slot_begun(
    from: Progress,
    step: AnswerStep,
    slots: Seq<Slot>,
    late: bool,
    at: int,
    id: Seq<char>,
    name: Seq<char>,
)
    requires
        in_order(from, step, slots, late),
        step.answer.started,
        0 <= at < slots.len(),
        !slots[at].begun,
        !slots[at].ended,
    ensures
        in_order(
            from,
            step.emit(EventModel::ToolStart { index: slots[at].index, id, name }),
            slots.update(at, (Slot { begun: true, ..slots[at] })),
            late,
        ),
{
    let event = EventModel::ToolStart { index: slots[at].index, id, name };
    lemma_hears_push(from, step.out, event, late);
    let heard = from.hears_all(step.out, late)->0;
    assert(slot_agrees(heard, step.answer, slots[at]));
    let now = from.hears_all(step.emit(event).out, late)->0;
    let new = slots.update(at, (Slot { begun: true, ..slots[at] }));
    assert forall|k: int| 0 <= k < new.len() implies #[trigger] slot_agrees(
        now,
        step.answer,
        new[k],
    ) by {
        assert(slot_agrees(heard, step.answer, slots[k]));
        assert(k != at ==> slots[k].index != slots[at].index);
    }
    assert forall|j: int, k: int| 0 <= j < k < new.len() implies (#[trigger] new[j]).index != (
    #[trigger] new[k]).index by {
        assert(slots[j].index != slots[k].index);
    }
    assert forall|i: u64| #[trigger] now.open.contains(i) implies is_of(step.answer, new, i) by {
        if i == slots[at].index {
            assert(new[at].index == i);
        } else {
            assert(heard.open.contains(i));
            lemma_is_of_kept(step.answer, slots, new, at, i);
        }
    }
    assert forall|i: u64| i < step.answer.next_index implies #[trigger] is_taken(now, new, i) by {
        assert(is_taken(heard, slots, i));
        if !now.kinds.dom().contains(i) {
            let k = choose|k: int|
                0 <= k < slots.len() && (#[trigger] slots[k]).index == i && !slots[k].begun;
            assert(new[k] == slots[k]);
        }
    }
    assert forall|i: u64| #[trigger]
        now.kinds.dom().contains(i) && now.kinds[i] == BlockKind::Tool implies is_call(
        new,
        i,
    ) by {
        if i == slots[at].index {
            assert(new[at].index == i);
        } else {
            assert(heard.kinds.dom().contains(i));
            let k = choose|k: int| 0 <= k < slots.len() && (#[trigger] slots[k]).index == i;
            assert(new[k].index == i);
        }
    }
}

/// A change of one call leaves the blocks of the others with their owners.
proof fn lemma_is_of_kept(
    answer: AnswerModel,
    slots: Seq<Slot>,
    new: Seq<Slot>,
    at: int,
    index: u64,
)
    requires
        is_of(answer, slots, index),
        0 <= at < slots.len(),
        new == slots.update(at, new[at]),
        slots[at].index != index,
    ensures
        is_of(answer, new, index),
{
    if !(answer.text_index == Some(index)) && !(answer.thinking_index == Some(index)) {
        let k = choose|k: int|
            0 <= k < slots.len() && (#[trigger] slots[k]).index == index && slots[k].begun
                && !slots[k].ended;
        assert(new[k] == slots[k]);
    }
}

/// Input of a call keeps the order.
pub proof fn lemma_slot_input(
    from: Progress,
    step: AnswerStep,
    slots: Seq<Slot>,
    late: bool,
    at: int,
    json: Seq<char>,
)
    requires
        in_order(from, step, slots, late),
        step.answer.started,
        0 <= at < slots.len(),
        slots[at].begun,
        late || !slots[at].ended,
    ensures
        in_order(
            from,
            step.emit(EventModel::InputDelta { index: slots[at].index, json }),
            slots,
            late,
        ),
{
    let event = EventModel::InputDelta { index: slots[at].index, json };
    lemma_hears_push(from, step.out, event, late);
    let heard = from.hears_all(step.out, late)->0;
    assert(slot_agrees(heard, step.answer, slots[at]));
}

/// The end of the block of a call keeps the order.
pub proof fn lemma_slot_ended(
    from: Progress,
    step: AnswerStep,
    slots: Seq<Slot>,
    late: bool,
    at: int,
)
    requires
        in_order(from, step, slots, late),
        step.answer.started,
        0 <= at < slots.len(),
        slots[at].begun,
        !slots[at].ended,
    ensures
        in_order(
            from,
            step.emit(EventModel::BlockStop { index: slots[at].index }),
            slots.update(at, (Slot { ended: true, ..slots[at] })),
            late,
        ),
{
    let event = EventModel::BlockStop { index: slots[at].index };
    lemma_hears_push(from, step.out, event, late);
    let heard = from.hears_all(step.out, late)->0;
    assert(slot_agrees(heard, step.answer, slots[at]));
    let now = from.hears_all(step.emit(event).out, late)->0;
    let new = slots.update(at, (Slot { ended: true, ..slots[at] }));
    assert forall|k: int| 0 <= k < new.len() implies #[trigger] slot_agrees(
        now,
        step.answer,
        new[k],
    ) by {
        assert(slot_agrees(heard, step.answer, slots[k]));
        assert(k != at ==> slots[k].index != slots[at].index);
    }
    assert forall|j: int, k: int| 0 <= j < k < new.len() implies (#[trigger] new[j]).index != (
    #[trigger] new[k]).index by {
        assert(slots[j].index != slots[k].index);
    }
    assert forall|i: u64| #[trigger] now.open.contains(i) implies is_of(step.answer, new, i) by {
        assert(heard.open.contains(i));
        lemma_is_of_kept(step.answer, slots, new, at, i);
    }
    assert forall|i: u64| i < step.answer.next_index implies #[trigger] is_taken(now, new, i) by {
        assert(is_taken(heard, slots, i));
        if !now.kinds.dom().contains(i) {
            let k = choose|k: int|
                0 <= k < slots.len() && (#[trigger] slots[k]).index == i && !slots[k].begun;
            assert(new[k] == slots[k]);
        }
    }
    assert forall|i: u64| #[trigger]
        now.kinds.dom().contains(i) && now.kinds[i] == BlockKind::Tool implies is_call(
        new,
        i,
    ) by {
        assert(heard.kinds.dom().contains(i));
        let k = choose|k: int| 0 <= k < slots.len() && (#[trigger] slots[k]).index == i;
        assert(new[k].index == i);
    }
}

/// An answer all of whose blocks have ended may stop.
pub proof fn lemma_stopped(
    from: Progress,
    step: AnswerStep,
    slots: Seq<Slot>,
    late: bool,
    stop: EventModel,
)
    requires
        in_order(from, step, slots, late),
        step.answer.started,
        step.answer.text_index is None,
        step.answer.thinking_index is None,
        forall|k: int|
            0 <= k < slots.len() ==> (#[trigger] slots[k]).ended && slots[k].begun,
        stop is MessageDelta,
    ensures
        match from.hears_all(step.out.push(stop).push(EventModel::MessageStop), late) {
            Some(heard) => {
                &&& complete(heard)
                &&& has_indices(heard, step.answer.next_index)
                &&& has_calls(heard, slots)
            },
            None => false,
        },
{
    lemma_hears_push(from, step.out, stop, late);
    lemma_hears_push(from, step.out.push(stop), EventModel::MessageStop, late);
    let heard = from.hears_all(step.out, late)->0;
    assert forall|i: u64| !(#[trigger] heard.open.contains(i)) by {
        if heard.open.contains(i) {
            assert(is_of(step.answer, slots, i));
        }
    }
    assert(heard.open =~= Set::empty());
    assert forall|i: u64| heard.kinds.dom().contains(i) == (i < step.answer.next_index) by {
        if i < step.answer.next_index {
            assert(is_taken(heard, slots, i));
        }
    }
    assert forall|k: int| 0 <= k < slots.len() implies heard.kinds.dom().contains(
        (#[trigger] slots[k]).index,
    ) && heard.kinds[slots[k].index] == BlockKind::Tool by {
        assert(slot_agrees(heard, step.answer, slots[k]));
    }
}

/// How many events of a list are of a sort.
pub open spec fn count(events: Seq<EventModel>, sort: spec_fn(EventModel) -> bool) -> nat
    decreases events.len(),
{
    if events.len() == 0 {
        0
    } else {
        count(events.drop_last(), sort) + if sort(events.last()) {
            1nat
        } else {
            0
        }
    }
}

/// Whether an event begins a block under an index.
pub open spec fn begins_block(event: EventModel, index: u64) -> bool {
    match event {
        EventModel::TextStart { index: i } => i == index,
        EventModel::ThinkingStart { index: i } => i == index,
        EventModel::ToolStart { index: i, .. } => i == index,
        _ => false,
    }
}

/// Whether an event begins the block of a tool under an index.
pub open spec fn begins_tool(event: EventModel, index: u64) -> bool {
    event matches EventModel::ToolStart { index: i, .. } && i == index
}

/// Whether an event gives a piece to a block.
pub open spec fn gives_piece(event: EventModel, index: u64) -> bool {
    match event {
        EventModel::TextDelta { index: i, .. } => i == index,
        EventModel::ThinkingDelta { index: i, .. } => i == index,
        EventModel::InputDelta { index: i, .. } => i == index,
        _ => false,
    }
}

/// Whether an event ends a block.
pub open spec fn ends_block(event: EventModel, index: u64) -> bool {
    event matches EventModel::BlockStop { index: i } && i == index
}

/// One where something holds, none where it does not.
pub open spec fn once_if(holds: bool) -> nat {
    if holds {
        1
    } else {
        0
    }
}

/// What was heard in order was heard once: the beginning of the answer, why it
/// stops and its end, and the beginning and the end of each block.
pub proof fn law_heard_once(events: Seq<EventModel>, index: u64, late: bool)
    requires
        nothing_heard().hears_all(events, late) is Some,
    ensures
        ({
            let heard = nothing_heard().hears_all(events, late)->0;
            let begun = heard.kinds.dom().contains(index);
            &&& count(events, |e: EventModel| e is MessageStart) == once_if(heard.started)
            &&& count(events, |e: EventModel| e is MessageDelta) == once_if(heard.stopping)
            &&& count(events, |e: EventModel| e is MessageStop) == once_if(heard.ended)
            &&& count(events, |e: EventModel| begins_block(e, index)) == once_if(begun)
            &&& count(events, |e: EventModel| begins_tool(e, index)) == once_if(
                begun && heard.kinds[index] == BlockKind::Tool,
            )
            &&& count(events, |e: EventModel| ends_block(e, index)) == once_if(
                begun && !heard.open.contains(index),
            )
            &&& heard.open.contains(index) ==> begun
            &&& heard.stopping ==> heard.started
            &&& heard.ended ==> heard.stopping
            &&& begun ==> heard.started
        }),
    decreases events.len(),
{
    if events.len() > 0 {
        law_heard_once(events.drop_last(), index, late);
    }
}

/// The end of an answer stands at its end: the last event is that it ends, and
/// the one before says why.
pub proof fn law_end_is_last(events: Seq<EventModel>, late: bool)
    requires
        nothing_heard().hears_all(events, late) is Some,
        nothing_heard().hears_all(events, late)->0.ended,
    ensures
        events.len() >= 2,
        events.last() is MessageStop,
        events[events.len() - 2] is MessageDelta,
{
    let before = events.drop_last();
    let then = nothing_heard().hears_all(before, late)->0;
    law_heard_once(before, 0, late);
    assert(then.stopping && !then.ended);
    assert(before.len() > 0);
    law_heard_once(before.drop_last(), 0, late);
    assert(before.last() == events[events.len() - 2]);
}

/// A piece is given to a block that has begun, and, but for late input, that has
/// not ended; and the answer has begun before any block.
pub proof fn law_pieces_lie_within_blocks(
    events: Seq<EventModel>,
    at: int,
    index: u64,
    late: bool,
)
    requires
        nothing_heard().hears_all(events, late) is Some,
        0 <= at < events.len(),
    ensures
        gives_piece(events[at], index) ==> {
            let before = events.take(at);
            &&& count(before, |e: EventModel| begins_block(e, index)) == 1
            &&& !late ==> count(before, |e: EventModel| ends_block(e, index)) == 0
        },
        begins_block(events[at], index) ==> count(
            events.take(at),
            |e: EventModel| e is MessageStart,
        ) == 1,
        ends_block(events[at], index) ==> count(
            events.take(at),
            |e: EventModel| begins_block(e, index),
        ) == 1,
    decreases events.len(),
{
    let before = events.drop_last();
    if at < before.len() {
        law_pieces_lie_within_blocks(before, at, index, late);
        assert(before.take(at) =~= events.take(at));
    } else {
        assert(events.take(at) =~= before);
        law_heard_once(before, index, late);
    }
}

/// What a complete answer looks like: it begins once, says once why it stops and
/// ends once, these two last; each index below the number of blocks is that of one
/// block, which begins once and ends once, and no other index is.
pub open spec fn well_formed(events: Seq<EventModel>, bound: u64) -> bool {
    &&& count(events, |e: EventModel| e is MessageStart) == 1
    &&& count(events, |e: EventModel| e is MessageDelta) == 1
    &&& count(events, |e: EventModel| e is MessageStop) == 1
    &&& events.len() >= 2
    &&& events.last() is MessageStop
    &&& events[events.len() - 2] is MessageDelta
    &&& forall|index: u64| #[trigger] has_block(events, index) == once_if(index < bound)
    &&& forall|index: u64| #[trigger] ended_block(events, index) == once_if(index < bound)
}

/// How often a block begins under an index.
pub open spec fn has_block(events: Seq<EventModel>, index: u64) -> nat {
    count(events, |e: EventModel| begins_block(e, index))
}

/// How often a block ends under an index.
pub open spec fn ended_block(events: Seq<EventModel>, index: u64) -> nat {
    count(events, |e: EventModel| ends_block(e, index))
}

/// How often the block of a tool begins under an index.
pub open spec fn has_tool(events: Seq<EventModel>, index: u64) -> nat {
    count(events, |e: EventModel| begins_tool(e, index))
}

/// How often the block of a tool begins under an index, with one more event.
pub proof fn lemma_tool_push(events: Seq<EventModel>, event: EventModel, index: u64)
    ensures
        has_tool(events.push(event), index) == has_tool(events, index) + once_if(
            begins_tool(event, index),
        ),
{
    assert(events.push(event).drop_last() =~= events);
}

/// How often the block of a tool begins under an index in two lists.
pub proof fn lemma_tool_both(a: Seq<EventModel>, b: Seq<EventModel>, index: u64)
    ensures
        has_tool(a + b, index) == has_tool(a, index) + has_tool(b, index),
    decreases b.len(),
{
    if b.len() == 0 {
        assert(a + b =~= a);
    } else {
        lemma_tool_both(a, b.drop_last(), index);
        assert((a + b).drop_last() =~= a + b.drop_last());
    }
}

/// An answer that was heard in order and is complete is well formed.
pub proof fn law_complete_is_well_formed(events: Seq<EventModel>, bound: u64, late: bool)
    requires
        nothing_heard().hears_all(events, late) is Some,
        complete_up_to(nothing_heard().hears_all(events, late)->0, bound),
    ensures
        well_formed(events, bound),
{
    let heard = nothing_heard().hears_all(events, late)->0;
    law_heard_once(events, 0, late);
    law_end_is_last(events, late);
    assert forall|index: u64| #[trigger] has_block(events, index) == once_if(index < bound) by {
        law_heard_once(events, index, late);
        assert(heard.kinds.dom().contains(index) == Set::new(|i: u64| i < bound).contains(index));
    }
    assert forall|index: u64| #[trigger] ended_block(events, index) == once_if(index < bound) by {
        law_heard_once(events, index, late);
        assert(heard.kinds.dom().contains(index) == Set::new(|i: u64| i < bound).contains(index));
        assert(!heard.open.contains(index));
    }
}

}
