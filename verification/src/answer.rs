//! What an answer in the making has in common whichever protocol it comes from:
//! its name, its beginning, and its blocks of text and thinking.
use vstd::prelude::*;

use crate::event::{self, EventModel, SaidModel, StreamEvent};

verus! {

/// How far an answer has come.
pub struct Answer {
    pub started: bool,
    pub finished: bool,
    pub id: String,
    pub model: String,
    pub next_index: u64,
    pub text_index: Option<u64>,
    pub thinking_index: Option<u64>,
}

/// How far an answer has come.
pub struct AnswerModel {
    /// It has begun.
    pub started: bool,
    /// Nothing more is said.
    pub finished: bool,
    pub id: Seq<char>,
    pub model: Seq<char>,
    /// The index of the next block.
    pub next_index: u64,
    /// The block of text that is open.
    pub text_index: Option<u64>,
    /// The block of thinking that is open.
    pub thinking_index: Option<u64>,
}

impl View for Answer {
    type V = AnswerModel;

    open spec fn view(&self) -> AnswerModel {
        AnswerModel {
            started: self.started,
            finished: self.finished,
            id: self.id@,
            model: self.model@,
            next_index: self.next_index,
            text_index: self.text_index,
            thinking_index: self.thinking_index,
        }
    }
}

/// An answer and the events that were given on the way.
pub struct AnswerStep {
    pub answer: AnswerModel,
    pub out: Seq<EventModel>,
}

/// The index behind an index. Behind the greatest comes zero again.
pub open spec fn index_after(index: u64) -> u64 {
    if index == u64::MAX {
        0
    } else {
        (index + 1) as u64
    }
}

/// An answer that has not begun.
pub open spec fn new_answer() -> AnswerModel {
    AnswerModel {
        started: false,
        finished: false,
        id: Seq::empty(),
        model: Seq::empty(),
        next_index: 0,
        text_index: None,
        thinking_index: None,
    }
}

impl AnswerModel {
    /// The answer with the names it lacks taken from what may be given.
    pub open spec fn named(self, id: Option<Seq<char>>, model: Option<Seq<char>>) -> AnswerModel {
        AnswerModel {
            id: if self.id.len() == 0 {
                match id {
                    Some(text) => text,
                    None => Seq::empty(),
                }
            } else {
                self.id
            },
            model: if self.model.len() == 0 {
                match model {
                    Some(text) => text,
                    None => Seq::empty(),
                }
            } else {
                self.model
            },
            ..self
        }
    }
}

impl AnswerStep {
    /// One more event.
    pub open spec fn emit(self, event: EventModel) -> AnswerStep {
        AnswerStep { out: self.out.push(event), ..self }
    }

    /// The answer has begun: it begins now if it had not.
    pub open spec fn begun(self) -> AnswerStep {
        if self.answer.started {
            self
        } else {
            AnswerStep { answer: AnswerModel { started: true, ..self.answer }, ..self }.emit(
                EventModel::MessageStart { id: self.answer.id, model: self.answer.model },
            )
        }
    }

    /// The next index is taken.
    pub open spec fn allocated(self) -> AnswerStep {
        AnswerStep {
            answer: AnswerModel { next_index: index_after(self.answer.next_index), ..self.answer },
            ..self
        }
    }

    /// No block of text is open: one that was ends.
    pub open spec fn text_closed(self) -> AnswerStep {
        match self.answer.text_index {
            Some(index) => AnswerStep {
                answer: AnswerModel { text_index: None, ..self.answer },
                ..self
            }.emit(EventModel::BlockStop { index }),
            None => self,
        }
    }

    /// No block of thinking is open: one that was ends.
    pub open spec fn thinking_closed(self) -> AnswerStep {
        match self.answer.thinking_index {
            Some(index) => AnswerStep {
                answer: AnswerModel { thinking_index: None, ..self.answer },
                ..self
            }.emit(EventModel::BlockStop { index }),
            None => self,
        }
    }

    /// A block of text is open and none of thinking.
    pub open spec fn text_open(self) -> AnswerStep {
        let at = self.thinking_closed();
        match at.answer.text_index {
            Some(_) => at,
            None => {
                let index = at.answer.next_index;
                let next = at.allocated();
                AnswerStep {
                    answer: AnswerModel { text_index: Some(index), ..next.answer },
                    ..next
                }.emit(EventModel::TextStart { index })
            },
        }
    }

    /// A block of thinking is open and none of text.
    pub open spec fn thinking_open(self) -> AnswerStep {
        let at = self.text_closed();
        match at.answer.thinking_index {
            Some(_) => at,
            None => {
                let index = at.answer.next_index;
                let next = at.allocated();
                AnswerStep {
                    answer: AnswerModel { thinking_index: Some(index), ..next.answer },
                    ..next
                }.emit(EventModel::ThinkingStart { index })
            },
        }
    }

    /// A piece of text is said.
    pub open spec fn text_said(self, text: Seq<char>) -> AnswerStep {
        let at = self.text_open();
        at.emit(EventModel::TextDelta { index: at.answer.text_index->0, text })
    }

    /// A piece of thinking is said.
    pub open spec fn thinking_said(self, thinking: Seq<char>) -> AnswerStep {
        let at = self.thinking_open();
        at.emit(EventModel::ThinkingDelta { index: at.answer.thinking_index->0, thinking })
    }
}

/// Opening and closing blocks says nothing.
pub proof fn lemma_frame_says_nothing(step: AnswerStep)
    ensures
        event::said(step.begun().out) == event::said(step.out),
        event::said(step.text_closed().out) == event::said(step.out),
        event::said(step.thinking_closed().out) == event::said(step.out),
        event::said(step.text_open().out) == event::said(step.out),
        event::said(step.thinking_open().out) == event::said(step.out),
{
    let answer = step.answer;
    event::lemma_said_push(
        step.out,
        EventModel::MessageStart { id: answer.id, model: answer.model },
    );
    if let Some(index) = answer.text_index {
        event::lemma_said_push(step.out, EventModel::BlockStop { index });
    }
    if let Some(index) = answer.thinking_index {
        event::lemma_said_push(step.out, EventModel::BlockStop { index });
    }
    let index = answer.next_index;
    event::lemma_said_push(step.thinking_closed().out, EventModel::TextStart { index });
    event::lemma_said_push(step.text_closed().out, EventModel::ThinkingStart { index });
}

/// A piece of text or thinking is said once and as it is.
pub proof fn lemma_pieces_are_said(step: AnswerStep, piece: Seq<char>)
    ensures
        event::said(step.text_said(piece).out) == (SaidModel {
            text: event::said(step.out).text + piece,
            ..event::said(step.out)
        }),
        event::said(step.thinking_said(piece).out) == (SaidModel {
            thinking: event::said(step.out).thinking + piece,
            ..event::said(step.out)
        }),
{
    lemma_frame_says_nothing(step);
    let one = step.text_open();
    event::lemma_said_push(
        one.out,
        EventModel::TextDelta { index: one.answer.text_index->0, text: piece },
    );
    let two = step.thinking_open();
    event::lemma_said_push(
        two.out,
        EventModel::ThinkingDelta { index: two.answer.thinking_index->0, thinking: piece },
    );
}

/// An answer and the events that were given on the way.
pub open spec fn at(answer: Answer, out: Seq<StreamEvent>) -> AnswerStep {
    AnswerStep { answer: answer@, out: event::event_models(out) }
}

/// The text of a name that may be given.
fn name_or_empty(name: Option<&str>) -> (r: String)
    ensures
        r@ == (match name {
            Some(text) => text@,
            None => Seq::empty(),
        }),
{
    match name {
        Some(text) => text.to_owned(),
        None => String::new(),
    }
}

impl Answer {
    /// An answer that has not begun.
    pub fn new() -> (r: Answer)
        ensures
            r@ == new_answer(),
    {
        Answer {
            started: false,
            finished: false,
            id: String::new(),
            model: String::new(),
            next_index: 0,
            text_index: None,
            thinking_index: None,
        }
    }

    /// Takes the names that the answer lacks from what may be given.
    pub fn take_names(&mut self, id: Option<&str>, model: Option<&str>)
        ensures
            final(self)@ == old(self)@.named(
                crate::text::text_ref(id),
                crate::text::text_ref(model),
            ),
    {
        if self.id.as_str().is_empty() {
            self.id = name_or_empty(id);
        }
        if self.model.as_str().is_empty() {
            self.model = name_or_empty(model);
        }
    }

    /// Lets the answer begin if it has not.
    pub fn ensure_started(&mut self, out: &mut Vec<StreamEvent>)
        ensures
            at(*final(self), final(out)@) == at(*old(self), old(out)@).begun(),
    {
        if !self.started {
            self.started = true;
            event::emit(
                out,
                StreamEvent::MessageStart { id: self.id.clone(), model: self.model.clone() },
            );
        }
    }

    /// Takes the next index.
    pub fn allocate_index(&mut self) -> (r: u64)
        ensures
            r == old(self)@.next_index,
            final(self)@ == (AnswerModel { next_index: index_after(r), ..old(self)@ }),
    {
        let index: u64 = self.next_index;
        self.next_index = index.wrapping_add(1);
        index
    }

    /// Ends the block of text that is open.
    pub fn close_text(&mut self, out: &mut Vec<StreamEvent>)
        ensures
            at(*final(self), final(out)@) == at(*old(self), old(out)@).text_closed(),
    {
        if let Some(index) = self.text_index {
            self.text_index = None;
            event::emit(out, StreamEvent::BlockStop { index });
        }
    }

    /// Ends the block of thinking that is open.
    pub fn close_thinking(&mut self, out: &mut Vec<StreamEvent>)
        ensures
            at(*final(self), final(out)@) == at(*old(self), old(out)@).thinking_closed(),
    {
        if let Some(index) = self.thinking_index {
            self.thinking_index = None;
            event::emit(out, StreamEvent::BlockStop { index });
        }
    }

    /// Lets a block of text be open and none of thinking.
    pub fn ensure_text(&mut self, out: &mut Vec<StreamEvent>) -> (r: u64)
        ensures
            at(*final(self), final(out)@) == at(*old(self), old(out)@).text_open(),
            final(self)@.text_index == Some(r),
    {
        self.close_thinking(out);
        if let Some(index) = self.text_index {
            return index;
        }
        let index: u64 = self.allocate_index();
        self.text_index = Some(index);
        event::emit(out, StreamEvent::TextStart { index });
        index
    }

    /// Lets a block of thinking be open and none of text.
    pub fn ensure_thinking(&mut self, out: &mut Vec<StreamEvent>) -> (r: u64)
        ensures
            at(*final(self), final(out)@) == at(*old(self), old(out)@).thinking_open(),
            final(self)@.thinking_index == Some(r),
    {
        self.close_text(out);
        if let Some(index) = self.thinking_index {
            return index;
        }
        let index: u64 = self.allocate_index();
        self.thinking_index = Some(index);
        event::emit(out, StreamEvent::ThinkingStart { index });
        index
    }

    /// Says a piece of text.
    pub fn say_text(&mut self, text: &str, out: &mut Vec<StreamEvent>)
        ensures
            at(*final(self), final(out)@) == at(*old(self), old(out)@).text_said(text@),
    {
        let index: u64 = self.ensure_text(out);
        event::emit(out, StreamEvent::TextDelta { index, text: text.to_owned() });
    }

    /// Says a piece of thinking.
    pub fn say_thinking(&mut self, thinking: &str, out: &mut Vec<StreamEvent>)
        ensures
            at(*final(self), final(out)@) == at(*old(self), old(out)@).thinking_said(thinking@),
    {
        let index: u64 = self.ensure_thinking(out);
        event::emit(out, StreamEvent::ThinkingDelta { index, thinking: thinking.to_owned() });
    }
}

}
