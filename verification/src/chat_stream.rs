//! An answer of the Chat protocol, piece by piece, as events of Anthropic.
use vstd::prelude::*;

use crate::answer::{self, Answer, AnswerModel, AnswerStep};
use crate::event::{self, EventModel, StreamEvent};
use crate::json::codec;
use crate::json::{self, Json, JsonModel};
use crate::text;
use crate::transform::options;
use crate::transform::usage;

pub mod laws;

verus! {

/// A call of a tool in the making.
pub struct ChatTool {
    anthropic_index: u64,
    id: String,
    name: String,
    started: bool,
    closed: bool,
    pending_arguments: String,
}

/// A call of a tool in the making.
pub struct ChatToolModel {
    /// The index of its block.
    pub index: u64,
    pub id: Seq<char>,
    pub name: Seq<char>,
    /// Its block has begun.
    pub started: bool,
    /// Its block has ended.
    pub closed: bool,
    /// The input that came and was not passed on yet.
    pub pending: Seq<char>,
}

impl View for ChatTool {
    type V = ChatToolModel;

    closed spec fn view(&self) -> ChatToolModel {
        ChatToolModel {
            index: self.anthropic_index,
            id: self.id@,
            name: self.name@,
            started: self.started,
            closed: self.closed,
            pending: self.pending_arguments@,
        }
    }
}

/// A call of a tool and the events that were given on the way.
pub struct ChatToolStep {
    pub tool: ChatToolModel,
    pub out: Seq<EventModel>,
}

/// A call of a tool of which nothing is known but its index.
pub open spec fn new_tool(index: u64) -> ChatToolModel {
    ChatToolModel {
        index,
        id: Seq::empty(),
        name: Seq::empty(),
        started: false,
        closed: false,
        pending: Seq::empty(),
    }
}

/// A text with what may follow it.
pub open spec fn extended(text: Seq<char>, more: Option<Seq<char>>) -> Seq<char> {
    match more {
        Some(piece) => text + piece,
        None => text,
    }
}

/// The id of a call that was given none.
pub open spec fn default_id(index: u64) -> Seq<char> {
    "tool_call_"@ + text::decimal(index as nat)
}

impl ChatToolModel {
    /// The call with one more piece of it.
    pub open spec fn grown(self, call: JsonModel) -> ChatToolModel {
        ChatToolModel {
            id: extended(self.id, call.text_field("id"@)),
            name: extended(self.name, call.nested_text("function"@, "name"@)),
            pending: extended(self.pending, call.nested_text("function"@, "arguments"@)),
            ..self
        }
    }

    /// The call under names of its own: those it was given, or defaults.
    pub open spec fn with_names(self) -> ChatToolModel {
        ChatToolModel {
            id: if self.id.len() == 0 {
                default_id(self.index)
            } else {
                self.id
            },
            name: if self.name.len() == 0 {
                "unknown_tool"@
            } else {
                self.name
            },
            ..self
        }
    }
}

impl ChatToolStep {
    /// One more event.
    pub open spec fn emit(self, event: EventModel) -> ChatToolStep {
        ChatToolStep { out: self.out.push(event), ..self }
    }

    /// The block begins.
    pub open spec fn begun(self) -> ChatToolStep {
        ChatToolStep { tool: ChatToolModel { started: true, ..self.tool }, ..self }.emit(
            EventModel::ToolStart {
                index: self.tool.index,
                id: self.tool.id,
                name: self.tool.name,
            },
        )
    }

    /// The input that waits is passed on.
    pub open spec fn flushed(self) -> ChatToolStep {
        if self.tool.pending.len() == 0 {
            self
        } else {
            ChatToolStep { tool: ChatToolModel { pending: Seq::empty(), ..self.tool }, ..self }.emit(
                EventModel::InputDelta { index: self.tool.index, json: self.tool.pending },
            )
        }
    }

    /// One more piece of the call has come. The block begins once an id or a name
    /// is known; input waits until then.
    pub open spec fn called(self, call: JsonModel) -> ChatToolStep {
        let grown = ChatToolStep { tool: self.tool.grown(call), ..self };
        let known = if !grown.tool.started && (grown.tool.id.len() > 0 || grown.tool.name.len()
            > 0) {
            grown.begun()
        } else {
            grown
        };
        if known.tool.started {
            known.flushed()
        } else {
            known
        }
    }

    /// The call is at its end.
    pub open spec fn ended(self) -> ChatToolStep {
        let known = if self.tool.started {
            self
        } else {
            ChatToolStep { tool: self.tool.with_names(), ..self }.begun()
        };
        let passed = known.flushed();
        if passed.tool.closed {
            passed
        } else {
            ChatToolStep { tool: ChatToolModel { closed: true, ..passed.tool }, ..passed }.emit(
                EventModel::BlockStop { index: passed.tool.index },
            )
        }
    }
}

/// A call and the events that were given on the way.
pub open spec fn tool_at(tool: ChatTool, out: Seq<StreamEvent>) -> ChatToolStep {
    ChatToolStep { tool: tool@, out: event::event_models(out) }
}

impl ChatTool {
    /// A call of which nothing is known but its index.
    fn new(index: u64) -> (r: ChatTool)
        ensures
            r@ == new_tool(index),
    {
        ChatTool {
            anthropic_index: index,
            id: String::new(),
            name: String::new(),
            started: false,
            closed: false,
            pending_arguments: String::new(),
        }
    }

    /// Lets the block begin.
    fn begin(&mut self, out: &mut Vec<StreamEvent>)
        ensures
            tool_at(*final(self), final(out)@) == tool_at(*old(self), old(out)@).begun(),
    {
        self.started = true;
        event::emit(
            out,
            StreamEvent::ToolStart {
                index: self.anthropic_index,
                id: self.id.clone(),
                name: self.name.clone(),
            },
        );
    }

    /// Passes on the input that waits.
    fn flush(&mut self, out: &mut Vec<StreamEvent>)
        ensures
            tool_at(*final(self), final(out)@) == tool_at(*old(self), old(out)@).flushed(),
    {
        if !self.pending_arguments.as_str().is_empty() {
            let mut json = String::new();
            std::mem::swap(&mut json, &mut self.pending_arguments);
            event::emit(out, StreamEvent::InputDelta { index: self.anthropic_index, json });
        }
    }

    /// Takes one more piece of the call.
    fn take_call(&mut self, call: &Json, out: &mut Vec<StreamEvent>)
        ensures
            tool_at(*final(self), final(out)@) == tool_at(*old(self), old(out)@).called(call@),
    {
        if let Some(id) = call.text_field("id") {
            self.id.append(id);
        }
        if let Some(name) = call.nested_text("function", "name") {
            self.name.append(name);
        }
        if let Some(arguments) = call.nested_text("function", "arguments") {
            self.pending_arguments.append(arguments);
        }
        if !self.started && (!self.id.as_str().is_empty() || !self.name.as_str().is_empty()) {
            self.begin(out);
        }
        if self.started {
            self.flush(out);
        }
    }

    /// Brings the call to its end.
    fn end(&mut self, out: &mut Vec<StreamEvent>)
        ensures
            tool_at(*final(self), final(out)@) == tool_at(*old(self), old(out)@).ended(),
    {
        if !self.started {
            if self.id.as_str().is_empty() {
                let mut id = "tool_call_".to_owned();
                id.append(text::decimal_text(self.anthropic_index).as_str());
                self.id = id;
            }
            if self.name.as_str().is_empty() {
                self.name = "unknown_tool".to_owned();
            }
            self.begin(out);
        }
        self.flush(out);
        if !self.closed {
            self.closed = true;
            event::emit(out, StreamEvent::BlockStop { index: self.anthropic_index });
        }
    }
}

/// The calls of an answer under their keys, by ascending key.
pub type ChatCalls = Seq<(u64, ChatToolModel)>;

/// How far an answer of the Chat protocol has come.
pub struct ChatModel {
    pub answer: AnswerModel,
    /// The calls of tools under the keys that the answer gives them.
    pub tools: ChatCalls,
    /// Why the answer stops, in the words of the Chat protocol.
    pub finish_reason: Option<Seq<char>>,
    /// What the answer used, in the form of Anthropic.
    pub usage: Option<JsonModel>,
}

/// How far an answer has come and the events that were given on the way.
pub struct ChatStep {
    pub state: ChatModel,
    pub out: Seq<EventModel>,
}

/// How many calls have a smaller key.
pub open spec fn place(tools: ChatCalls, key: u64) -> int
    decreases tools.len(),
{
    if tools.len() == 0 || tools[0].0 >= key {
        0
    } else {
        1 + place(tools.drop_first(), key)
    }
}

/// Whether there is a call under that key.
pub open spec fn has_key(tools: ChatCalls, key: u64) -> bool {
    place(tools, key) < tools.len() && tools[place(tools, key)].0 == key
}

/// The keys of the calls ascend.
pub open spec fn ascending(tools: ChatCalls) -> bool {
    forall|i: int, j: int|
        0 <= i < j < tools.len() ==> (#[trigger] tools[i]).0 < (#[trigger] tools[j]).0
}

/// The key of a call: zero where it gives none.
pub open spec fn call_key(call: JsonModel) -> u64 {
    match call.u64_field("index"@) {
        Some(key) => key,
        None => 0,
    }
}

/// The first alternative of an answer.
pub open spec fn first_choice(value: JsonModel) -> Option<JsonModel> {
    match value.array_field("choices"@) {
        Some(choices) => if choices.len() > 0 {
            Some(choices[0])
        } else {
            None
        },
        None => None,
    }
}

/// The thinking in a piece of an answer.
pub open spec fn reasoning_of(delta: JsonModel) -> Option<Seq<char>> {
    match delta.field("reasoning_content"@) {
        Some(value) => value.as_text(),
        None => delta.text_field("reasoning"@),
    }
}

/// An answer that has not begun.
pub open spec fn new_chat() -> ChatModel {
    ChatModel {
        answer: answer::new_answer(),
        tools: Seq::empty(),
        finish_reason: None,
        usage: None,
    }
}

impl ChatStep {
    /// The answer alone.
    pub open spec fn speaking(self) -> AnswerStep {
        AnswerStep { answer: self.state.answer, out: self.out }
    }

    /// The same with what was said since.
    pub open spec fn said(self, step: AnswerStep) -> ChatStep {
        ChatStep { state: ChatModel { answer: step.answer, ..self.state }, out: step.out }
    }

    /// There is a call under that key: a new one takes the next index.
    pub open spec fn with_key(self, key: u64) -> ChatStep {
        if has_key(self.state.tools, key) {
            self
        } else {
            let next = self.said(self.speaking().allocated());
            ChatStep {
                state: ChatModel {
                    tools: self.state.tools.insert(
                        place(self.state.tools, key),
                        (key, new_tool(self.state.answer.next_index)),
                    ),
                    ..next.state
                },
                ..next
            }
        }
    }

    /// One more piece of a call has come.
    pub open spec fn called(self, call: JsonModel) -> ChatStep {
        let known = self.with_key(call_key(call));
        let i = place(known.state.tools, call_key(call));
        let step = (ChatToolStep { tool: known.state.tools[i].1, out: known.out }).called(call);
        ChatStep {
            state: ChatModel {
                tools: known.state.tools.update(i, (call_key(call), step.tool)),
                ..known.state
            },
            out: step.out,
        }
    }

    /// Pieces of calls have come, one after the other.
    pub open spec fn all_called(self, calls: Seq<JsonModel>) -> ChatStep
        decreases calls.len(),
    {
        if calls.len() == 0 {
            self
        } else {
            self.all_called(calls.drop_last()).called(calls.last())
        }
    }

    /// The thinking in a piece of an answer is said.
    pub open spec fn with_reasoning(self, delta: JsonModel) -> ChatStep {
        match reasoning_of(delta) {
            Some(thinking) => if thinking.len() > 0 {
                self.said(self.speaking().thinking_said(thinking))
            } else {
                self
            },
            None => self,
        }
    }

    /// The text in a piece of an answer is said.
    pub open spec fn with_content(self, delta: JsonModel) -> ChatStep {
        match delta.text_field("content"@) {
            Some(text) => if text.len() > 0 {
                self.said(self.speaking().text_said(text))
            } else {
                self
            },
            None => self,
        }
    }

    /// The calls in a piece of an answer are made.
    pub open spec fn with_calls(self, delta: JsonModel) -> ChatStep {
        match delta.array_field("tool_calls"@) {
            Some(calls) => self.said(self.speaking().text_closed().thinking_closed()).all_called(
                calls,
            ),
            None => self,
        }
    }

    /// One more piece of the alternative that counts has come.
    pub open spec fn chosen(self, choice: JsonModel) -> ChatStep {
        let delta = usage::or_null(choice.field("delta"@));
        let told = self.with_reasoning(delta).with_content(delta).with_calls(delta);
        match choice.text_field("finish_reason"@) {
            Some(reason) => ChatStep {
                state: ChatModel { finish_reason: Some(reason), ..told.state },
                ..told
            },
            None => told,
        }
    }

    /// The first `n` calls are at their end.
    pub open spec fn tools_ended(self, n: int) -> ChatStep
        decreases n,
    {
        if n <= 0 {
            self
        } else {
            let before = self.tools_ended(n - 1);
            let tool = before.state.tools[n - 1];
            let step = (ChatToolStep { tool: tool.1, out: before.out }).ended();
            ChatStep {
                state: ChatModel {
                    tools: before.state.tools.update(n - 1, (tool.0, step.tool)),
                    ..before.state
                },
                out: step.out,
            }
        }
    }

    /// The answer says why it stops and ends.
    pub open spec fn stopped(self) -> ChatStep {
        ChatStep {
            state: ChatModel {
                answer: AnswerModel { finished: true, ..self.state.answer },
                ..self.state
            },
            out: self.out.push(
                EventModel::MessageDelta {
                    stop_reason: options::chat_stop(
                        self.state.finish_reason,
                        self.state.tools.len() > 0,
                    ),
                    usage: match self.state.usage {
                        Some(value) => value,
                        None => event::no_usage(),
                    },
                },
            ).push(EventModel::MessageStop),
        }
    }
}

impl ChatModel {
    /// Nothing was given yet.
    pub open spec fn silent(self) -> ChatStep {
        ChatStep { state: self, out: Seq::empty() }
    }

    /// The answer fails.
    pub open spec fn failed(self, message: Seq<char>) -> ChatStep {
        ChatStep {
            state: ChatModel {
                answer: AnswerModel { finished: true, ..self.answer },
                ..self
            },
            out: seq![EventModel::Failure { message }],
        }
    }

    /// The answer knows its names and what it used as far as a document tells.
    pub open spec fn informed(self, value: JsonModel) -> ChatStep {
        let named = ChatModel {
            answer: self.answer.named(value.text_field("id"@), value.text_field("model"@)),
            ..self
        }.silent();
        let begun = named.said(named.speaking().begun());
        match value.field("usage"@) {
            Some(used) => if used != JsonModel::Null {
                ChatStep {
                    state: ChatModel {
                        usage: Some(usage::from_chat(Some(used))),
                        ..begun.state
                    },
                    ..begun
                }
            } else {
                begun
            },
            None => begun,
        }
    }

    /// One more document of the answer has come.
    pub open spec fn told(self, value: JsonModel) -> ChatStep {
        match value.nested_text("error"@, "message"@) {
            Some(message) => self.failed(message),
            None => {
                let informed = self.informed(value);
                match first_choice(value) {
                    Some(choice) => informed.chosen(choice),
                    None => informed,
                }
            },
        }
    }

    /// No more comes.
    pub open spec fn ended(self) -> ChatStep {
        if self.answer.finished {
            self.silent()
        } else {
            let start = self.silent();
            let closed = start.said(start.speaking().begun().text_closed().thinking_closed());
            closed.tools_ended(closed.state.tools.len() as int).stopped()
        }
    }

    /// What reading the data of a frame gave has come: a document or the reason
    /// why it is none.
    pub open spec fn read(self, parsed: Result<JsonModel, Seq<char>>) -> ChatStep {
        match parsed {
            Ok(value) => self.told(value),
            Err(error) => ChatStep {
                state: self,
                out: seq![EventModel::Failure { message: "无法解析上游 Chat SSE: "@ + error }],
            },
        }
    }

    /// The data of one more frame has come.
    pub open spec fn processed(self, data: Seq<char>) -> ChatStep {
        if self.answer.finished || text::trim_both(data).len() == 0 {
            self.silent()
        } else if text::trim_both(data) == "[DONE]"@ {
            self.ended()
        } else {
            self.read(codec::json_parse(data))
        }
    }
}

/// How far an answer of the Chat protocol has come.
pub struct ChatState {
    answer: Answer,
    tools: Vec<(u64, ChatTool)>,
    finish_reason: Option<String>,
    usage: Option<Json>,
}

/// What each call of a list is.
pub open spec fn call_models(tools: Seq<(u64, ChatTool)>) -> ChatCalls {
    Seq::new(tools.len(), |i: int| (tools[i].0, tools[i].1@))
}

impl View for ChatState {
    type V = ChatModel;

    closed spec fn view(&self) -> ChatModel {
        ChatModel {
            answer: self.answer@,
            tools: call_models(self.tools@),
            finish_reason: text::text_opt(self.finish_reason),
            usage: json::json_opt(self.usage),
        }
    }
}

/// How far an answer has come and the events that were given on the way.
pub open spec fn chat_at(state: ChatState, out: Seq<StreamEvent>) -> ChatStep {
    ChatStep { state: state@, out: event::event_models(out) }
}

/// The place of a key goes by the calls before it alone.
pub proof fn lemma_place(tools: ChatCalls, key: u64, n: int)
    requires
        0 <= n <= tools.len(),
        forall|i: int| 0 <= i < n ==> (#[trigger] tools[i]).0 < key,
        n < tools.len() ==> tools[n].0 >= key,
    ensures
        place(tools, key) == n,
    decreases tools.len(),
{
    if n > 0 {
        let rest = tools.drop_first();
        assert(tools[0].0 < key);
        assert forall|i: int| 0 <= i < n - 1 implies (#[trigger] rest[i]).0 < key by {
            assert(rest[i] == tools[i + 1]);
        }
        lemma_place(rest, key, n - 1);
    }
}

/// The keys before the place of a key are smaller.
pub proof fn lemma_before(tools: ChatCalls, key: u64)
    ensures
        0 <= place(tools, key) <= tools.len(),
        forall|i: int| 0 <= i < place(tools, key) ==> (#[trigger] tools[i]).0 < key,
        place(tools, key) < tools.len() ==> tools[place(tools, key)].0 >= key,
    decreases tools.len(),
{
    if tools.len() > 0 && tools[0].0 < key {
        let rest = tools.drop_first();
        lemma_before(rest, key);
        assert forall|i: int| 0 <= i < place(tools, key) implies (#[trigger] tools[i]).0 < key by {
            if i > 0 {
                assert(rest[i - 1] == tools[i]);
            }
        }
    }
}

impl ChatState {
    /// An answer that has not begun.
    pub fn new() -> (r: ChatState)
        ensures
            r@ == new_chat(),
    {
        let r = ChatState {
            answer: Answer::new(),
            tools: Vec::new(),
            finish_reason: None,
            usage: None,
        };
        assert(r@.tools =~= Seq::<(u64, ChatToolModel)>::empty());
        r
    }

    /// How many calls have a smaller key, up to the first that has not.
    fn place(&self, key: u64) -> (r: usize)
        ensures
            r == place(self@.tools, key),
            r <= self.tools@.len(),
    {
        let mut n: usize = 0;
        while n < self.tools.len() && self.tools[n].0 < key
            invariant
                n <= self.tools@.len(),
                forall|i: int| 0 <= i < n ==> (#[trigger] self.tools@[i]).0 < key,
            decreases self.tools.len() - n,
        {
            n = n + 1;
        }
        proof {
            assert forall|i: int| 0 <= i < n implies (#[trigger] self@.tools[i]).0 < key by {
                assert(self.tools@[i].0 < key);
            }
            lemma_place(self@.tools, key, n as int);
        }
        n
    }

    /// Takes one more piece of a call.
    fn take_call(&mut self, call: &Json, out: &mut Vec<StreamEvent>)
        ensures
            chat_at(*final(self), final(out)@) == chat_at(*old(self), old(out)@).called(call@),
    {
        let ghost start = chat_at(*self, out@);
        let key: u64 = call.u64_field("index").unwrap_or(0);
        let at: usize = self.place(key);
        if at == self.tools.len() || self.tools[at].0 != key {
            let index: u64 = self.answer.allocate_index();
            let ghost before = self.tools@;
            let tool = ChatTool::new(index);
            self.tools.insert(at, (key, tool));
            assert(call_models(self.tools@) =~= call_models(before).insert(
                at as int,
                (key, tool@),
            ));
        }
        let ghost known = start.with_key(key);
        assert(chat_at(*self, out@) == known);
        proof {
            lemma_before(start.state.tools, key);
            assert forall|i: int| 0 <= i < at implies (#[trigger] known.state.tools[i]).0
                < key by {
                assert(known.state.tools[i] == start.state.tools[i]);
            }
            lemma_place(known.state.tools, key, at as int);
        }
        let ghost held = self.tools@;
        self.tools[at].1.take_call(call, out);
        assert(call_models(self.tools@) =~= call_models(held).update(
            at as int,
            (key, self.tools@[at as int].1@),
        ));
    }

    /// Takes pieces of calls, one after the other.
    fn take_calls(&mut self, calls: &Vec<Json>, out: &mut Vec<StreamEvent>)
        ensures
            chat_at(*final(self), final(out)@) == chat_at(*old(self), old(out)@).all_called(
                json::models(calls@),
            ),
    {
        let ghost start = chat_at(*self, out@);
        let ghost all = json::models(calls@);
        let mut i: usize = 0;
        assert(all.take(0) =~= Seq::<JsonModel>::empty());
        while i < calls.len()
            invariant
                i <= calls.len(),
                all == json::models(calls@),
                chat_at(*self, out@) == start.all_called(all.take(i as int)),
            decreases calls.len() - i,
        {
            assert(all.take(i + 1).drop_last() =~= all.take(i as int));
            assert(all.take(i + 1).last() == calls@[i as int]@);
            self.take_call(&calls[i], out);
            i = i + 1;
        }
        assert(all.take(all.len() as int) =~= all);
    }

    /// Takes one more piece of the alternative that counts.
    fn take_choice(&mut self, choice: &Json, out: &mut Vec<StreamEvent>)
        ensures
            chat_at(*final(self), final(out)@) == chat_at(*old(self), old(out)@).chosen(choice@),
    {
        let null = Json::Null;
        let delta = choice.get("delta").unwrap_or(&null);
        let reasoning = match delta.get("reasoning_content") {
            Some(value) => value.as_str(),
            None => delta.text_field("reasoning"),
        };
        if let Some(thinking) = reasoning {
            if !thinking.is_empty() {
                self.answer.say_thinking(thinking, out);
            }
        }
        if let Some(content) = delta.text_field("content") {
            if !content.is_empty() {
                self.answer.say_text(content, out);
            }
        }
        if let Some(calls) = delta.array_field("tool_calls") {
            self.answer.close_text(out);
            self.answer.close_thinking(out);
            self.take_calls(calls, out);
        }
        if let Some(reason) = choice.text_field("finish_reason") {
            self.finish_reason = Some(reason.to_owned());
        }
    }

    /// Takes one more document of the answer and gives the events that it makes.
    pub fn process_value(&mut self, value: &Json) -> (r: Vec<StreamEvent>)
        ensures
            chat_at(*final(self), r@) == old(self)@.told(value@),
    {
        let mut out: Vec<StreamEvent> = Vec::new();
        assert(event::event_models(out@) =~= Seq::<EventModel>::empty());
        if let Some(message) = value.nested_text("error", "message") {
            self.answer.finished = true;
            event::emit(&mut out, event::error_event(message.to_owned()));
            assert(event::event_models(out@) =~= seq![EventModel::Failure { message: message@ }]);
            return out;
        }
        self.answer.take_names(value.text_field("id"), value.text_field("model"));
        self.answer.ensure_started(&mut out);
        if let Some(used) = value.get("usage") {
            if !used.is_null() {
                self.usage = Some(usage::chat_usage(Some(used)));
            }
        }
        assert(chat_at(*self, out@) == old(self)@.informed(value@));
        if let Some(choices) = value.array_field("choices") {
            if choices.len() > 0 {
                assert(json::models(choices@)[0] == choices@[0]@);
                self.take_choice(&choices[0], &mut out);
            }
        }
        out
    }

    /// Takes what reading the data of a frame gave: a document or the reason why
    /// it is none.
    pub fn process_parsed(&mut self, parsed: Result<Json, String>) -> (r: Vec<StreamEvent>)
        ensures
            chat_at(*final(self), r@) == old(self)@.read(codec::parsed(parsed)),
    {
        match parsed {
            Ok(value) => self.process_value(&value),
            Err(error) => {
                let mut out: Vec<StreamEvent> = Vec::new();
                assert(event::event_models(out@) =~= Seq::<EventModel>::empty());
                let mut message = "无法解析上游 Chat SSE: ".to_owned();
                message.append(error.as_str());
                event::emit(&mut out, event::error_event(message));
                assert(event::event_models(out@) =~= seq![
                    EventModel::Failure { message: message@ },
                ]);
                out
            },
        }
    }

    /// Takes the data of one more frame and gives the events that it makes.
    pub fn process(&mut self, data: &str) -> (r: Vec<StreamEvent>)
        ensures
            chat_at(*final(self), r@) == old(self)@.processed(data@),
    {
        if self.answer.finished || text::trim(data).is_empty() {
            let out: Vec<StreamEvent> = Vec::new();
            assert(event::event_models(out@) =~= Seq::<EventModel>::empty());
            return out;
        }
        if text::same_text(text::trim(data), "[DONE]") {
            return self.finish();
        }
        self.process_parsed(codec::parse_json(data))
    }

    /// Brings the calls to their end.
    fn end_tools(&mut self, out: &mut Vec<StreamEvent>)
        ensures
            chat_at(*final(self), final(out)@) == chat_at(*old(self), old(out)@).tools_ended(
                old(self)@.tools.len() as int,
            ),
            final(self)@.tools.len() == old(self)@.tools.len(),
    {
        let ghost start = chat_at(*self, out@);
        let mut i: usize = 0;
        while i < self.tools.len()
            invariant
                i <= self.tools.len(),
                self.tools.len() == start.state.tools.len(),
                chat_at(*self, out@) == start.tools_ended(i as int),
            decreases self.tools.len() - i,
        {
            let ghost held = self.tools@;
            self.tools[i].1.end(out);
            assert(call_models(self.tools@) =~= call_models(held).update(
                i as int,
                (held[i as int].0, self.tools@[i as int].1@),
            ));
            i = i + 1;
        }
    }

    /// Ends the answer and gives the events that it takes.
    pub fn finish(&mut self) -> (r: Vec<StreamEvent>)
        ensures
            chat_at(*final(self), r@) == old(self)@.ended(),
    {
        let mut out: Vec<StreamEvent> = Vec::new();
        assert(event::event_models(out@) =~= Seq::<EventModel>::empty());
        if self.answer.finished {
            return out;
        }
        self.answer.ensure_started(&mut out);
        self.answer.close_text(&mut out);
        self.answer.close_thinking(&mut out);
        self.end_tools(&mut out);
        let finish = match &self.finish_reason {
            Some(reason) => Some(reason.as_str()),
            None => None,
        };
        let stop_reason = options::map_chat_stop(finish, self.tools.len() > 0).to_owned();
        let usage = match &self.usage {
            Some(used) => used.clone(),
            None => event::make_no_usage(),
        };
        event::emit(&mut out, StreamEvent::MessageDelta { stop_reason, usage });
        event::emit(&mut out, StreamEvent::MessageStop);
        self.answer.finished = true;
        out
    }
}

}
