//! An answer of the Responses protocol, event by event, as events of Anthropic.
use vstd::prelude::*;

use crate::answer::{self, Answer, AnswerModel, AnswerStep};
use crate::event::{self, EventModel, StreamEvent};
use crate::json::codec;
use crate::json::{self, Fields, Json, JsonModel};
use crate::text;
use crate::transform::usage;

pub mod laws;

verus! {

/// A call of a tool in the making.
pub struct ResponsesTool {
    anthropic_index: u64,
    id: String,
    name: String,
    started: bool,
    closed: bool,
    emitted_arguments: bool,
}

/// A call of a tool in the making.
pub struct ResponsesToolModel {
    /// The index of its block.
    pub index: u64,
    pub id: Seq<char>,
    pub name: Seq<char>,
    /// Its block has begun.
    pub started: bool,
    /// Its block has ended.
    pub closed: bool,
    /// Its input was passed on piece by piece.
    pub emitted: bool,
}

impl View for ResponsesTool {
    type V = ResponsesToolModel;

    closed spec fn view(&self) -> ResponsesToolModel {
        ResponsesToolModel {
            index: self.anthropic_index,
            id: self.id@,
            name: self.name@,
            started: self.started,
            closed: self.closed,
            emitted: self.emitted_arguments,
        }
    }
}

/// A call of a tool and the events that were given on the way.
pub struct ResponsesToolStep {
    pub tool: ResponsesToolModel,
    pub out: Seq<EventModel>,
}

/// A call of a tool of which nothing is known but its index.
pub open spec fn new_tool(index: u64) -> ResponsesToolModel {
    ResponsesToolModel {
        index,
        id: Seq::empty(),
        name: Seq::empty(),
        started: false,
        closed: false,
        emitted: false,
    }
}

/// A text that may be given, or nothing.
pub open spec fn or_empty(text: Option<Seq<char>>) -> Seq<char> {
    match text {
        Some(found) => found,
        None => Seq::empty(),
    }
}

/// The id that an item gives a call.
pub open spec fn item_id(item: JsonModel) -> Option<Seq<char>> {
    match item.text_field("call_id"@) {
        Some(id) => Some(id),
        None => item.text_field("id"@),
    }
}

impl ResponsesToolModel {
    /// The call with the names it lacks taken from an item.
    pub open spec fn named(self, item: JsonModel) -> ResponsesToolModel {
        ResponsesToolModel {
            id: if self.id.len() == 0 {
                or_empty(item_id(item))
            } else {
                self.id
            },
            name: if self.name.len() == 0 {
                or_empty(item.text_field("name"@))
            } else {
                self.name
            },
            ..self
        }
    }
}

impl ResponsesToolStep {
    /// One more event.
    pub open spec fn emit(self, event: EventModel) -> ResponsesToolStep {
        ResponsesToolStep { out: self.out.push(event), ..self }
    }

    /// The call is known by an item, and its block has begun.
    pub open spec fn known(self, item: JsonModel) -> ResponsesToolStep {
        let named = self.tool.named(item);
        if named.started {
            ResponsesToolStep { tool: named, ..self }
        } else {
            ResponsesToolStep {
                tool: ResponsesToolModel { started: true, ..named },
                ..self
            }.emit(EventModel::ToolStart { index: named.index, id: named.id, name: named.name })
        }
    }

    /// A piece of the input has come.
    pub open spec fn given(self, piece: Seq<char>) -> ResponsesToolStep {
        ResponsesToolStep { tool: ResponsesToolModel { emitted: true, ..self.tool }, ..self }.emit(
            EventModel::InputDelta { index: self.tool.index, json: piece },
        )
    }

    /// The block has ended.
    pub open spec fn closed(self) -> ResponsesToolStep {
        if self.tool.closed {
            self
        } else {
            ResponsesToolStep { tool: ResponsesToolModel { closed: true, ..self.tool }, ..self }.emit(
                EventModel::BlockStop { index: self.tool.index },
            )
        }
    }

    /// The call is at its end. Its input is passed on as a whole where no piece
    /// of it was.
    pub open spec fn done(self, item: JsonModel) -> ResponsesToolStep {
        let arguments = or_empty(item.text_field("arguments"@));
        let passed = if !self.tool.emitted && arguments.len() > 0 {
            self.emit(EventModel::InputDelta { index: self.tool.index, json: arguments })
        } else {
            self
        };
        passed.closed()
    }
}

/// A call and the events that were given on the way.
pub open spec fn tool_at(tool: ResponsesTool, out: Seq<StreamEvent>) -> ResponsesToolStep {
    ResponsesToolStep { tool: tool@, out: event::event_models(out) }
}

impl ResponsesTool {
    /// A call of which nothing is known but its index.
    fn new(index: u64) -> (r: ResponsesTool)
        ensures
            r@ == new_tool(index),
    {
        ResponsesTool {
            anthropic_index: index,
            id: String::new(),
            name: String::new(),
            started: false,
            closed: false,
            emitted_arguments: false,
        }
    }

    /// Learns the call from an item and lets its block begin.
    fn know(&mut self, item: &Json, out: &mut Vec<StreamEvent>)
        ensures
            tool_at(*final(self), final(out)@) == tool_at(*old(self), old(out)@).known(item@),
    {
        if self.id.as_str().is_empty() {
            let id = match item.text_field("call_id") {
                Some(id) => Some(id),
                None => item.text_field("id"),
            };
            self.id = match id {
                Some(id) => id.to_owned(),
                None => String::new(),
            };
        }
        if self.name.as_str().is_empty() {
            self.name = match item.text_field("name") {
                Some(name) => name.to_owned(),
                None => String::new(),
            };
        }
        if !self.started {
            self.started = true;
            event::emit(
                out,
                StreamEvent::ToolStart {
                    index: self.anthropic_index,
                    id: self.id.clone(),
                    name: self.name.clone(),
                },
            );
        }
    }

    /// Passes on a piece of the input.
    fn give(&mut self, piece: &str, out: &mut Vec<StreamEvent>)
        ensures
            tool_at(*final(self), final(out)@) == tool_at(*old(self), old(out)@).given(piece@),
    {
        self.emitted_arguments = true;
        event::emit(
            out,
            StreamEvent::InputDelta { index: self.anthropic_index, json: piece.to_owned() },
        );
    }

    /// Ends the block.
    fn close(&mut self, out: &mut Vec<StreamEvent>)
        ensures
            tool_at(*final(self), final(out)@) == tool_at(*old(self), old(out)@).closed(),
    {
        if !self.closed {
            self.closed = true;
            event::emit(out, StreamEvent::BlockStop { index: self.anthropic_index });
        }
    }

    /// Brings the call to its end.
    fn complete(&mut self, item: &Json, out: &mut Vec<StreamEvent>)
        ensures
            tool_at(*final(self), final(out)@) == tool_at(*old(self), old(out)@).done(item@),
    {
        if !self.emitted_arguments {
            if let Some(arguments) = item.text_field("arguments") {
                if !arguments.is_empty() {
                    event::emit(
                        out,
                        StreamEvent::InputDelta {
                            index: self.anthropic_index,
                            json: arguments.to_owned(),
                        },
                    );
                }
            }
        }
        self.close(out);
    }
}

/// The calls of an answer under their keys, by ascending key.
pub type ResponsesCalls = Seq<(Seq<char>, ResponsesToolModel)>;

/// How far an answer of the Responses protocol has come.
pub struct ResponsesModel {
    pub answer: AnswerModel,
    /// The calls of tools under their keys.
    pub tools: ResponsesCalls,
    /// What the answer used, in the form of Anthropic.
    pub usage: Option<JsonModel>,
    /// Why the answer is incomplete.
    pub incomplete_reason: Option<Seq<char>>,
}

/// How far an answer has come and the events that were given on the way.
pub struct ResponsesStep {
    pub state: ResponsesModel,
    pub out: Seq<EventModel>,
}

/// How many calls have a smaller key.
pub open spec fn place(tools: ResponsesCalls, key: Seq<char>) -> int
    decreases tools.len(),
{
    if tools.len() == 0 || !text::precedes(tools[0].0, key) {
        0
    } else {
        1 + place(tools.drop_first(), key)
    }
}

/// Whether there is a call under that key.
pub open spec fn has_key(tools: ResponsesCalls, key: Seq<char>) -> bool {
    place(tools, key) < tools.len() && tools[place(tools, key)].0 == key
}

/// The keys of the calls ascend.
pub open spec fn ascending(tools: ResponsesCalls) -> bool {
    forall|i: int, j: int|
        0 <= i < j < tools.len() ==> text::precedes(
            (#[trigger] tools[i]).0,
            (#[trigger] tools[j]).0,
        )
}

/// The key of the call that an event and its item speak of.
pub open spec fn key_of(event: JsonModel, item: JsonModel) -> Seq<char> {
    let named = match event.field("item_id"@) {
        Some(id) => Some(id),
        None => match item.field("id"@) {
            Some(id) => Some(id),
            None => item.field("call_id"@),
        },
    };
    match named {
        Some(JsonModel::Text(key)) => key,
        _ => {
            let n = match event.u64_field("output_index"@) {
                Some(n) => n,
                None => 0,
            };
            "output_"@ + text::decimal(n as nat)
        },
    }
}

/// The key of the call that an event and its item speak of.
pub fn item_key(event: &Json, item: &Json) -> (r: String)
    ensures
        r@ == key_of(event@, item@),
{
    let named = match event.get("item_id") {
        Some(id) => Some(id),
        None => match item.get("id") {
            Some(id) => Some(id),
            None => item.get("call_id"),
        },
    };
    if let Some(Json::Text(key)) = named {
        return key.clone();
    }
    let mut out = "output_".to_owned();
    out.append(text::decimal_text(event.u64_field("output_index").unwrap_or(0)).as_str());
    out
}

/// The item that an event with a piece of input stands for.
pub open spec fn placeholder(event: JsonModel) -> JsonModel {
    JsonModel::Object(
        Map::empty().insert("id"@, usage::or_null(event.field("item_id"@))).insert(
            "call_id"@,
            usage::or_null(event.field("call_id"@)),
        ).insert("name"@, usage::or_null(event.field("name"@))),
    )
}

/// A document, or `null` where there is none.
fn clone_or_null(value: Option<&Json>) -> (r: Json)
    ensures
        r@ == usage::or_null(json::json_ref(value)),
{
    match value {
        Some(found) => found.clone(),
        None => Json::Null,
    }
}

fn make_placeholder(event: &Json) -> (r: Json)
    ensures
        r@ == placeholder(event@),
{
    Json::Object(
        Fields::new().with("id", clone_or_null(event.get("item_id"))).with(
            "call_id",
            clone_or_null(event.get("call_id")),
        ).with("name", clone_or_null(event.get("name"))),
    )
}

/// An answer that has not begun.
pub open spec fn new_responses() -> ResponsesModel {
    ResponsesModel {
        answer: answer::new_answer(),
        tools: Seq::empty(),
        usage: None,
        incomplete_reason: None,
    }
}

/// The item of an event, where it is a call of a tool.
pub open spec fn called_item(value: JsonModel) -> Option<JsonModel> {
    match value.field("item"@) {
        Some(item) => if item.text_field("type"@) == Some("function_call"@) {
            Some(item)
        } else {
            None
        },
        None => None,
    }
}

/// What an event is about: what it says itself, or else the name it came under.
pub open spec fn kind_of(value: JsonModel, event_name: Option<Seq<char>>) -> Seq<char> {
    match value.text_field("type"@) {
        Some(kind) => kind,
        None => or_empty(event_name),
    }
}

/// Whether an event says that the answer fails.
pub open spec fn is_failure(kind: Seq<char>) -> bool {
    kind == "response.failed"@ || kind == "response.cancelled"@ || kind == "error"@
}

/// Why an answer fails.
pub open spec fn failure_text(value: JsonModel) -> Seq<char> {
    let told = match value.field("response"@) {
        Some(response) => response.nested_text("error"@, "message"@),
        None => None,
    };
    match told {
        Some(message) => message,
        None => "OpenAI Responses 流失败"@,
    }
}

impl ResponsesStep {
    /// The answer alone.
    pub open spec fn speaking(self) -> AnswerStep {
        AnswerStep { answer: self.state.answer, out: self.out }
    }

    /// The same with what was said since.
    pub open spec fn said(self, step: AnswerStep) -> ResponsesStep {
        ResponsesStep { state: ResponsesModel { answer: step.answer, ..self.state }, out: step.out }
    }

    /// The call at a place.
    pub open spec fn tool(self, at: int) -> ResponsesToolStep {
        ResponsesToolStep { tool: self.state.tools[at].1, out: self.out }
    }

    /// The same with what became of the call at a place.
    pub open spec fn with_tool(self, at: int, step: ResponsesToolStep) -> ResponsesStep {
        ResponsesStep {
            state: ResponsesModel {
                tools: self.state.tools.update(at, (self.state.tools[at].0, step.tool)),
                ..self.state
            },
            out: step.out,
        }
    }

    /// There is a call under that key: a new one takes the next index.
    pub open spec fn with_key(self, key: Seq<char>) -> ResponsesStep {
        if has_key(self.state.tools, key) {
            self
        } else {
            let next = self.said(self.speaking().allocated());
            ResponsesStep {
                state: ResponsesModel {
                    tools: self.state.tools.insert(
                        place(self.state.tools, key),
                        (key, new_tool(self.state.answer.next_index)),
                    ),
                    ..next.state
                },
                ..next
            }
        }
    }

    /// The call under that key is known by an item and its block has begun; no
    /// block of text or thinking is open.
    pub open spec fn tool_known(self, key: Seq<char>, item: JsonModel) -> ResponsesStep {
        let alone = self.said(self.speaking().text_closed().thinking_closed()).with_key(key);
        let at = place(alone.state.tools, key);
        alone.with_tool(at, alone.tool(at).known(item))
    }

    /// A piece of the input of a call has come.
    pub open spec fn input_given(self, value: JsonModel) -> ResponsesStep {
        let key = key_of(value, JsonModel::Null);
        let known = self.tool_known(key, placeholder(value));
        match value.text_field("delta"@) {
            Some(piece) => {
                let at = place(known.state.tools, key);
                known.with_tool(at, known.tool(at).given(piece))
            },
            None => known,
        }
    }

    /// A call is at its end.
    pub open spec fn item_done(self, value: JsonModel, item: JsonModel) -> ResponsesStep {
        let key = key_of(value, item);
        let known = self.tool_known(key, item);
        let at = place(known.state.tools, key);
        known.with_tool(at, known.tool(at).done(item))
    }

    /// A piece of text may have come.
    pub open spec fn text_given(self, value: JsonModel) -> ResponsesStep {
        match value.text_field("delta"@) {
            Some(piece) => self.said(self.speaking().text_said(piece)),
            None => self.said(self.speaking().text_open()),
        }
    }

    /// A piece of thinking may have come.
    pub open spec fn thinking_given(self, value: JsonModel) -> ResponsesStep {
        match value.text_field("delta"@) {
            Some(piece) => self.said(self.speaking().thinking_said(piece)),
            None => self.said(self.speaking().thinking_open()),
        }
    }

    /// An event of that kind has come.
    pub open spec fn told(self, kind: Seq<char>, value: JsonModel) -> ResponsesStep {
        if kind == "response.output_item.added"@ {
            match called_item(value) {
                Some(item) => self.tool_known(key_of(value, item), item),
                None => self,
            }
        } else if kind == "response.content_part.added"@ {
            if value.nested_text("part"@, "type"@) == Some("output_text"@) {
                self.said(self.speaking().text_open())
            } else {
                self
            }
        } else if kind == "response.output_text.delta"@ {
            self.text_given(value)
        } else if kind == "response.output_text.done"@ || kind == "response.content_part.done"@ {
            self.said(self.speaking().text_closed())
        } else if kind == "response.reasoning_summary_text.delta"@ || kind
            == "response.reasoning_text.delta"@ {
            self.thinking_given(value)
        } else if kind == "response.reasoning_summary_text.done"@ || kind
            == "response.reasoning_text.done"@ {
            self.said(self.speaking().thinking_closed())
        } else if kind == "response.function_call_arguments.delta"@ {
            self.input_given(value)
        } else if kind == "response.output_item.done"@ {
            match called_item(value) {
                Some(item) => self.item_done(value, item),
                None => self,
            }
        } else if kind == "response.completed"@ || kind == "response.incomplete"@ {
            self.ended()
        } else {
            self
        }
    }

    /// The first `n` calls are at their end.
    pub open spec fn tools_ended(self, n: int) -> ResponsesStep
        decreases n,
    {
        if n <= 0 {
            self
        } else {
            let before = self.tools_ended(n - 1);
            before.with_tool(n - 1, before.tool(n - 1).closed())
        }
    }

    /// The answer says why it stops and ends.
    pub open spec fn stopped(self) -> ResponsesStep {
        ResponsesStep {
            state: ResponsesModel {
                answer: AnswerModel { finished: true, ..self.state.answer },
                ..self.state
            },
            out: self.out.push(
                EventModel::MessageDelta {
                    stop_reason: self.state.stop_reason(),
                    usage: match self.state.usage {
                        Some(value) => value,
                        None => event::no_usage(),
                    },
                },
            ).push(EventModel::MessageStop),
        }
    }

    /// The answer has ended.
    pub open spec fn ended(self) -> ResponsesStep {
        if self.state.answer.finished {
            self
        } else {
            let closed = self.said(self.speaking().begun().text_closed().thinking_closed());
            closed.tools_ended(closed.state.tools.len() as int).stopped()
        }
    }
}

impl ResponsesModel {
    /// Nothing was given yet.
    pub open spec fn silent(self) -> ResponsesStep {
        ResponsesStep { state: self, out: Seq::empty() }
    }

    /// Why the answer stops, in the words of Anthropic.
    pub open spec fn stop_reason(self) -> Seq<char> {
        if self.tools.len() > 0 {
            "tool_use"@
        } else if self.incomplete_reason is Some {
            "max_tokens"@
        } else {
            "end_turn"@
        }
    }

    /// The answer fails.
    pub open spec fn failed(self, message: Seq<char>) -> ResponsesStep {
        ResponsesStep {
            state: ResponsesModel {
                answer: AnswerModel { finished: true, ..self.answer },
                ..self
            },
            out: seq![EventModel::Failure { message }],
        }
    }

    /// The answer knows what a description of it tells.
    pub open spec fn captured(self, response: JsonModel) -> ResponsesModel {
        ResponsesModel {
            answer: self.answer.named(response.text_field("id"@), response.text_field("model"@)),
            usage: match response.field("usage"@) {
                Some(used) => if used != JsonModel::Null {
                    Some(usage::from_responses(Some(used)))
                } else {
                    self.usage
                },
                None => self.usage,
            },
            incomplete_reason: match response.nested_text("incomplete_details"@, "reason"@) {
                Some(reason) => Some(reason),
                None => self.incomplete_reason,
            },
            ..self
        }
    }

    /// The answer knows what an event tells of it.
    pub open spec fn informed(self, value: JsonModel) -> ResponsesModel {
        match value.field("response"@) {
            Some(response) => self.captured(response),
            None => self,
        }
    }

    /// One more document of the answer has come, under the name of an event.
    pub open spec fn told(self, event_name: Option<Seq<char>>, value: JsonModel) -> ResponsesStep {
        let kind = kind_of(value, event_name);
        let informed = self.informed(value);
        match value.nested_text("error"@, "message"@) {
            Some(message) => informed.failed(message),
            None => if is_failure(kind) {
                informed.failed(failure_text(value))
            } else {
                let start = informed.silent();
                start.said(start.speaking().begun()).told(kind, value)
            },
        }
    }

    /// No more comes.
    pub open spec fn ended(self) -> ResponsesStep {
        self.silent().ended()
    }

    /// What reading the data of a frame gave has come: a document or the reason
    /// why it is none.
    pub open spec fn read(
        self,
        event_name: Option<Seq<char>>,
        parsed: Result<JsonModel, Seq<char>>,
    ) -> ResponsesStep {
        match parsed {
            Ok(value) => self.told(event_name, value),
            Err(error) => ResponsesStep {
                state: self,
                out: seq![
                    EventModel::Failure { message: "无法解析上游 Responses SSE: "@ + error },
                ],
            },
        }
    }

    /// One more frame has come: the name of its event and its data.
    pub open spec fn processed(
        self,
        event_name: Option<Seq<char>>,
        data: Seq<char>,
    ) -> ResponsesStep {
        if text::trim_both(data) == "[DONE]"@ {
            self.ended()
        } else if self.answer.finished || text::trim_both(data).len() == 0 {
            self.silent()
        } else {
            self.read(event_name, codec::json_parse(data))
        }
    }
}

/// How far an answer of the Responses protocol has come.
pub struct ResponsesState {
    answer: Answer,
    tools: Vec<(String, ResponsesTool)>,
    usage: Option<Json>,
    incomplete_reason: Option<String>,
}

/// What each call of a list is.
pub open spec fn call_models(tools: Seq<(String, ResponsesTool)>) -> ResponsesCalls {
    Seq::new(tools.len(), |i: int| (tools[i].0@, tools[i].1@))
}

impl View for ResponsesState {
    type V = ResponsesModel;

    closed spec fn view(&self) -> ResponsesModel {
        ResponsesModel {
            answer: self.answer@,
            tools: call_models(self.tools@),
            usage: json::json_opt(self.usage),
            incomplete_reason: text::text_opt(self.incomplete_reason),
        }
    }
}

/// How far an answer has come and the events that were given on the way.
pub open spec fn responses_at(state: ResponsesState, out: Seq<StreamEvent>) -> ResponsesStep {
    ResponsesStep { state: state@, out: event::event_models(out) }
}

/// The place of a key goes by the calls before it alone.
pub proof fn lemma_place(tools: ResponsesCalls, key: Seq<char>, n: int)
    requires
        0 <= n <= tools.len(),
        forall|i: int| 0 <= i < n ==> text::precedes((#[trigger] tools[i]).0, key),
        n < tools.len() ==> !text::precedes(tools[n].0, key),
    ensures
        place(tools, key) == n,
    decreases tools.len(),
{
    if n > 0 {
        let rest = tools.drop_first();
        assert(text::precedes(tools[0].0, key));
        assert forall|i: int| 0 <= i < n - 1 implies text::precedes(
            (#[trigger] rest[i]).0,
            key,
        ) by {
            assert(rest[i] == tools[i + 1]);
        }
        lemma_place(rest, key, n - 1);
    }
}

/// The keys before the place of a key come before it.
pub proof fn lemma_before(tools: ResponsesCalls, key: Seq<char>)
    ensures
        0 <= place(tools, key) <= tools.len(),
        forall|i: int|
            0 <= i < place(tools, key) ==> text::precedes((#[trigger] tools[i]).0, key),
        place(tools, key) < tools.len() ==> !text::precedes(tools[place(tools, key)].0, key),
    decreases tools.len(),
{
    if tools.len() > 0 && text::precedes(tools[0].0, key) {
        let rest = tools.drop_first();
        lemma_before(rest, key);
        assert forall|i: int| 0 <= i < place(tools, key) implies text::precedes(
            (#[trigger] tools[i]).0,
            key,
        ) by {
            if i > 0 {
                assert(rest[i - 1] == tools[i]);
            }
        }
    }
}

/// There is a call under a key once there was one to be.
pub proof fn lemma_has_key(step: ResponsesStep, key: Seq<char>)
    ensures
        has_key(step.with_key(key).state.tools, key),
        place(step.with_key(key).state.tools, key) == place(step.state.tools, key),
{
    let tools = step.state.tools;
    let at = place(tools, key);
    lemma_before(tools, key);
    if !has_key(tools, key) {
        let more = step.with_key(key).state.tools;
        assert forall|i: int| 0 <= i < at implies text::precedes((#[trigger] more[i]).0, key) by {
            assert(more[i] == tools[i]);
        }
        text::lemma_precedes_total(key, key);
        lemma_place(more, key, at);
    }
}

/// A call that changes keeps its place.
pub proof fn lemma_same_place(tools: ResponsesCalls, key: Seq<char>, tool: ResponsesToolModel)
    requires
        has_key(tools, key),
    ensures
        has_key(tools.update(place(tools, key), (key, tool)), key),
        place(tools.update(place(tools, key), (key, tool)), key) == place(tools, key),
{
    let at = place(tools, key);
    lemma_before(tools, key);
    let new = tools.update(at, (key, tool));
    assert forall|i: int| 0 <= i < at implies text::precedes((#[trigger] new[i]).0, key) by {
        assert(new[i] == tools[i]);
    }
    lemma_place(new, key, at);
}

impl ResponsesState {
    /// An answer that has not begun.
    pub fn new() -> (r: ResponsesState)
        ensures
            r@ == new_responses(),
    {
        let r = ResponsesState {
            answer: Answer::new(),
            tools: Vec::new(),
            usage: None,
            incomplete_reason: None,
        };
        assert(r@.tools =~= Seq::<(Seq<char>, ResponsesToolModel)>::empty());
        r
    }

    /// How many calls have a smaller key, up to the first that has not.
    fn place(&self, key: &str) -> (r: usize)
        ensures
            r == place(self@.tools, key@),
            r <= self.tools@.len(),
    {
        let mut n: usize = 0;
        while n < self.tools.len() && text::comes_before(self.tools[n].0.as_str(), key)
            invariant
                n <= self.tools@.len(),
                forall|i: int|
                    0 <= i < n ==> text::precedes((#[trigger] self.tools@[i]).0@, key@),
            decreases self.tools.len() - n,
        {
            n = n + 1;
        }
        proof {
            assert forall|i: int| 0 <= i < n implies text::precedes(
                (#[trigger] self@.tools[i]).0,
                key@,
            ) by {
                assert(text::precedes(self.tools@[i].0@, key@));
            }
            lemma_place(self@.tools, key@, n as int);
        }
        n
    }

    /// Takes what a description of the answer tells.
    pub fn capture_response(&mut self, response: &Json)
        ensures
            final(self)@ == old(self)@.captured(response@),
    {
        self.answer.take_names(response.text_field("id"), response.text_field("model"));
        if let Some(used) = response.get("usage") {
            if !used.is_null() {
                self.usage = Some(usage::responses_usage(Some(used)));
            }
        }
        if let Some(reason) = response.nested_text("incomplete_details", "reason") {
            self.incomplete_reason = Some(reason.to_owned());
        }
    }

    /// Lets there be a call under that key, known by an item, and gives its place.
    fn ensure_tool(&mut self, key: String, item: &Json, out: &mut Vec<StreamEvent>) -> (r: usize)
        ensures
            responses_at(*final(self), final(out)@) == responses_at(
                *old(self),
                old(out)@,
            ).tool_known(key@, item@),
            r < final(self).tools@.len(),
            r == place(final(self)@.tools, key@),
    {
        self.answer.close_text(out);
        self.answer.close_thinking(out);
        let ghost start = responses_at(*self, out@);
        let ghost name = key@;
        let at: usize = self.place(key.as_str());
        if at == self.tools.len() || !text::same_text(self.tools[at].0.as_str(), key.as_str()) {
            let index: u64 = self.answer.allocate_index();
            let ghost before = self.tools@;
            let tool = ResponsesTool::new(index);
            self.tools.insert(at, (key, tool));
            assert(call_models(self.tools@) =~= call_models(before).insert(
                at as int,
                (name, tool@),
            ));
        }
        let ghost known = start.with_key(name);
        assert(responses_at(*self, out@) == known);
        proof {
            lemma_has_key(start, name);
        }
        let ghost held = self.tools@;
        self.tools[at].1.know(item, out);
        assert(call_models(self.tools@) =~= call_models(held).update(
            at as int,
            (name, self.tools@[at as int].1@),
        ));
        proof {
            lemma_same_place(known.state.tools, name, self.tools@[at as int].1@);
        }
        at
    }

    /// Takes a piece of the input of a call.
    fn take_input(&mut self, value: &Json, out: &mut Vec<StreamEvent>)
        ensures
            responses_at(*final(self), final(out)@) == responses_at(
                *old(self),
                old(out)@,
            ).input_given(value@),
    {
        let null = Json::Null;
        let key = item_key(value, &null);
        let item = make_placeholder(value);
        let at: usize = self.ensure_tool(key, &item, out);
        if let Some(piece) = value.text_field("delta") {
            let ghost held = self.tools@;
            self.tools[at].1.give(piece, out);
            assert(call_models(self.tools@) =~= call_models(held).update(
                at as int,
                (held[at as int].0@, self.tools@[at as int].1@),
            ));
        }
    }

    /// Brings a call to its end.
    fn take_done(&mut self, value: &Json, item: &Json, out: &mut Vec<StreamEvent>)
        ensures
            responses_at(*final(self), final(out)@) == responses_at(
                *old(self),
                old(out)@,
            ).item_done(value@, item@),
    {
        let at: usize = self.ensure_tool(item_key(value, item), item, out);
        let ghost held = self.tools@;
        self.tools[at].1.complete(item, out);
        assert(call_models(self.tools@) =~= call_models(held).update(
            at as int,
            (held[at as int].0@, self.tools@[at as int].1@),
        ));
    }

    /// The item of an event, where it is a call of a tool.
    fn call_of(value: &Json) -> (r: Option<&Json>)
        ensures
            json::json_ref(r) == called_item(value@),
    {
        if let Some(item) = value.get("item") {
            if let Some(kind) = item.text_field("type") {
                if text::same_text(kind, "function_call") {
                    return Some(item);
                }
            }
        }
        None
    }

    /// Takes an event of that kind.
    fn take_event(&mut self, kind: &str, value: &Json, out: &mut Vec<StreamEvent>)
        ensures
            responses_at(*final(self), final(out)@) == responses_at(*old(self), old(out)@).told(
                kind@,
                value@,
            ),
    {
        if text::same_text(kind, "response.output_item.added") {
            if let Some(item) = Self::call_of(value) {
                let _ = self.ensure_tool(item_key(value, item), item, out);
            }
        } else if text::same_text(kind, "response.content_part.added") {
            if let Some(part) = value.nested_text("part", "type") {
                if text::same_text(part, "output_text") {
                    let _ = self.answer.ensure_text(out);
                }
            }
        } else if text::same_text(kind, "response.output_text.delta") {
            if let Some(piece) = value.text_field("delta") {
                self.answer.say_text(piece, out);
            } else {
                let _ = self.answer.ensure_text(out);
            }
        } else if text::same_text(kind, "response.output_text.done") || text::same_text(
            kind,
            "response.content_part.done",
        ) {
            self.answer.close_text(out);
        } else if text::same_text(kind, "response.reasoning_summary_text.delta")
            || text::same_text(kind, "response.reasoning_text.delta") {
            if let Some(piece) = value.text_field("delta") {
                self.answer.say_thinking(piece, out);
            } else {
                let _ = self.answer.ensure_thinking(out);
            }
        } else if text::same_text(kind, "response.reasoning_summary_text.done") || text::same_text(
            kind,
            "response.reasoning_text.done",
        ) {
            self.answer.close_thinking(out);
        } else if text::same_text(kind, "response.function_call_arguments.delta") {
            self.take_input(value, out);
        } else if text::same_text(kind, "response.output_item.done") {
            if let Some(item) = Self::call_of(value) {
                self.take_done(value, item, out);
            }
        } else if text::same_text(kind, "response.completed") || text::same_text(
            kind,
            "response.incomplete",
        ) {
            self.finish_into(out);
        }
    }

    /// Lets the answer fail.
    fn fail(&mut self, message: String) -> (r: Vec<StreamEvent>)
        ensures
            responses_at(*final(self), r@) == old(self)@.failed(message@),
    {
        self.answer.finished = true;
        let mut out: Vec<StreamEvent> = Vec::new();
        assert(event::event_models(out@) =~= Seq::<EventModel>::empty());
        let ghost told = message@;
        event::emit(&mut out, event::error_event(message));
        assert(event::event_models(out@) =~= seq![EventModel::Failure { message: told }]);
        out
    }

    /// Takes one more document of the answer, under the name of an event, and
    /// gives the events that it makes.
    pub fn process_value(&mut self, event_name: Option<&str>, value: &Json) -> (r: Vec<
        StreamEvent,
    >)
        ensures
            responses_at(*final(self), r@) == old(self)@.told(text::text_ref(event_name), value@),
    {
        let kind = match value.text_field("type") {
            Some(kind) => kind,
            None => match event_name {
                Some(name) => name,
                None => "",
            },
        };
        proof {
            reveal_strlit("");
            assert(""@ =~= Seq::<char>::empty());
        }
        if let Some(response) = value.get("response") {
            self.capture_response(response);
        }
        if let Some(message) = value.nested_text("error", "message") {
            return self.fail(message.to_owned());
        }
        if text::same_text(kind, "response.failed") || text::same_text(kind, "response.cancelled")
            || text::same_text(kind, "error") {
            let told = match value.get("response") {
                Some(response) => response.nested_text("error", "message"),
                None => None,
            };
            let message = match told {
                Some(message) => message,
                None => "OpenAI Responses 流失败",
            };
            return self.fail(message.to_owned());
        }
        let mut out: Vec<StreamEvent> = Vec::new();
        assert(event::event_models(out@) =~= Seq::<EventModel>::empty());
        self.answer.ensure_started(&mut out);
        self.take_event(kind, value, &mut out);
        out
    }

    /// Takes what reading the data of a frame gave: a document or the reason why
    /// it is none.
    pub fn process_parsed(
        &mut self,
        event_name: Option<&str>,
        parsed: Result<Json, String>,
    ) -> (r: Vec<StreamEvent>)
        ensures
            responses_at(*final(self), r@) == old(self)@.read(
                text::text_ref(event_name),
                codec::parsed(parsed),
            ),
    {
        match parsed {
            Ok(value) => self.process_value(event_name, &value),
            Err(error) => {
                let mut out: Vec<StreamEvent> = Vec::new();
                assert(event::event_models(out@) =~= Seq::<EventModel>::empty());
                let mut message = "无法解析上游 Responses SSE: ".to_owned();
                message.append(error.as_str());
                event::emit(&mut out, event::error_event(message));
                assert(event::event_models(out@) =~= seq![
                    EventModel::Failure { message: message@ },
                ]);
                out
            },
        }
    }

    /// Takes one more frame, the name of its event and its data, and gives the
    /// events that it makes.
    pub fn process(&mut self, event_name: Option<&str>, data: &str) -> (r: Vec<StreamEvent>)
        ensures
            responses_at(*final(self), r@) == old(self)@.processed(
                text::text_ref(event_name),
                data@,
            ),
    {
        let trimmed = text::trim(data);
        if text::same_text(trimmed, "[DONE]") {
            return self.finish();
        }
        if self.answer.finished || trimmed.is_empty() {
            let out: Vec<StreamEvent> = Vec::new();
            assert(event::event_models(out@) =~= Seq::<EventModel>::empty());
            return out;
        }
        self.process_parsed(event_name, codec::parse_json(data))
    }

    /// Ends the blocks of the calls.
    fn close_tools(&mut self, out: &mut Vec<StreamEvent>)
        ensures
            responses_at(*final(self), final(out)@) == responses_at(
                *old(self),
                old(out)@,
            ).tools_ended(old(self)@.tools.len() as int),
            final(self)@.tools.len() == old(self)@.tools.len(),
    {
        let ghost start = responses_at(*self, out@);
        let mut i: usize = 0;
        while i < self.tools.len()
            invariant
                i <= self.tools.len(),
                self.tools.len() == start.state.tools.len(),
                responses_at(*self, out@) == start.tools_ended(i as int),
            decreases self.tools.len() - i,
        {
            let ghost held = self.tools@;
            self.tools[i].1.close(out);
            assert(call_models(self.tools@) =~= call_models(held).update(
                i as int,
                (held[i as int].0@, self.tools@[i as int].1@),
            ));
            i = i + 1;
        }
    }

    /// Ends the answer.
    fn finish_into(&mut self, out: &mut Vec<StreamEvent>)
        ensures
            responses_at(*final(self), final(out)@) == responses_at(
                *old(self),
                old(out)@,
            ).ended(),
    {
        if self.answer.finished {
            return;
        }
        self.answer.ensure_started(out);
        self.answer.close_text(out);
        self.answer.close_thinking(out);
        self.close_tools(out);
        let stop = if self.tools.len() > 0 {
            "tool_use"
        } else if self.incomplete_reason.is_some() {
            "max_tokens"
        } else {
            "end_turn"
        };
        let usage = match &self.usage {
            Some(used) => used.clone(),
            None => event::make_no_usage(),
        };
        event::emit(out, StreamEvent::MessageDelta { stop_reason: stop.to_owned(), usage });
        event::emit(out, StreamEvent::MessageStop);
        self.answer.finished = true;
    }

    /// Ends the answer and gives the events that it takes.
    pub fn finish(&mut self) -> (r: Vec<StreamEvent>)
        ensures
            responses_at(*final(self), r@) == old(self)@.ended(),
    {
        let mut out: Vec<StreamEvent> = Vec::new();
        assert(event::event_models(out@) =~= Seq::<EventModel>::empty());
        self.finish_into(&mut out);
        out
    }
}

}
