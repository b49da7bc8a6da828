//! The events of an answer in the Anthropic protocol.
use vstd::prelude::*;

use crate::json::codec;
use crate::json::{Fields, Json, JsonModel};
use crate::sse;
use crate::text;

pub mod laws;

verus! {

/// One event of an answer.
#[derive(Debug)]
pub enum StreamEvent {
    /// The answer begins.
    MessageStart { id: String, model: String },
    /// A block of text begins.
    TextStart { index: u64 },
    /// A block of thinking begins.
    ThinkingStart { index: u64 },
    /// A call of a tool begins.
    ToolStart { index: u64, id: String, name: String },
    /// A piece of text.
    TextDelta { index: u64, text: String },
    /// A piece of thinking.
    ThinkingDelta { index: u64, thinking: String },
    /// A piece of the input of a tool, as JSON text.
    InputDelta { index: u64, json: String },
    /// A block ends.
    BlockStop { index: u64 },
    /// Why the answer stops, and what it used.
    MessageDelta { stop_reason: String, usage: Json },
    /// The answer ends.
    MessageStop,
    /// The answer cannot be given.
    Failure { message: String },
}

/// What an event says.
pub enum EventModel {
    MessageStart { id: Seq<char>, model: Seq<char> },
    TextStart { index: u64 },
    ThinkingStart { index: u64 },
    ToolStart { index: u64, id: Seq<char>, name: Seq<char> },
    TextDelta { index: u64, text: Seq<char> },
    ThinkingDelta { index: u64, thinking: Seq<char> },
    InputDelta { index: u64, json: Seq<char> },
    BlockStop { index: u64 },
    MessageDelta { stop_reason: Seq<char>, usage: JsonModel },
    MessageStop,
    Failure { message: Seq<char> },
}

impl View for StreamEvent {
    type V = EventModel;

    open spec fn view(&self) -> EventModel {
        match *self {
            StreamEvent::MessageStart { id, model } => EventModel::MessageStart {
                id: id@,
                model: model@,
            },
            StreamEvent::TextStart { index } => EventModel::TextStart { index },
            StreamEvent::ThinkingStart { index } => EventModel::ThinkingStart { index },
            StreamEvent::ToolStart { index, id, name } => EventModel::ToolStart {
                index,
                id: id@,
                name: name@,
            },
            StreamEvent::TextDelta { index, text } => EventModel::TextDelta { index, text: text@ },
            StreamEvent::ThinkingDelta { index, thinking } => EventModel::ThinkingDelta {
                index,
                thinking: thinking@,
            },
            StreamEvent::InputDelta { index, json } => EventModel::InputDelta {
                index,
                json: json@,
            },
            StreamEvent::BlockStop { index } => EventModel::BlockStop { index },
            StreamEvent::MessageDelta { stop_reason, usage } => EventModel::MessageDelta {
                stop_reason: stop_reason@,
                usage: usage@,
            },
            StreamEvent::MessageStop => EventModel::MessageStop,
            StreamEvent::Failure { message } => EventModel::Failure { message: message@ },
        }
    }
}

/// What each event of a list says.
pub open spec fn event_models(events: Seq<StreamEvent>) -> Seq<EventModel> {
    Seq::new(events.len(), |i: int| events[i]@)
}

/// The events of a list with one more behind them.
pub proof fn lemma_events_push(events: Seq<StreamEvent>, event: StreamEvent)
    ensures
        event_models(events.push(event)) == event_models(events).push(event@),
{
    assert(event_models(events.push(event)) =~= event_models(events).push(event@));
}

/// What a list of events says: its text, its thinking and the input of its tools,
/// each piece behind the one before it.
pub struct SaidModel {
    pub text: Seq<char>,
    pub thinking: Seq<char>,
    pub input: Seq<char>,
}

/// What is said once one more event has come.
pub open spec fn said_with(before: SaidModel, event: EventModel) -> SaidModel {
    match event {
        EventModel::TextDelta { text, .. } => SaidModel { text: before.text + text, ..before },
        EventModel::ThinkingDelta { thinking, .. } => SaidModel {
            thinking: before.thinking + thinking,
            ..before
        },
        EventModel::InputDelta { json, .. } => SaidModel { input: before.input + json, ..before },
        _ => before,
    }
}

/// What a list of events says.
pub open spec fn said(events: Seq<EventModel>) -> SaidModel
    decreases events.len(),
{
    if events.len() == 0 {
        SaidModel { text: Seq::empty(), thinking: Seq::empty(), input: Seq::empty() }
    } else {
        said_with(said(events.drop_last()), events.last())
    }
}

/// What a list of events with one more behind it says.
pub proof fn lemma_said_push(events: Seq<EventModel>, event: EventModel)
    ensures
        said(events.push(event)) == said_with(said(events), event),
{
    assert(events.push(event).drop_last() =~= events);
}

/// What is said in one list and then in another.
pub open spec fn said_both(a: SaidModel, b: SaidModel) -> SaidModel {
    SaidModel {
        text: a.text + b.text,
        thinking: a.thinking + b.thinking,
        input: a.input + b.input,
    }
}

/// Two lists of events say what the one says and then what the other says.
pub proof fn lemma_said_both(a: Seq<EventModel>, b: Seq<EventModel>)
    ensures
        said(a + b) == said_both(said(a), said(b)),
    decreases b.len(),
{
    let one = said(a);
    if b.len() == 0 {
        assert(a + b =~= a);
        assert(one.text + said(b).text =~= one.text);
        assert(one.thinking + said(b).thinking =~= one.thinking);
        assert(one.input + said(b).input =~= one.input);
    } else {
        lemma_said_both(a, b.drop_last());
        assert((a + b).drop_last() =~= a + b.drop_last());
        let two = said(b.drop_last());
        match b.last() {
            EventModel::TextDelta { text, .. } => {
                assert((one.text + two.text) + text =~= one.text + (two.text + text));
            },
            EventModel::ThinkingDelta { thinking, .. } => {
                assert((one.thinking + two.thinking) + thinking =~= one.thinking + (two.thinking
                    + thinking));
            },
            EventModel::InputDelta { json, .. } => {
                assert((one.input + two.input) + json =~= one.input + (two.input + json));
            },
            _ => {},
        }
    }
}

/// The input that a list of events gives to a block, each piece behind the one
/// before it.
pub open spec fn input_at(events: Seq<EventModel>, index: u64) -> Seq<char>
    decreases events.len(),
{
    if events.len() == 0 {
        Seq::empty()
    } else {
        input_with(input_at(events.drop_last(), index), events.last(), index)
    }
}

/// The input of a block once one more event has come.
pub open spec fn input_with(before: Seq<char>, event: EventModel, index: u64) -> Seq<char> {
    match event {
        EventModel::InputDelta { index: i, json } => if i == index {
            before + json
        } else {
            before
        },
        _ => before,
    }
}

/// The input that a list of events with one more behind it gives to a block.
pub proof fn lemma_input_push(events: Seq<EventModel>, event: EventModel, index: u64)
    ensures
        input_at(events.push(event), index) == input_with(input_at(events, index), event, index),
{
    assert(events.push(event).drop_last() =~= events);
}

/// Two lists of events give a block the input of the one and then that of the other.
pub proof fn lemma_input_both(a: Seq<EventModel>, b: Seq<EventModel>, index: u64)
    ensures
        input_at(a + b, index) == input_at(a, index) + input_at(b, index),
    decreases b.len(),
{
    if b.len() == 0 {
        assert(a + b =~= a);
        assert(input_at(a, index) + input_at(b, index) =~= input_at(a, index));
    } else {
        lemma_input_both(a, b.drop_last(), index);
        assert((a + b).drop_last() =~= a + b.drop_last());
        assert(input_at(a + b, index) =~= input_at(a, index) + input_at(b, index));
    }
}

/// Puts an event behind a list.
pub fn emit(out: &mut Vec<StreamEvent>, event: StreamEvent)
    ensures
        event_models(final(out)@) == event_models(old(out)@).push(event@),
{
    proof {
        lemma_events_push(out@, event);
    }
    out.push(event);
}

/// The usage of an answer of which none is known.
pub open spec fn no_usage() -> JsonModel {
    JsonModel::Object(
        Map::empty().insert("input_tokens"@, JsonModel::Unsigned(0)).insert(
            "output_tokens"@,
            JsonModel::Unsigned(0),
        ),
    )
}

/// The usage of an answer of which none is known.
pub fn make_no_usage() -> (r: Json)
    ensures
        r@ == no_usage(),
{
    Json::Object(
        Fields::new().with("input_tokens", Json::Unsigned(0)).with(
            "output_tokens",
            Json::Unsigned(0),
        ),
    )
}

/// The document of an event of a block: its type, the index of the block and
/// one more field.
pub open spec fn block_event(
    kind: Seq<char>,
    index: u64,
    key: Seq<char>,
    value: JsonModel,
) -> JsonModel {
    JsonModel::Object(
        Map::empty().insert("type"@, JsonModel::Text(kind)).insert(
            "index"@,
            JsonModel::Unsigned(index),
        ).insert(key, value),
    )
}

fn make_block_event(kind: &str, index: u64, key: &str, value: Json) -> (r: Json)
    ensures
        r@ == block_event(kind@, index, key@, value@),
{
    Json::Object(
        Fields::new().with("type", Json::text(kind)).with("index", Json::Unsigned(index)).with(
            key,
            value,
        ),
    )
}

/// A document with a type and one text.
pub open spec fn typed_text(kind: Seq<char>, key: Seq<char>, text: Seq<char>) -> JsonModel {
    JsonModel::Object(
        Map::empty().insert("type"@, JsonModel::Text(kind)).insert(key, JsonModel::Text(text)),
    )
}

fn make_typed_text(kind: &str, key: &str, text: &str) -> (r: Json)
    ensures
        r@ == typed_text(kind@, key@, text@),
{
    Json::Object(Fields::new().with("type", Json::text(kind)).with(key, Json::text(text)))
}

/// The message that an answer begins with: nothing said and nothing used yet.
pub open spec fn empty_message(id: Seq<char>, model: Seq<char>) -> JsonModel {
    JsonModel::Object(
        Map::empty().insert("id"@, JsonModel::Text(id)).insert(
            "type"@,
            JsonModel::Text("message"@),
        ).insert("role"@, JsonModel::Text("assistant"@)).insert(
            "content"@,
            JsonModel::Array(Seq::empty()),
        ).insert("model"@, JsonModel::Text(model)).insert("stop_reason"@, JsonModel::Null).insert(
            "stop_sequence"@,
            JsonModel::Null,
        ).insert("usage"@, no_usage()),
    )
}

fn make_empty_message(id: &str, model: &str) -> (r: Json)
    ensures
        r@ == empty_message(id@, model@),
{
    let nothing: Vec<Json> = Vec::new();
    assert(crate::json::models(nothing@) =~= Seq::<JsonModel>::empty());
    Json::Object(
        Fields::new().with("id", Json::text(id)).with("type", Json::text("message")).with(
            "role",
            Json::text("assistant"),
        ).with("content", Json::Array(nothing)).with("model", Json::text(model)).with(
            "stop_reason",
            Json::Null,
        ).with("stop_sequence", Json::Null).with("usage", make_no_usage()),
    )
}

/// The block that a call of a tool begins with.
pub open spec fn tool_block(id: Seq<char>, name: Seq<char>) -> JsonModel {
    JsonModel::Object(
        Map::empty().insert("type"@, JsonModel::Text("tool_use"@)).insert(
            "id"@,
            JsonModel::Text(id),
        ).insert("name"@, JsonModel::Text(name)).insert(
            "input"@,
            JsonModel::Object(Map::empty()),
        ),
    )
}

fn make_tool_block(id: &str, name: &str) -> (r: Json)
    ensures
        r@ == tool_block(id@, name@),
{
    Json::Object(
        Fields::new().with("type", Json::text("tool_use")).with("id", Json::text(id)).with(
            "name",
            Json::text(name),
        ).with("input", Json::Object(Fields::new())),
    )
}

impl EventModel {
    /// The name of the event.
    pub open spec fn name(self) -> Seq<char> {
        match self {
            EventModel::MessageStart { .. } => "message_start"@,
            EventModel::TextStart { .. } => "content_block_start"@,
            EventModel::ThinkingStart { .. } => "content_block_start"@,
            EventModel::ToolStart { .. } => "content_block_start"@,
            EventModel::TextDelta { .. } => "content_block_delta"@,
            EventModel::ThinkingDelta { .. } => "content_block_delta"@,
            EventModel::InputDelta { .. } => "content_block_delta"@,
            EventModel::BlockStop { .. } => "content_block_stop"@,
            EventModel::MessageDelta { .. } => "message_delta"@,
            EventModel::MessageStop => "message_stop"@,
            EventModel::Failure { .. } => "error"@,
        }
    }

    /// The document of the event.
    pub open spec fn document(self) -> JsonModel {
        match self {
            EventModel::MessageStart { id, model } => JsonModel::Object(
                Map::empty().insert("type"@, JsonModel::Text("message_start"@)).insert(
                    "message"@,
                    empty_message(id, model),
                ),
            ),
            EventModel::TextStart { index } => block_event(
                "content_block_start"@,
                index,
                "content_block"@,
                typed_text("text"@, "text"@, ""@),
            ),
            EventModel::ThinkingStart { index } => block_event(
                "content_block_start"@,
                index,
                "content_block"@,
                JsonModel::Object(
                    Map::empty().insert("type"@, JsonModel::Text("thinking"@)).insert(
                        "thinking"@,
                        JsonModel::Text(""@),
                    ).insert("signature"@, JsonModel::Text(""@)),
                ),
            ),
            EventModel::ToolStart { index, id, name } => block_event(
                "content_block_start"@,
                index,
                "content_block"@,
                tool_block(id, name),
            ),
            EventModel::TextDelta { index, text } => block_event(
                "content_block_delta"@,
                index,
                "delta"@,
                typed_text("text_delta"@, "text"@, text),
            ),
            EventModel::ThinkingDelta { index, thinking } => block_event(
                "content_block_delta"@,
                index,
                "delta"@,
                typed_text("thinking_delta"@, "thinking"@, thinking),
            ),
            EventModel::InputDelta { index, json } => block_event(
                "content_block_delta"@,
                index,
                "delta"@,
                typed_text("input_json_delta"@, "partial_json"@, json),
            ),
            EventModel::BlockStop { index } => JsonModel::Object(
                Map::empty().insert("type"@, JsonModel::Text("content_block_stop"@)).insert(
                    "index"@,
                    JsonModel::Unsigned(index),
                ),
            ),
            EventModel::MessageDelta { stop_reason, usage } => JsonModel::Object(
                Map::empty().insert("type"@, JsonModel::Text("message_delta"@)).insert(
                    "delta"@,
                    JsonModel::Object(
                        Map::empty().insert("stop_reason"@, JsonModel::Text(stop_reason)).insert(
                            "stop_sequence"@,
                            JsonModel::Null,
                        ),
                    ),
                ).insert("usage"@, usage),
            ),
            EventModel::MessageStop => JsonModel::Object(
                Map::empty().insert("type"@, JsonModel::Text("message_stop"@)),
            ),
            EventModel::Failure { message } => JsonModel::Object(
                Map::empty().insert("type"@, JsonModel::Text("error"@)).insert(
                    "error"@,
                    typed_text("api_error"@, "message"@, message),
                ),
            ),
        }
    }

    /// The two lines of the event: one with its name, one with its document.
    pub open spec fn block_text(self) -> Seq<char> {
        sse::frame_text(self.name(), codec::json_text(self.document()))
    }

    /// The two lines are read as a frame with the name and the document.
    pub open spec fn reads_back(self) -> bool {
        sse::frame_of_text(self.block_text()) == Some(
            (sse::FrameModel {
                event: Some(self.name()),
                data: codec::json_text(self.document()),
            }),
        )
    }

    /// The event as text: its two lines and a blank line.
    pub open spec fn wire_text(self) -> Seq<char> {
        self.block_text() + "\n\n"@
    }

    /// The event as bytes.
    pub open spec fn wire(self) -> Seq<u8> {
        vstd::utf8::encode_utf8(self.wire_text())
    }
}

/// The name of an event is a word on one line.
proof fn lemma_name_is_plain(event: EventModel)
    ensures
        text::one_line(event.name()),
        event.name().len() > 0,
        !text::is_white_space(event.name()[0]),
{
    reveal_strlit("message_start");
    reveal_strlit("content_block_start");
    reveal_strlit("content_block_delta");
    reveal_strlit("content_block_stop");
    reveal_strlit("message_delta");
    reveal_strlit("message_stop");
    reveal_strlit("error");
}

/// The event that an answer cannot be given, with the reason.
pub fn error_event(message: String) -> (r: StreamEvent)
    ensures
        r@ == (EventModel::Failure { message: message@ }),
{
    StreamEvent::Failure { message }
}

impl StreamEvent {
    /// The name of the event.
    pub fn name(&self) -> (r: &'static str)
        ensures
            r@ == self@.name(),
    {
        match self {
            StreamEvent::MessageStart { .. } => "message_start",
            StreamEvent::TextStart { .. } => "content_block_start",
            StreamEvent::ThinkingStart { .. } => "content_block_start",
            StreamEvent::ToolStart { .. } => "content_block_start",
            StreamEvent::TextDelta { .. } => "content_block_delta",
            StreamEvent::ThinkingDelta { .. } => "content_block_delta",
            StreamEvent::InputDelta { .. } => "content_block_delta",
            StreamEvent::BlockStop { .. } => "content_block_stop",
            StreamEvent::MessageDelta { .. } => "message_delta",
            StreamEvent::MessageStop => "message_stop",
            StreamEvent::Failure { .. } => "error",
        }
    }

    /// The document of the event.
    pub fn document(&self) -> (r: Json)
        ensures
            r@ == self@.document(),
    {
        match self {
            StreamEvent::MessageStart { id, model } => Json::Object(
                Fields::new().with("type", Json::text("message_start")).with(
                    "message",
                    make_empty_message(id.as_str(), model.as_str()),
                ),
            ),
            StreamEvent::TextStart { index } => make_block_event(
                "content_block_start",
                *index,
                "content_block",
                make_typed_text("text", "text", ""),
            ),
            StreamEvent::ThinkingStart { index } => make_block_event(
                "content_block_start",
                *index,
                "content_block",
                Json::Object(
                    Fields::new().with("type", Json::text("thinking")).with(
                        "thinking",
                        Json::text(""),
                    ).with("signature", Json::text("")),
                ),
            ),
            StreamEvent::ToolStart { index, id, name } => make_block_event(
                "content_block_start",
                *index,
                "content_block",
                make_tool_block(id.as_str(), name.as_str()),
            ),
            StreamEvent::TextDelta { index, text } => make_block_event(
                "content_block_delta",
                *index,
                "delta",
                make_typed_text("text_delta", "text", text.as_str()),
            ),
            StreamEvent::ThinkingDelta { index, thinking } => make_block_event(
                "content_block_delta",
                *index,
                "delta",
                make_typed_text("thinking_delta", "thinking", thinking.as_str()),
            ),
            StreamEvent::InputDelta { index, json } => make_block_event(
                "content_block_delta",
                *index,
                "delta",
                make_typed_text("input_json_delta", "partial_json", json.as_str()),
            ),
            StreamEvent::BlockStop { index } => Json::Object(
                Fields::new().with("type", Json::text("content_block_stop")).with(
                    "index",
                    Json::Unsigned(*index),
                ),
            ),
            StreamEvent::MessageDelta { stop_reason, usage } => Json::Object(
                Fields::new().with("type", Json::text("message_delta")).with(
                    "delta",
                    Json::Object(
                        Fields::new().with("stop_reason", Json::text(stop_reason.as_str())).with(
                            "stop_sequence",
                            Json::Null,
                        ),
                    ),
                ).with("usage", usage.clone()),
            ),
            StreamEvent::MessageStop => Json::Object(
                Fields::new().with("type", Json::text("message_stop")),
            ),
            StreamEvent::Failure { message } => Json::Object(
                Fields::new().with("type", Json::text("error")).with(
                    "error",
                    make_typed_text("api_error", "message", message.as_str()),
                ),
            ),
        }
    }

    /// The event as bytes. Read as server-sent events they are one frame with the
    /// name and the document of the event.
    pub fn render(&self) -> (r: Vec<u8>)
        ensures
            r@ == self@.wire(),
            sse::cut(r@) == (sse::CutModel {
                blocks: seq![vstd::utf8::encode_utf8(self@.block_text())],
                rest: Seq::empty(),
            }),
            self@.reads_back(),
    {
        let mut out = "event: ".to_owned();
        out.append(self.name());
        out.append("\ndata: ");
        let data = codec::to_text(&self.document());
        out.append(data.as_str());
        proof {
            lemma_name_is_plain(self@);
            sse::law_written_frame_is_read(self@.name(), data@);
        }
        out.append("\n\n");
        out.as_str().as_bytes_vec()
    }
}

}
