//! What the documents of events hold, field by field.
use vstd::prelude::*;

use crate::event::{self, EventModel, SaidModel};
use crate::json::codec;
use crate::json::JsonModel;

verus! {

/// The fields of the documents of events bear names of their own.
proof fn lemma_event_keys()
    ensures
        "type"@ != "index"@,
        "type"@ != "content_block"@,
        "type"@ != "delta"@,
        "type"@ != "message"@,
        "type"@ != "usage"@,
        "type"@ != "error"@,
        "index"@ != "content_block"@,
        "index"@ != "delta"@,
        "index"@ != "message"@,
        "index"@ != "usage"@,
        "index"@ != "error"@,
        "content_block"@ != "delta"@,
        "content_block"@ != "message"@,
        "content_block"@ != "usage"@,
        "content_block"@ != "error"@,
        "delta"@ != "message"@,
        "delta"@ != "usage"@,
        "delta"@ != "error"@,
        "message"@ != "usage"@,
        "message"@ != "error"@,
        "usage"@ != "error"@,
        "id"@ != "type"@,
        "id"@ != "role"@,
        "id"@ != "content"@,
        "id"@ != "model"@,
        "id"@ != "stop_reason"@,
        "id"@ != "stop_sequence"@,
        "id"@ != "usage"@,
        "type"@ != "role"@,
        "type"@ != "content"@,
        "type"@ != "model"@,
        "type"@ != "stop_reason"@,
        "type"@ != "stop_sequence"@,
        "role"@ != "content"@,
        "role"@ != "model"@,
        "role"@ != "stop_reason"@,
        "role"@ != "stop_sequence"@,
        "role"@ != "usage"@,
        "content"@ != "model"@,
        "content"@ != "stop_reason"@,
        "content"@ != "stop_sequence"@,
        "content"@ != "usage"@,
        "model"@ != "stop_reason"@,
        "model"@ != "stop_sequence"@,
        "model"@ != "usage"@,
        "stop_reason"@ != "stop_sequence"@,
        "stop_reason"@ != "usage"@,
        "stop_sequence"@ != "usage"@,
        "type"@ != "text"@,
        "type"@ != "thinking"@,
        "type"@ != "signature"@,
        "type"@ != "name"@,
        "type"@ != "input"@,
        "text"@ != "thinking"@,
        "text"@ != "signature"@,
        "text"@ != "id"@,
        "text"@ != "name"@,
        "text"@ != "input"@,
        "thinking"@ != "signature"@,
        "thinking"@ != "id"@,
        "thinking"@ != "name"@,
        "thinking"@ != "input"@,
        "signature"@ != "id"@,
        "signature"@ != "name"@,
        "signature"@ != "input"@,
        "id"@ != "name"@,
        "id"@ != "input"@,
        "name"@ != "input"@,
        "type"@ != "partial_json"@,
        "text"@ != "partial_json"@,
        "text"@ != "stop_reason"@,
        "text"@ != "stop_sequence"@,
        "thinking"@ != "partial_json"@,
        "thinking"@ != "stop_reason"@,
        "thinking"@ != "stop_sequence"@,
        "partial_json"@ != "stop_reason"@,
        "partial_json"@ != "stop_sequence"@,
        "input_tokens"@ != "output_tokens"@,
{
    reveal_strlit("type");
    reveal_strlit("index");
    reveal_strlit("content_block");
    reveal_strlit("delta");
    reveal_strlit("message");
    reveal_strlit("usage");
    reveal_strlit("error");
    reveal_strlit("id");
    reveal_strlit("role");
    reveal_strlit("content");
    reveal_strlit("model");
    reveal_strlit("stop_reason");
    reveal_strlit("stop_sequence");
    reveal_strlit("text");
    reveal_strlit("thinking");
    reveal_strlit("signature");
    reveal_strlit("name");
    reveal_strlit("input");
    reveal_strlit("partial_json");
    reveal_strlit("input_tokens");
    reveal_strlit("output_tokens");
    assert("type"@.len() == 4);
    assert("index"@.len() == 5);
    assert("content_block"@.len() == 13);
    assert("delta"@.len() == 5);
    assert("message"@.len() == 7);
    assert("usage"@.len() == 5);
    assert("error"@.len() == 5);
    assert("index"@[0] == 'i');
    assert("delta"@[0] == 'd');
    assert("usage"@[0] == 'u');
    assert("error"@[0] == 'e');
    assert("id"@.len() == 2);
    assert("role"@.len() == 4);
    assert("content"@.len() == 7);
    assert("model"@.len() == 5);
    assert("stop_reason"@.len() == 11);
    assert("stop_sequence"@.len() == 13);
    assert("type"@[0] == 't');
    assert("role"@[0] == 'r');
    assert("model"@[0] == 'm');
    assert("type"@[1] == 'y');
    assert("text"@[1] == 'e');
    assert("thinking"@.len() == 8);
    assert("signature"@.len() == 9);
    assert("name"@[0] == 'n');
    assert("input"@.len() == 5);
    assert("text"@.len() == 4);
    assert("text"@[0] == 't');
    assert("name"@.len() == 4);
    assert("partial_json"@.len() == 12);
    assert("input_tokens"@.len() == 12);
    assert("output_tokens"@.len() == 13);
}

/// The kinds of pieces and of events are different words.
proof fn lemma_delta_kinds()
    ensures
        "text_delta"@ != "thinking_delta"@,
        "text_delta"@ != "input_json_delta"@,
        "thinking_delta"@ != "input_json_delta"@,
        "content_block_delta"@ != "message_start"@,
        "content_block_delta"@ != "content_block_start"@,
        "content_block_delta"@ != "content_block_stop"@,
        "content_block_delta"@ != "message_delta"@,
        "content_block_delta"@ != "message_stop"@,
        "content_block_delta"@ != "error"@,
        "message_start"@ != "content_block_start"@,
        "message_start"@ != "content_block_stop"@,
        "message_start"@ != "message_delta"@,
        "message_start"@ != "message_stop"@,
        "message_start"@ != "error"@,
        "content_block_start"@ != "content_block_stop"@,
        "content_block_start"@ != "message_delta"@,
        "content_block_start"@ != "message_stop"@,
        "content_block_start"@ != "error"@,
        "content_block_stop"@ != "message_delta"@,
        "content_block_stop"@ != "message_stop"@,
        "content_block_stop"@ != "error"@,
        "message_delta"@ != "message_stop"@,
        "message_delta"@ != "error"@,
        "message_stop"@ != "error"@,
{
    reveal_strlit("text_delta");
    reveal_strlit("thinking_delta");
    reveal_strlit("input_json_delta");
    reveal_strlit("content_block_delta");
    reveal_strlit("message_start");
    reveal_strlit("content_block_start");
    reveal_strlit("content_block_stop");
    reveal_strlit("message_delta");
    reveal_strlit("message_stop");
    reveal_strlit("error");
    assert("text_delta"@.len() == 10);
    assert("thinking_delta"@.len() == 14);
    assert("input_json_delta"@.len() == 16);
    assert("content_block_delta"@.len() == 19);
    assert("message_start"@.len() == 13);
    assert("content_block_delta"@[14] == 'd');
    assert("content_block_start"@[14] == 's');
    assert("content_block_stop"@.len() == 18);
    assert("message_delta"@.len() == 13);
    assert("message_stop"@.len() == 12);
    assert("error"@.len() == 5);
    assert("content_block_start"@.len() == 19);
    assert("message_start"@[8] == 's');
    assert("message_delta"@[8] == 'd');
}

/// Whether the document of an event of a block says so: its type, the index of the
/// block, what it says under one more name, and nothing else.
pub open spec fn speaks_of_block(
    document: JsonModel,
    kind: Seq<char>,
    index: u64,
    key: Seq<char>,
) -> bool {
    &&& document.text_field("type"@) == Some(kind)
    &&& document.u64_field("index"@) == Some(index)
    &&& document.field(key) is Some
    &&& forall|k: Seq<char>| #[trigger]
        document.field(k) is Some ==> k == "type"@ || k == "index"@ || k == key
}

/// Whether a document has fields of two names and no other.
pub open spec fn has_two(document: JsonModel, a: Seq<char>, b: Seq<char>) -> bool {
    forall|k: Seq<char>| #[trigger] document.field(k) is Some <==> k == a || k == b
}

/// The beginning of an answer tells its names, and that nothing was said or used yet.
pub proof fn law_document_of_a_start(id: Seq<char>, model: Seq<char>)
    ensures
        ({
            let document = (EventModel::MessageStart { id, model }).document();
            &&& has_two(document, "type"@, "message"@)
            &&& document.text_field("type"@) == Some("message_start"@)
            &&& document.nested_text("message"@, "id"@) == Some(id)
            &&& document.nested_text("message"@, "type"@) == Some("message"@)
            &&& document.nested_text("message"@, "role"@) == Some("assistant"@)
            &&& document.nested("message"@, "content"@) == Some(JsonModel::Array(Seq::empty()))
            &&& document.nested_text("message"@, "model"@) == Some(model)
            &&& document.nested("message"@, "stop_reason"@) == Some(JsonModel::Null)
            &&& document.nested("message"@, "stop_sequence"@) == Some(JsonModel::Null)
            &&& document.nested("message"@, "usage"@) matches Some(used) && has_two(
                used,
                "input_tokens"@,
                "output_tokens"@,
            ) && used.u64_field("input_tokens"@) == Some(0u64) && used.u64_field(
                "output_tokens"@,
            ) == Some(0u64)
            &&& forall|k: Seq<char>| #[trigger]
                document.nested("message"@, k) is Some ==> k == "id"@ || k == "type"@ || k
                    == "role"@ || k == "content"@ || k == "model"@ || k == "stop_reason"@ || k
                    == "stop_sequence"@ || k == "usage"@
        }),
{
    lemma_event_keys();
}

/// The beginning of a block tells its index and what it is to hold: text, thinking, or
/// a call with its id and name.
pub proof fn law_document_of_a_block_start(index: u64, id: Seq<char>, name: Seq<char>)
    ensures
        ({
            let document = (EventModel::TextStart { index }).document();
            &&& speaks_of_block(document, "content_block_start"@, index, "content_block"@)
            &&& document.field("content_block"@) matches Some(block) && has_two(
                block,
                "type"@,
                "text"@,
            ) && block.text_field("type"@) == Some("text"@) && block.text_field("text"@) == Some(
                Seq::<char>::empty(),
            )
        }),
        ({
            let document = (EventModel::ThinkingStart { index }).document();
            &&& speaks_of_block(document, "content_block_start"@, index, "content_block"@)
            &&& document.nested_text("content_block"@, "type"@) == Some("thinking"@)
            &&& document.nested_text("content_block"@, "thinking"@) == Some(Seq::<char>::empty())
            &&& document.nested_text("content_block"@, "signature"@) == Some(Seq::<char>::empty())
            &&& forall|k: Seq<char>| #[trigger]
                document.nested("content_block"@, k) is Some ==> k == "type"@ || k == "thinking"@
                    || k == "signature"@
        }),
        ({
            let document = (EventModel::ToolStart { index, id, name }).document();
            &&& speaks_of_block(document, "content_block_start"@, index, "content_block"@)
            &&& document.nested_text("content_block"@, "type"@) == Some("tool_use"@)
            &&& document.nested_text("content_block"@, "id"@) == Some(id)
            &&& document.nested_text("content_block"@, "name"@) == Some(name)
            &&& document.nested("content_block"@, "input"@) == Some(
                JsonModel::Object(Map::empty()),
            )
            &&& forall|k: Seq<char>| #[trigger]
                document.nested("content_block"@, k) is Some ==> k == "type"@ || k == "id"@ || k
                    == "name"@ || k == "input"@
        }),
{
    lemma_event_keys();
    reveal_strlit("");
    assert(""@ =~= Seq::<char>::empty());
}

/// A piece of a block tells the index of the block, what it is a piece of, and the piece
/// itself, under the name that goes with that and under no other.
pub proof fn law_document_of_a_piece(index: u64, piece: Seq<char>)
    ensures
        ({
            let document = (EventModel::TextDelta { index, text: piece }).document();
            &&& speaks_of_block(document, "content_block_delta"@, index, "delta"@)
            &&& document.field("delta"@) matches Some(delta) && has_two(delta, "type"@, "text"@)
                && delta.text_field("type"@) == Some("text_delta"@) && delta.text_field("text"@)
                == Some(piece)
        }),
        ({
            let document = (EventModel::ThinkingDelta { index, thinking: piece }).document();
            &&& speaks_of_block(document, "content_block_delta"@, index, "delta"@)
            &&& document.field("delta"@) matches Some(delta) && has_two(
                delta,
                "type"@,
                "thinking"@,
            ) && delta.text_field("type"@) == Some("thinking_delta"@) && delta.text_field(
                "thinking"@,
            ) == Some(piece)
        }),
        ({
            let document = (EventModel::InputDelta { index, json: piece }).document();
            &&& speaks_of_block(document, "content_block_delta"@, index, "delta"@)
            &&& document.field("delta"@) matches Some(delta) && has_two(
                delta,
                "type"@,
                "partial_json"@,
            ) && delta.text_field("type"@) == Some("input_json_delta"@) && delta.text_field(
                "partial_json"@,
            ) == Some(piece)
        }),
{
    lemma_event_keys();
}

/// The end of a block tells its index, and the end of an answer that it ends.
pub proof fn law_document_of_an_end(index: u64)
    ensures
        ({
            let document = (EventModel::BlockStop { index }).document();
            &&& has_two(document, "type"@, "index"@)
            &&& document.text_field("type"@) == Some("content_block_stop"@)
            &&& document.u64_field("index"@) == Some(index)
        }),
        ({
            let document = EventModel::MessageStop.document();
            &&& document.text_field("type"@) == Some("message_stop"@)
            &&& forall|k: Seq<char>| #[trigger] document.field(k) is Some ==> k == "type"@
        }),
{
    lemma_event_keys();
}

/// Why an answer stops and what it used are told as they are.
pub proof fn law_document_of_a_stop(stop_reason: Seq<char>, usage: JsonModel)
    ensures
        ({
            let document = (EventModel::MessageDelta { stop_reason, usage }).document();
            &&& document.text_field("type"@) == Some("message_delta"@)
            &&& document.field("usage"@) == Some(usage)
            &&& document.field("delta"@) matches Some(delta) && has_two(
                delta,
                "stop_reason"@,
                "stop_sequence"@,
            ) && delta.text_field("stop_reason"@) == Some(stop_reason) && delta.field(
                "stop_sequence"@,
            ) == Some(JsonModel::Null)
            &&& forall|k: Seq<char>| #[trigger]
                document.field(k) is Some ==> k == "type"@ || k == "delta"@ || k == "usage"@
        }),
{
    lemma_event_keys();
}

/// A failure tells its message, as an error of the service.
pub proof fn law_document_of_a_failure(message: Seq<char>)
    ensures
        ({
            let document = (EventModel::Failure { message }).document();
            &&& has_two(document, "type"@, "error"@)
            &&& document.text_field("type"@) == Some("error"@)
            &&& document.field("error"@) matches Some(error) && has_two(
                error,
                "type"@,
                "message"@,
            ) && error.text_field("type"@) == Some("api_error"@) && error.text_field("message"@)
                == Some(message)
        }),
{
    lemma_event_keys();
}

/// Every event bears the name that its document says, and is written as a line with
/// that name, a line with the document, and a blank line.
pub proof fn law_event_is_named_by_its_document(event: EventModel)
    ensures
        event.document().text_field("type"@) == Some(event.name()),
        event.wire() == vstd::utf8::encode_utf8(
            "event: "@ + event.name() + "\ndata: "@ + codec::json_text(event.document())
                + "\n\n"@,
        ),
{
    lemma_event_keys();
}

/// Usage of which nothing is known is zero.
pub proof fn law_no_usage_is_zero()
    ensures
        has_two(event::no_usage(), "input_tokens"@, "output_tokens"@),
        event::no_usage().u64_field("input_tokens"@) == Some(0u64),
        event::no_usage().u64_field("output_tokens"@) == Some(0u64),
{
    lemma_event_keys();
}

/// What a client reads in one more document: a piece of text, of thinking or of input,
/// by the names that the protocol gives these.
pub open spec fn read_with(before: SaidModel, document: JsonModel) -> SaidModel {
    let kind = document.nested_text("delta"@, "type"@);
    if document.text_field("type"@) != Some("content_block_delta"@) {
        before
    } else if kind == Some("text_delta"@) {
        match document.nested_text("delta"@, "text"@) {
            Some(piece) => SaidModel { text: before.text + piece, ..before },
            None => before,
        }
    } else if kind == Some("thinking_delta"@) {
        match document.nested_text("delta"@, "thinking"@) {
            Some(piece) => SaidModel { thinking: before.thinking + piece, ..before },
            None => before,
        }
    } else if kind == Some("input_json_delta"@) {
        match document.nested_text("delta"@, "partial_json"@) {
            Some(piece) => SaidModel { input: before.input + piece, ..before },
            None => before,
        }
    } else {
        before
    }
}

/// What a client reads in the documents of events.
pub open spec fn read_in(events: Seq<EventModel>) -> SaidModel
    decreases events.len(),
{
    if events.len() == 0 {
        SaidModel { text: Seq::empty(), thinking: Seq::empty(), input: Seq::empty() }
    } else {
        read_with(read_in(events.drop_last()), events.last().document())
    }
}

/// A client that reads the documents of events field by field reads what they say.
pub proof fn law_client_reads_what_is_said(events: Seq<EventModel>)
    ensures
        read_in(events) == event::said(events),
    decreases events.len(),
{
    if events.len() > 0 {
        law_client_reads_what_is_said(events.drop_last());
        lemma_event_keys();
        lemma_delta_kinds();
    }
}

/// The input that a client reads for the block of an index in one more document.
pub open spec fn input_read_with(
    before: Seq<char>,
    document: JsonModel,
    index: u64,
) -> Seq<char> {
    if document.text_field("type"@) == Some("content_block_delta"@) && document.u64_field("index"@)
        == Some(index) && document.nested_text("delta"@, "type"@) == Some("input_json_delta"@) {
        match document.nested_text("delta"@, "partial_json"@) {
            Some(piece) => before + piece,
            None => before,
        }
    } else {
        before
    }
}

/// The input that a client reads for the block of an index in the documents of events.
pub open spec fn input_read(events: Seq<EventModel>, index: u64) -> Seq<char>
    decreases events.len(),
{
    if events.len() == 0 {
        Seq::empty()
    } else {
        input_read_with(
            input_read(events.drop_last(), index),
            events.last().document(),
            index,
        )
    }
}

/// A client that reads the documents of events field by field reads the input that each
/// block is given.
pub proof fn law_client_reads_the_input(events: Seq<EventModel>, index: u64)
    ensures
        input_read(events, index) == event::input_at(events, index),
    decreases events.len(),
{
    if events.len() > 0 {
        law_client_reads_the_input(events.drop_last(), index);
        lemma_event_keys();
        lemma_delta_kinds();
    }
}

}
