//! System messages moved to where both OpenAI protocols take them from.
use vstd::prelude::*;

use crate::json::{self, Json, JsonModel};
use crate::text;
use crate::transform::content;

verus! {

/// Whether a message is one of the system.
pub open spec fn is_system(message: JsonModel) -> bool {
    message.text_field("role"@) == Some("system"@)
}

/// The messages that are not of the system, in their order.
pub open spec fn other_messages(messages: Seq<JsonModel>) -> Seq<JsonModel> {
    messages.filter(|message: JsonModel| !is_system(message))
}

/// A list with a text behind it, unless that is empty.
pub open spec fn with_text(texts: Seq<Seq<char>>, text: Seq<char>) -> Seq<Seq<char>> {
    if text.len() > 0 {
        texts.push(text)
    } else {
        texts
    }
}

/// The text of a field, or nothing.
pub open spec fn field_text(body: JsonModel, key: Seq<char>) -> Seq<char> {
    match body.field(key) {
        Some(value) => content::content_text(value),
        None => Seq::<char>::empty(),
    }
}

/// The texts of the system messages that have one, in their order.
pub open spec fn system_texts(messages: Seq<JsonModel>) -> Seq<Seq<char>>
    decreases messages.len(),
{
    if messages.len() == 0 {
        Seq::<Seq<char>>::empty()
    } else {
        let before = system_texts(messages.drop_last());
        if is_system(messages.last()) {
            with_text(before, field_text(messages.last(), "content"@))
        } else {
            before
        }
    }
}

/// The messages of a request, none where it has no list of them.
pub open spec fn messages_of(body: JsonModel) -> Seq<JsonModel> {
    match body.array_field("messages"@) {
        Some(messages) => messages,
        None => Seq::<JsonModel>::empty(),
    }
}

/// All texts of the system in a request: that of its `system` field, then those
/// of its system messages.
pub open spec fn all_system_texts(body: JsonModel) -> Seq<Seq<char>> {
    with_text(Seq::<Seq<char>>::empty(), field_text(body, "system"@)) + system_texts(
        messages_of(body),
    )
}

/// A request with all texts of the system in its `system` field, and no
/// message of the system. A request without any such text keeps its field.
pub open spec fn with_system_first(body: JsonModel) -> JsonModel {
    match body {
        JsonModel::Object(fields) => {
            let moved = match body.array_field("messages"@) {
                Some(messages) => fields.insert(
                    "messages"@,
                    JsonModel::Array(other_messages(messages)),
                ),
                None => fields,
            };
            let texts = all_system_texts(body);
            JsonModel::Object(
                if texts.len() > 0 {
                    moved.insert("system"@, JsonModel::Text(text::joined(texts, "\n\n"@)))
                } else {
                    moved
                },
            )
        },
        _ => body,
    }
}

fn text_of_field(body: &Json, key: &str) -> (r: String)
    ensures
        r@ == field_text(body@, key@),
{
    match body.get(key) {
        Some(value) => content::text_from_content(value),
        None => String::new(),
    }
}

fn is_system_message(message: &Json) -> (r: bool)
    ensures
        r == is_system(message@),
{
    match message.text_field("role") {
        Some(role) => text::same_text(role, "system"),
        None => false,
    }
}

/// Splits a list of messages: the texts of those of the system go behind
/// `texts`, the others come back.
fn take_system_messages(messages: Vec<Json>, texts: &mut Vec<String>) -> (r: Vec<Json>)
    ensures
        json::models(r@) == other_messages(json::models(messages@)),
        text::texts(final(texts)@) == text::texts(old(texts)@) + system_texts(
            json::models(messages@),
        ),
{
    let ghost all = json::models(messages@);
    let ghost first = text::texts(texts@);
    let ghost other = |message: JsonModel| !is_system(message);
    let mut kept: Vec<Json> = Vec::new();
    proof {
        reveal(Seq::filter);
        assert(all.take(0) =~= Seq::<JsonModel>::empty());
        assert(json::models(kept@) =~= all.take(0).filter(other));
        assert(first + system_texts(all.take(0)) =~= first);
    }
    for message in it: messages
        invariant
            it.seq() == messages@,
            all == json::models(messages@),
            other == (|message: JsonModel| !is_system(message)),
            json::models(kept@) == all.take(it.index() as int).filter(other),
            text::texts(texts@) == first + system_texts(all.take(it.index() as int)),
    {
        let ghost i = it.index() as int;
        let ghost kept_before = kept@;
        let ghost texts_before = texts@;
        proof {
            reveal(Seq::filter);
            assert(all.take(i + 1).drop_last() =~= all.take(i));
            assert(all.take(i + 1).last() == message@);
        }
        if is_system_message(&message) {
            let said = text_of_field(&message, "content");
            if !said.as_str().is_empty() {
                texts.push(said);
                assert(text::texts(texts@) =~= text::texts(texts_before).push(said@));
                assert(text::texts(texts@) =~= first + system_texts(all.take(i + 1)));
            }
        } else {
            kept.push(message);
            assert(json::models(kept@) =~= json::models(kept_before).push(message@));
        }
    }
    assert(all.take(all.len() as int) =~= all);
    kept
}

/// Moves every message of the role `system` out of `messages` and joins its
/// text to the `system` field.
pub fn fix_system_message_order(body: &mut Json)
    ensures
        final(body)@ == with_system_first(old(body)@),
{
    let ghost before = body@;
    let mut texts: Vec<String> = Vec::new();
    let first = text_of_field(body, "system");
    assert(text::texts(texts@) =~= Seq::<Seq<char>>::empty());
    if !first.as_str().is_empty() {
        texts.push(first);
        assert(text::texts(texts@) =~= Seq::<Seq<char>>::empty().push(first@));
    }
    let ghost with_first = text::texts(texts@);
    assert(with_first == with_text(Seq::<Seq<char>>::empty(), field_text(before, "system"@)));
    assert(with_first + Seq::<Seq<char>>::empty() =~= with_first);
    let has_list: bool = body.array_field("messages").is_some();
    if let Json::Object(fields) = body {
        let ghost old_fields = fields@;
        if has_list {
            if let Some(Json::Array(messages)) = fields.insert("messages", Json::Null) {
                let kept = take_system_messages(messages, &mut texts);
                let _ = fields.insert("messages", Json::Array(kept));
                assert(fields@ =~= old_fields.insert(
                    "messages"@,
                    JsonModel::Array(other_messages(messages_of(before))),
                ));
            }
        }
        assert(text::texts(texts@) == all_system_texts(before));
        if !texts.is_empty() {
            let joined = text::join(&texts, "\n\n");
            let _ = fields.insert("system", Json::Text(joined));
        }
    }
}

}
