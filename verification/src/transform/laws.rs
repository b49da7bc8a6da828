//! What holds of every request that is converted.
use vstd::prelude::*;

use crate::json::JsonModel;
use crate::openai::OpenAiType;
use crate::proxy;
use crate::text;
use crate::transform::{chat as chat_form, request, responses as responses_form, system as system_form};

pub mod blocks;
pub mod chat;
pub mod content;
pub mod options;
pub mod responses;
pub mod system;
pub mod usage;

verus! {

/// Whether any of a list of messages is one of the system.
pub open spec fn has_system(messages: Seq<JsonModel>) -> bool {
    exists|i: int| 0 <= i < messages.len() && system_form::is_system(#[trigger] messages[i])
}

/// The text of the system that a request comes to have when its system messages
/// are moved.
pub open spec fn moved_text(body: JsonModel) -> Seq<char> {
    text::joined(system_form::all_system_texts(body), "\n\n"@)
}

/// Whether the text of the system begins with a billing header once more when
/// those of its parts are gone.
pub open spec fn billed_again(body: JsonModel) -> bool {
    text::begins_with(moved_text(body), "x-anthropic-billing-header:"@)
}

proof fn lemma_keys()
    ensures
        "messages"@ != "system"@,
        "stream"@ != "system"@,
        "stream"@ != "messages"@,
        "model"@ != "system"@,
        "model"@ != "messages"@,
        "role"@ != "content"@,
        "role"@ != "tool_calls"@,
        "role"@ != "reasoning_content"@,
        "role"@ != "tool_call_id"@,
        "role"@ != "type"@,
        "role"@ != "call_id"@,
        "role"@ != "name"@,
        "role"@ != "arguments"@,
        "role"@ != "output"@,
        "user"@ != "system"@,
        "tool"@ != "system"@,
{
    reveal_strlit("messages");
    reveal_strlit("system");
    reveal_strlit("stream");
    reveal_strlit("model");
    reveal_strlit("role");
    reveal_strlit("content");
    reveal_strlit("tool_calls");
    reveal_strlit("reasoning_content");
    reveal_strlit("tool_call_id");
    reveal_strlit("type");
    reveal_strlit("call_id");
    reveal_strlit("name");
    reveal_strlit("arguments");
    reveal_strlit("output");
    reveal_strlit("user");
    reveal_strlit("tool");
    assert("stream"@[1] != "system"@[1]);
    assert("role"@[0] != "type"@[0]);
    assert("role"@[0] != "name"@[0]);
    assert("messages"@.len() != "system"@.len());
    assert("role"@.len() != "content"@.len());
}

/// What moving the system messages leaves behind: the other messages in their
/// order, and none of the system; and every other field as it was.
pub proof fn law_fix_moves_system_messages(body: JsonModel)
    requires
        body.array_field("messages"@) is Some,
    ensures
        ({
            let fixed = system_form::with_system_first(body);
            &&& system_form::messages_of(fixed) == system_form::other_messages(system_form::messages_of(body))
            &&& !has_system(system_form::messages_of(fixed))
            &&& forall|key: Seq<char>|
                key != "messages"@ && key != "system"@ ==> #[trigger] fixed.field(key)
                    == body.field(key)
        }),
{
    lemma_keys();
    let fixed = system_form::with_system_first(body);
    let messages = system_form::messages_of(body);
    assert(system_form::messages_of(fixed) == system_form::other_messages(messages));
    lemma_no_system_left(messages);
}

proof fn lemma_no_system_left(messages: Seq<JsonModel>)
    ensures
        forall|i: int|
            0 <= i < system_form::other_messages(messages).len() ==> !system_form::is_system(
                #[trigger] system_form::other_messages(messages)[i],
            ),
{
    let other = |message: JsonModel| !system_form::is_system(message);
    broadcast use vstd::seq_lib::group_filter_ensures;

    assert forall|i: int| 0 <= i < system_form::other_messages(messages).len() implies !system_form::is_system(
        #[trigger] system_form::other_messages(messages)[i],
    ) by {
        assert(other(messages.filter(other)[i]));
    }
}

/// The text of the system of a request whose system messages were moved is all
/// its texts of the system, with a blank line between them.
pub proof fn law_fix_joins_system_texts(body: JsonModel)
    requires
        body is Object,
        !billed_again(body),
    ensures
        request::system_text(system_form::with_system_first(body)) == moved_text(body),
{
    lemma_keys();
    let texts = system_form::all_system_texts(body);
    if texts.len() == 0 {
        assert(system_form::field_text(body, "system"@).len() == 0);
        assert(moved_text(body) =~= Seq::<char>::empty());
        assert(system_form::field_text(body, "system"@) =~= Seq::<char>::empty());
    }
}

/// Moving the system messages twice is moving them once, unless the text of the
/// system begins with a billing header once more.
pub proof fn law_fix_is_idempotent(body: JsonModel)
    requires
        !billed_again(body),
    ensures
        system_form::with_system_first(system_form::with_system_first(body)) == system_form::with_system_first(
            body,
        ),
{
    if body is Object {
        lemma_keys();
        law_fix_joins_system_texts(body);
        let fixed = system_form::with_system_first(body);
        let texts = system_form::all_system_texts(body);
        let messages = system_form::messages_of(body);
        lemma_no_system_left(messages);
        if body.array_field("messages"@) is Some {
            assert(system_form::messages_of(fixed) == system_form::other_messages(messages));
            lemma_all_stay(system_form::other_messages(messages));
        }
        let left = system_form::messages_of(fixed);
        assert(forall|i: int| 0 <= i < left.len() ==> !system_form::is_system(#[trigger] left[i]));
        lemma_no_texts(left);
        let again = system_form::all_system_texts(fixed);
        let said = moved_text(body);
        let none = Seq::<Seq<char>>::empty();
        assert(again =~= system_form::with_text(none, said));
        if said.len() > 0 {
            assert(again =~= seq![said]);
        } else {
            lemma_joined_some(texts);
            lemma_texts_say_something(messages);
            if texts.len() == 1 {
                let first = system_form::with_text(none, system_form::field_text(body, "system"@));
                assert(texts[0] == if first.len() > 0 { first[0] } else {
                    system_form::system_texts(messages)[0]
                });
            }
            assert(texts.len() == 0);
        }
        let once = fixed->Object_0;
        let twice = system_form::with_system_first(fixed)->Object_0;
        assert(twice =~= once);
    }
}

proof fn lemma_all_stay(messages: Seq<JsonModel>)
    requires
        forall|i: int| 0 <= i < messages.len() ==> !system_form::is_system(#[trigger] messages[i]),
    ensures
        system_form::other_messages(messages) == messages,
    decreases messages.len(),
{
    reveal(Seq::filter);
    if messages.len() > 0 {
        let rest = messages.drop_last();
        assert forall|i: int| 0 <= i < rest.len() implies !system_form::is_system(
            #[trigger] rest[i],
        ) by {
            assert(rest[i] == messages[i]);
        }
        lemma_all_stay(rest);
        assert(!system_form::is_system(messages.last()));
        assert(rest.push(messages.last()) =~= messages);
    }
}

proof fn lemma_no_texts(messages: Seq<JsonModel>)
    requires
        forall|i: int| 0 <= i < messages.len() ==> !system_form::is_system(#[trigger] messages[i]),
    ensures
        system_form::system_texts(messages) == Seq::<Seq<char>>::empty(),
    decreases messages.len(),
{
    if messages.len() > 0 {
        let rest = messages.drop_last();
        assert forall|i: int| 0 <= i < rest.len() implies !system_form::is_system(
            #[trigger] rest[i],
        ) by {
            assert(rest[i] == messages[i]);
        }
        lemma_no_texts(rest);
        assert(!system_form::is_system(messages.last()));
    }
}

/// None of the texts of the system is empty.
proof fn lemma_texts_say_something(messages: Seq<JsonModel>)
    ensures
        forall|i: int|
            0 <= i < system_form::system_texts(messages).len() ==> (#[trigger] system_form::system_texts(
                messages,
            )[i]).len() > 0,
    decreases messages.len(),
{
    if messages.len() > 0 {
        lemma_texts_say_something(messages.drop_last());
        let before = system_form::system_texts(messages.drop_last());
        let now = system_form::system_texts(messages);
        assert forall|i: int| 0 <= i < now.len() implies (#[trigger] now[i]).len() > 0 by {
            if i < before.len() {
                assert(now[i] == before[i]);
            }
        }
    }
}

/// Texts with a gap that says something between them say something, or are none
/// or a single empty one.
proof fn lemma_joined_some(texts: Seq<Seq<char>>)
    ensures
        texts.len() > 1 ==> text::joined(texts, "\n\n"@).len() > 0,
        texts.len() == 1 ==> text::joined(texts, "\n\n"@) == texts[0],
{
    reveal_strlit("\n\n");
}

/// A message of the Chat protocol that is not of the system.
spec fn not_system(message: JsonModel) -> bool {
    !system_form::is_system(message)
}

proof fn lemma_chat_message(message: JsonModel)
    requires
        !system_form::is_system(message),
    ensures
        forall|i: int|
            0 <= i < chat_form::chat_message(message).len() ==> not_system(
                #[trigger] chat_form::chat_message(message)[i],
            ),
{
    lemma_keys();
    let role = request::role_of(message);
    assert(role != "system"@);
    if let Some(JsonModel::Array(blocks)) = message.field("content"@) {
        let parts = chat_form::parts_of(blocks);
        lemma_results(blocks);
        assert(not_system(parts.message(role))) by {
            assert(parts.message(role).text_field("role"@) == Some(role));
        }
        assert forall|i: int| 0 <= i < chat_form::chat_message(message).len() implies not_system(
            #[trigger] chat_form::chat_message(message)[i],
        ) by {
            if i < parts.results.len() {
                assert(chat_form::chat_message(message)[i] == parts.results[i]);
            }
        }
    } else {
        let only = chat_form::chat_message(message)[0];
        assert(only.text_field("role"@) == Some(role));
    }
}

proof fn lemma_results(blocks: Seq<JsonModel>)
    ensures
        forall|i: int|
            0 <= i < chat_form::parts_of(blocks).results.len() ==> not_system(
                #[trigger] chat_form::parts_of(blocks).results[i],
            ),
    decreases blocks.len(),
{
    if blocks.len() > 0 {
        lemma_keys();
        lemma_results(blocks.drop_last());
        let before = chat_form::parts_of(blocks.drop_last()).results;
        let now = chat_form::parts_of(blocks).results;
        let last = chat_form::tool_message(blocks.last());
        assert(last.text_field("role"@) == Some("tool"@));
        assert forall|i: int| 0 <= i < now.len() implies not_system(#[trigger] now[i]) by {
            if i < before.len() {
                assert(now[i] == before[i]);
            }
        }
    }
}

proof fn lemma_chat_messages(messages: Seq<JsonModel>)
    requires
        forall|i: int| 0 <= i < messages.len() ==> !system_form::is_system(#[trigger] messages[i]),
    ensures
        forall|i: int|
            0 <= i < chat_form::chat_messages(messages).len() ==> not_system(
                #[trigger] chat_form::chat_messages(messages)[i],
            ),
    decreases messages.len(),
{
    if messages.len() > 0 {
        let rest = messages.drop_last();
        assert forall|i: int| 0 <= i < rest.len() implies !system_form::is_system(
            #[trigger] rest[i],
        ) by {
            assert(rest[i] == messages[i]);
        }
        lemma_chat_messages(rest);
        assert(!system_form::is_system(messages.last()));
        lemma_chat_message(messages.last());
        let before = chat_form::chat_messages(rest);
        let last = chat_form::chat_message(messages.last());
        assert forall|i: int| 0 <= i < chat_form::chat_messages(messages).len() implies not_system(
            #[trigger] chat_form::chat_messages(messages)[i],
        ) by {
            if i < before.len() {
                assert(chat_form::chat_messages(messages)[i] == before[i]);
            } else {
                assert(chat_form::chat_messages(messages)[i] == last[i - before.len()]);
            }
        }
    }
}

proof fn lemma_items(role: Seq<char>, blocks: Seq<JsonModel>)
    requires
        role != "system"@,
    ensures
        forall|i: int|
            0 <= i < responses_form::items_of(role, blocks).flushed(role).items.len() ==> not_system(
                #[trigger] responses_form::items_of(role, blocks).flushed(role).items[i],
            ),
    decreases blocks.len(),
{
    lemma_keys();
    let all = responses_form::items_of(role, blocks);
    let flushed = all.flushed(role).items;
    if blocks.len() > 0 {
        let rest = blocks.drop_last();
        let block = blocks.last();
        lemma_items(role, rest);
        let before = responses_form::items_of(role, rest);
        let said = before.flushed(role).items;
        assert(responses_form::call_item(block).field("role"@) is None);
        assert(responses_form::result_item(block).field("role"@) is None);
        assert forall|i: int| 0 <= i < all.items.len() implies not_system(
            #[trigger] all.items[i],
        ) by {
            if i < said.len() {
                assert(all.items[i] == said[i]);
            }
        }
    }
    let message = JsonModel::Object(chat_form::plain_message(role, JsonModel::Array(all.parts)));
    assert(message.text_field("role"@) == Some(role));
    assert forall|i: int| 0 <= i < flushed.len() implies not_system(#[trigger] flushed[i]) by {
        if i < all.items.len() {
            assert(flushed[i] == all.items[i]);
        }
    }
}

proof fn lemma_input_items(messages: Seq<JsonModel>)
    requires
        forall|i: int| 0 <= i < messages.len() ==> !system_form::is_system(#[trigger] messages[i]),
    ensures
        forall|i: int|
            0 <= i < responses_form::input_items(messages).len() ==> not_system(
                #[trigger] responses_form::input_items(messages)[i],
            ),
    decreases messages.len(),
{
    if messages.len() > 0 {
        lemma_keys();
        let rest = messages.drop_last();
        assert forall|i: int| 0 <= i < rest.len() implies !system_form::is_system(
            #[trigger] rest[i],
        ) by {
            assert(rest[i] == messages[i]);
        }
        lemma_input_items(rest);
        let message = messages.last();
        assert(!system_form::is_system(message));
        let role = request::role_of(message);
        assert(role != "system"@);
        let before = responses_form::input_items(rest);
        let last = responses_form::message_items(message);
        if let Some(JsonModel::Array(blocks)) = message.field("content"@) {
            lemma_items(role, blocks);
        } else {
            assert(last[0].text_field("role"@) == Some(role));
        }
        assert forall|i: int| 0 <= i < responses_form::input_items(messages).len() implies not_system(
            #[trigger] responses_form::input_items(messages)[i],
        ) by {
            if i < before.len() {
                assert(responses_form::input_items(messages)[i] == before[i]);
            } else {
                assert(responses_form::input_items(messages)[i] == last[i - before.len()]);
            }
        }
    }
}

/// Whether a list of messages opens with one of the system that says that text,
/// and holds no other.
pub open spec fn one_leading_system_message(messages: Seq<JsonModel>, said: Seq<char>) -> bool {
    &&& messages.len() > 0
    &&& system_form::is_system(messages[0])
    &&& messages[0].text_field("content"@) == Some(said)
    &&& !has_system(messages.skip(1))
}

/// Once the system messages of a request were moved, the Chat protocol is given
/// exactly one message of the system, in front of all others, and the Responses
/// protocol is given the same text as instructions and no message of the system.
/// The text is all texts of the system, with a blank line between them, unless it
/// begins with a billing header once more. Where there is no text of the system,
/// neither protocol is given any.
pub proof fn law_one_leading_system_message(body: JsonModel)
    requires
        request::refusal(body) is None,
    ensures
        ({
            let fixed = system_form::with_system_first(body);
            let said = request::system_text(fixed);
            &&& chat_form::chat_request(fixed) matches Ok(out) && out.array_field(
                "messages"@,
            ) matches Some(messages) && if said.len() > 0 {
                one_leading_system_message(messages, said)
            } else {
                !has_system(messages)
            }
            &&& responses_form::responses_request(fixed) matches Ok(out) && out.array_field(
                "input"@,
            ) matches Some(items) && !has_system(items) && out.field("instructions"@) == (
            if said.len() > 0 {
                Some(JsonModel::Text(said))
            } else {
                None
            })
            &&& !billed_again(body) ==> said == moved_text(body)
        }),
{
    lemma_keys();
    lemma_message_keys();
    law_fix_moves_system_messages(body);
    if !billed_again(body) {
        law_fix_joins_system_texts(body);
    }
    let fixed = system_form::with_system_first(body);
    let said = request::system_text(fixed);
    let left = system_form::messages_of(fixed);
    assert(fixed.field("model"@) == body.field("model"@));
    assert forall|i: int| 0 <= i < left.len() implies !system_form::is_system(#[trigger] left[i]) by {
        assert(!has_system(left));
    }
    lemma_chat_messages(left);
    lemma_input_items(left);
    let rest = chat_form::chat_messages(left);
    let messages = chat_form::all_chat_messages(fixed);
    assert(!has_system(rest)) by {
        assert(forall|i: int| 0 <= i < rest.len() ==> not_system(#[trigger] rest[i]));
    }
    let items = responses_form::input_items(left);
    assert(!has_system(items)) by {
        assert(forall|i: int| 0 <= i < items.len() ==> not_system(#[trigger] items[i]));
    }
    if said.len() > 0 {
        assert(messages.skip(1) =~= rest);
        let first = JsonModel::Object(
            chat_form::plain_message("system"@, JsonModel::Text(said)),
        );
        assert(messages[0] == first);
        assert(first.text_field("role"@) == Some("system"@));
        assert(first.text_field("content"@) == Some(said));
    } else {
        assert(messages =~= rest);
    }
    assert(chat_form::limit_key(fixed) != "messages"@);
    assert(chat_form::chat_request(fixed)->Ok_0.array_field("messages"@) == Some(messages));
    assert(responses_form::responses_request(fixed)->Ok_0.array_field("input"@) == Some(items));
}

/// The fields of requests that hold messages bear names of their own.
proof fn lemma_message_keys()
    ensures
        "messages"@ != "model"@,
        "messages"@ != "max_completion_tokens"@,
        "messages"@ != "max_tokens"@,
        "messages"@ != "temperature"@,
        "messages"@ != "top_p"@,
        "messages"@ != "stream"@,
        "messages"@ != "stop"@,
        "messages"@ != "stream_options"@,
        "messages"@ != "reasoning_effort"@,
        "messages"@ != "tools"@,
        "messages"@ != "tool_choice"@,
        "messages"@ != "parallel_tool_calls"@,
        "messages"@ != "user"@,
        "messages"@ != "instructions"@,
        "messages"@ != "input"@,
        "messages"@ != "max_output_tokens"@,
        "messages"@ != "reasoning"@,
        "messages"@ != "system"@,
        "input"@ != "model"@,
        "input"@ != "messages"@,
        "input"@ != "max_completion_tokens"@,
        "input"@ != "max_tokens"@,
        "input"@ != "temperature"@,
        "input"@ != "top_p"@,
        "input"@ != "stream"@,
        "input"@ != "stop"@,
        "input"@ != "stream_options"@,
        "input"@ != "reasoning_effort"@,
        "input"@ != "tools"@,
        "input"@ != "tool_choice"@,
        "input"@ != "parallel_tool_calls"@,
        "input"@ != "user"@,
        "input"@ != "instructions"@,
        "input"@ != "max_output_tokens"@,
        "input"@ != "reasoning"@,
        "input"@ != "system"@,
        "instructions"@ != "model"@,
        "instructions"@ != "messages"@,
        "instructions"@ != "max_completion_tokens"@,
        "instructions"@ != "max_tokens"@,
        "instructions"@ != "temperature"@,
        "instructions"@ != "top_p"@,
        "instructions"@ != "stream"@,
        "instructions"@ != "stop"@,
        "instructions"@ != "stream_options"@,
        "instructions"@ != "reasoning_effort"@,
        "instructions"@ != "tools"@,
        "instructions"@ != "tool_choice"@,
        "instructions"@ != "parallel_tool_calls"@,
        "instructions"@ != "user"@,
        "instructions"@ != "input"@,
        "instructions"@ != "max_output_tokens"@,
        "instructions"@ != "reasoning"@,
        "instructions"@ != "system"@,
{
    reveal_strlit("model");
    reveal_strlit("messages");
    reveal_strlit("max_completion_tokens");
    reveal_strlit("max_tokens");
    reveal_strlit("temperature");
    reveal_strlit("top_p");
    reveal_strlit("stream");
    reveal_strlit("stop");
    reveal_strlit("stream_options");
    reveal_strlit("reasoning_effort");
    reveal_strlit("tools");
    reveal_strlit("tool_choice");
    reveal_strlit("parallel_tool_calls");
    reveal_strlit("user");
    reveal_strlit("instructions");
    reveal_strlit("input");
    reveal_strlit("max_output_tokens");
    reveal_strlit("reasoning");
    reveal_strlit("system");
    assert("messages"@.len() == 8);
    assert("instructions"@.len() == 12);
    assert("input"@[0] == 'i');
}

proof fn lemma_field_keys()
    ensures
        "stream"@ != "model"@,
        "stream"@ != "messages"@,
        "stream"@ != "max_completion_tokens"@,
        "stream"@ != "max_tokens"@,
        "stream"@ != "temperature"@,
        "stream"@ != "top_p"@,
        "stream"@ != "stop"@,
        "stream"@ != "stream_options"@,
        "stream"@ != "reasoning_effort"@,
        "stream"@ != "tools"@,
        "stream"@ != "tool_choice"@,
        "stream"@ != "parallel_tool_calls"@,
        "stream"@ != "user"@,
        "stream"@ != "instructions"@,
        "stream"@ != "input"@,
        "stream"@ != "max_output_tokens"@,
        "stream"@ != "reasoning"@,
        "stream"@ != "system"@,
{
    reveal_strlit("stream");
    reveal_strlit("model");
    reveal_strlit("messages");
    reveal_strlit("max_completion_tokens");
    reveal_strlit("max_tokens");
    reveal_strlit("temperature");
    reveal_strlit("top_p");
    reveal_strlit("stop");
    reveal_strlit("stream_options");
    reveal_strlit("reasoning_effort");
    reveal_strlit("tools");
    reveal_strlit("tool_choice");
    reveal_strlit("parallel_tool_calls");
    reveal_strlit("user");
    reveal_strlit("instructions");
    reveal_strlit("input");
    reveal_strlit("max_output_tokens");
    reveal_strlit("reasoning");
    reveal_strlit("system");
    assert("stream"@.len() == 6);
    assert("stream"@[1] != "system"@[1]);
}

/// A request that is passed on asks the upstream for a stream too.
pub proof fn law_stream_is_asked_for(
    api_type: OpenAiType,
    fix: bool,
    parsed: Result<JsonModel, Seq<char>>,
)
    ensures
        proxy::prepared(api_type, fix, parsed) matches Ok(found) ==> found.upstream.bool_field(
            "stream"@,
        ) == Some(true),
{
    lemma_field_keys();
    if let Ok(value) = parsed {
        let body = proxy::ordered(fix, value);
        assert(body.field("stream"@) == value.field("stream"@));
        assert(chat_form::limit_key(body) != "stream"@);
    }
}

/// The counts that usage is made of add up to the total that was given, as long as
/// the cached ones are not more than that.
pub proof fn law_usage_adds_up(total: u64, output: u64, cached: u64, created: u64)
    requires
        cached + created <= total,
    ensures
        ({
            let made = crate::transform::usage::usage_model(total, output, cached, created);
            &&& crate::transform::usage::or_zero(made, "input_tokens"@) + crate::transform::usage::or_zero(
                made,
                "cache_read_input_tokens"@,
            ) + crate::transform::usage::or_zero(made, "cache_creation_input_tokens"@) == total
            &&& crate::transform::usage::or_zero(made, "output_tokens"@) == output
            &&& crate::transform::usage::or_zero(made, "cache_read_input_tokens"@) == cached
            &&& crate::transform::usage::or_zero(made, "cache_creation_input_tokens"@) == created
        }),
{
    reveal_strlit("input_tokens");
    reveal_strlit("output_tokens");
    reveal_strlit("cache_read_input_tokens");
    reveal_strlit("cache_creation_input_tokens");
    assert("input_tokens"@.len() != "output_tokens"@.len());
    assert("input_tokens"@.len() != "cache_read_input_tokens"@.len());
    assert("input_tokens"@.len() != "cache_creation_input_tokens"@.len());
    assert("output_tokens"@.len() != "cache_read_input_tokens"@.len());
    assert("output_tokens"@.len() != "cache_creation_input_tokens"@.len());
    assert("cache_read_input_tokens"@.len() != "cache_creation_input_tokens"@.len());
}

/// A limit on the length of an answer is never below the least that the Responses
/// protocol takes, but for one of zero; and one that is not below it stays.
pub proof fn law_limit_is_never_too_low(n: u64)
    ensures
        responses_form::limit(JsonModel::Unsigned(n)).as_u64() == Some(
            if n == 0 || n >= 16 {
                n
            } else {
                16u64
            },
        ),
{
}

/// Whether a block is of a kind.
pub open spec fn is_kind(block: JsonModel, kind: Seq<char>) -> bool {
    request::block_text(block, "type"@) == kind
}

/// In the Chat protocol every call of a tool in a message stays one, and every
/// result becomes a message of its own, each in its order.
pub proof fn law_calls_and_results_are_kept(blocks: Seq<JsonModel>)
    ensures
        chat_form::parts_of(blocks).calls == blocks.filter(
            |b: JsonModel| is_kind(b, "tool_use"@),
        ).map_values(|b: JsonModel| chat_form::tool_call(b)),
        chat_form::parts_of(blocks).results == blocks.filter(
            |b: JsonModel| is_kind(b, "tool_result"@),
        ).map_values(|b: JsonModel| chat_form::tool_message(b)),
    decreases blocks.len(),
{
    reveal(Seq::filter);
    let call = |b: JsonModel| is_kind(b, "tool_use"@);
    let result = |b: JsonModel| is_kind(b, "tool_result"@);
    let make_call = |b: JsonModel| chat_form::tool_call(b);
    let make_result = |b: JsonModel| chat_form::tool_message(b);
    if blocks.len() == 0 {
        assert(blocks.filter(call).map_values(make_call) =~= Seq::<JsonModel>::empty());
        assert(blocks.filter(result).map_values(make_result) =~= Seq::<JsonModel>::empty());
    } else {
        reveal_strlit("tool_use");
        reveal_strlit("tool_result");
        reveal_strlit("text");
        reveal_strlit("image");
        assert("tool_use"@.len() != "tool_result"@.len());
        assert("tool_use"@.len() != "text"@.len());
        assert("tool_use"@.len() != "image"@.len());
        assert("tool_result"@.len() != "text"@.len());
        assert("tool_result"@.len() != "image"@.len());
        let rest = blocks.drop_last();
        let last = blocks.last();
        law_calls_and_results_are_kept(rest);
        if call(last) {
            assert(rest.filter(call).push(last).map_values(make_call) =~= rest.filter(
                call,
            ).map_values(make_call).push(make_call(last)));
        }
        if result(last) {
            assert(rest.filter(result).push(last).map_values(make_result) =~= rest.filter(
                result,
            ).map_values(make_result).push(make_result(last)));
        }
    }
}

/// A text that begins with no billing header stays as it is.
pub proof fn law_plain_text_stays(said: Seq<char>)
    requires
        !text::begins_with(said, "x-anthropic-billing-header:"@),
    ensures
        crate::transform::content::content_text(JsonModel::Text(said)) == said,
{
}

}
