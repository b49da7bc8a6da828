//! Where the messages of the system go.
use vstd::prelude::*;

use crate::json::JsonModel;
use crate::text;
use crate::transform::{content, system};

verus! {

/// The two fields that change bear names of their own.
proof fn lemma_keys()
    ensures
        "messages"@ != "system"@,
{
    reveal_strlit("messages");
    reveal_strlit("system");
    assert("messages"@.len() == 8);
    assert("system"@.len() == 6);
}

/// Whether a message is one of the system that says something.
pub open spec fn speaks(message: JsonModel) -> bool {
    &&& message.text_field("role"@) == Some("system"@)
    &&& message.field("content"@) matches Some(value) && content::content_text(value).len() > 0
}

/// Whether a request has any text of the system: in its own field, or in a message.
pub open spec fn has_text(body: JsonModel, messages: Seq<JsonModel>) -> bool {
    ||| body.field("system"@) matches Some(value) && content::content_text(value).len() > 0
    ||| exists|i: int| 0 <= i < messages.len() && speaks(#[trigger] messages[i])
}

/// The messages that stay are those of other roles, in their order, and every field
/// but the messages and the text of the system stays as it is; what is no request at
/// all stays as well.
pub proof fn law_messages_that_stay(body: JsonModel)
    ensures
        ({
            let fixed = system::with_system_first(body);
            &&& body.array_field("messages"@) matches Some(messages) ==> fixed.array_field(
                "messages"@,
            ) == Some(
                messages.filter(|m: JsonModel| m.text_field("role"@) != Some("system"@)),
            )
            &&& body.array_field("messages"@) is None ==> fixed.field("messages"@) == body.field(
                "messages"@,
            )
            &&& forall|k: Seq<char>|
                k != "messages"@ && k != "system"@ ==> #[trigger] fixed.field(k) == body.field(k)
            &&& !(body is Object) ==> fixed == body
        }),
{
    lemma_keys();
    if let Some(messages) = body.array_field("messages"@) {
        lemma_same_pick(messages);
    }
}

proof fn lemma_same_pick(messages: Seq<JsonModel>)
    ensures
        system::other_messages(messages) == messages.filter(
            |m: JsonModel| m.text_field("role"@) != Some("system"@),
        ),
    decreases messages.len(),
{
    reveal(Seq::filter);
    if messages.len() > 0 {
        lemma_same_pick(messages.drop_last());
    }
}

/// The text of the system, message by message. Without messages it is that of its own
/// field, which stays as it is where it says nothing. One more message of the system that
/// says something puts its text behind it, with a blank line between, or is all of it
/// where there was none. Any other message adds nothing.
pub proof fn law_text_of_the_system(
    before: JsonModel,
    now: JsonModel,
    messages: Seq<JsonModel>,
    message: JsonModel,
)
    requires
        before.array_field("messages"@) == Some(messages),
        now.array_field("messages"@) == Some(messages.push(message)),
        now.field("system"@) == before.field("system"@),
    ensures
        ({
            let old = system::with_system_first(before).field("system"@);
            let new = system::with_system_first(now).field("system"@);
            let own = before.field("system"@);
            &&& !has_text(before, messages) ==> old == own
            &&& messages.len() == 0 ==> (own matches Some(value) ==> content::content_text(
                value,
            ).len() > 0 ==> old == Some(JsonModel::Text(content::content_text(value))))
            &&& has_text(before, messages) ==> (old matches Some(JsonModel::Text(_)))
            &&& !speaks(message) ==> new == old
            &&& speaks(message) ==> {
                let piece = content::content_text(message.field("content"@)->0);
                if has_text(before, messages) {
                    old matches Some(JsonModel::Text(said)) && new == Some(
                        JsonModel::Text(said + "\n\n"@ + piece),
                    )
                } else {
                    new == Some(JsonModel::Text(piece))
                }
            }
        }),
{
    lemma_keys();
    lemma_texts(before, messages);
    let more = messages.push(message);
    assert(more.drop_last() =~= messages);
    let own = system::with_text(
        Seq::<Seq<char>>::empty(),
        system::field_text(before, "system"@),
    );
    let texts = system::all_system_texts(before);
    let now_texts = system::all_system_texts(now);
    assert(system::messages_of(before) == messages);
    assert(system::messages_of(now) == more);
    if speaks(message) {
        let piece = content::content_text(message.field("content"@)->0);
        assert(now_texts =~= texts.push(piece));
        assert(texts.push(piece).drop_last() =~= texts);
    } else {
        assert(now_texts =~= texts);
    }
    if messages.len() == 0 {
        assert(texts =~= own);
    }
}

/// There are texts of the system if and only if any says something.
proof fn lemma_texts(body: JsonModel, messages: Seq<JsonModel>)
    requires
        body.array_field("messages"@) == Some(messages),
    ensures
        (system::all_system_texts(body).len() > 0) == has_text(body, messages),
{
    lemma_system_texts(messages);
}

proof fn lemma_system_texts(messages: Seq<JsonModel>)
    ensures
        (system::system_texts(messages).len() > 0) == (exists|i: int|
            0 <= i < messages.len() && speaks(#[trigger] messages[i])),
    decreases messages.len(),
{
    if messages.len() > 0 {
        let rest = messages.drop_last();
        let n = rest.len() as int;
        lemma_system_texts(rest);
        assert(messages[n] == messages.last());
        if system::system_texts(rest).len() > 0 {
            let i = choose|i: int| 0 <= i < rest.len() && speaks(#[trigger] rest[i]);
            assert(messages[i] == rest[i]);
        }
        if exists|i: int| 0 <= i < messages.len() && speaks(#[trigger] messages[i]) {
            let i = choose|i: int| 0 <= i < messages.len() && speaks(#[trigger] messages[i]);
            if i < n {
                assert(rest[i] == messages[i]);
            }
        }
    }
}

}
