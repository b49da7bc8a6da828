//! What the options of a request come to.
use vstd::prelude::*;

use crate::json::JsonModel;
use crate::text;
use crate::transform::options;

verus! {

/// The words of the options are different.
proof fn lemma_words()
    ensures
        "low"@ != "medium"@,
        "low"@ != "high"@,
        "low"@ != "xhigh"@,
        "low"@ != "max"@,
        "medium"@ != "high"@,
        "medium"@ != "xhigh"@,
        "medium"@ != "max"@,
        "high"@ != "xhigh"@,
        "high"@ != "max"@,
        "xhigh"@ != "max"@,
        "adaptive"@ != "enabled"@,
        "any"@ != "tool"@,
        "length"@ != "tool_calls"@,
        "length"@ != "function_call"@,
        "tool_calls"@ != "function_call"@,
        "type"@ != "function"@,
        "type"@ != "name"@,
        "function"@ != "name"@,
{
    reveal_strlit("low");
    reveal_strlit("medium");
    reveal_strlit("high");
    reveal_strlit("xhigh");
    reveal_strlit("max");
    reveal_strlit("adaptive");
    reveal_strlit("enabled");
    reveal_strlit("any");
    reveal_strlit("tool");
    reveal_strlit("length");
    reveal_strlit("tool_calls");
    reveal_strlit("function_call");
    reveal_strlit("type");
    reveal_strlit("function");
    reveal_strlit("name");
    assert("low"@.len() == 3);
    assert("medium"@.len() == 6);
    assert("high"@.len() == 4);
    assert("xhigh"@.len() == 5);
    assert("low"@[0] == 'l');
    assert("max"@[0] == 'm');
    assert("max"@.len() == 3);
    assert("adaptive"@.len() == 8);
    assert("enabled"@.len() == 7);
    assert("any"@.len() == 3);
    assert("tool"@.len() == 4);
    assert("length"@.len() == 6);
    assert("tool_calls"@.len() == 10);
    assert("function_call"@.len() == 13);
    assert("type"@.len() == 4);
    assert("function"@.len() == 8);
    assert("type"@[0] == 't');
    assert("name"@[0] == 'n');
    assert("name"@.len() == 4);
}

/// Whether a character is a digit.
pub open spec fn is_digit(c: char) -> bool {
    '0' <= c <= '9'
}

/// The models of the `o` series are those whose names are an `o`, a digit and anything.
pub proof fn law_o_series(model: Seq<char>, c: char, d: char, rest: Seq<char>)
    ensures
        options::o_series(seq![c, d] + rest) == (c == 'o' && is_digit(d)),
        model.len() < 2 ==> !options::o_series(model),
{
}

/// The models that reason are the `o` series and `gpt-5` to `gpt-9`, whatever follows
/// and whatever the case of their letters.
pub proof fn law_models_that_reason(model: Seq<char>, other: Seq<char>, d: char, rest: Seq<char>)
    ensures
        text::lower(model) == text::lower(other) ==> options::reasons(model) == options::reasons(
            other,
        ),
        is_digit(d) ==> options::reasons(seq!['o', d] + rest),
        options::reasons("gpt-"@.push(d) + rest) == ('5' <= d <= '9'),
        options::reasons(model) ==> {
            let name = text::lower(model);
            ||| name.len() >= 2 && name[0] == 'o' && is_digit(name[1])
            ||| name.len() >= 5 && name.take(4) == "gpt-"@ && '5' <= name[4] <= '9'
        },
{
    reveal_strlit("gpt-");
    let a = seq!['o', d] + rest;
    if is_digit(d) {
        assert(text::lower(a)[0] == 'o');
        assert(text::lower(a)[1] == d);
    }
    let b = "gpt-"@.push(d) + rest;
    let name = text::lower(b);
    assert(name.len() == b.len());
    assert(name.take(4) =~= "gpt-"@);
    assert(name[0] == 'g');
    assert(name.skip(4)[0] == text::lower_char(d));
    let own = text::lower(model);
    if text::begins_with(own, "gpt-"@) {
        assert(own.skip(4).len() == own.len() - 4);
        if own.len() > 4 {
            assert(own.skip(4)[0] == own[4]);
        }
    }
}

/// The effort of reasoning: a name of it that is known counts as it is, `max` as
/// `xhigh`, and no other name counts. Without a name thinking that adapts takes the
/// greatest effort, thinking that is enabled the effort of its budget, and other
/// thinking none.
pub proof fn law_effort(body: JsonModel)
    ensures
        ({
            let name = body.nested_text("output_config"@, "effort"@);
            let thinking = body.nested_text("thinking"@, "type"@);
            let budget = body.nested_u64("thinking"@, "budget_tokens"@);
            let effort = options::effort(body);
            &&& name matches Some(n) ==> {
                &&& n == "low"@ || n == "medium"@ || n == "high"@ || n == "xhigh"@ ==> effort
                    == Some(n)
                &&& n == "max"@ ==> effort == Some("xhigh"@)
                &&& effort is Some ==> n == "low"@ || n == "medium"@ || n == "high"@ || n
                    == "xhigh"@ || n == "max"@
            }
            &&& name is None ==> {
                &&& thinking == Some("adaptive"@) ==> effort == Some("xhigh"@)
                &&& thinking == Some("enabled"@) ==> {
                    &&& (budget matches Some(n) && n < 4000) ==> effort == Some("low"@)
                    &&& (budget matches Some(n) && 4000 <= n < 16000) ==> effort == Some("medium"@)
                    &&& (budget matches Some(n) && 16000 <= n) ==> effort == Some("high"@)
                    &&& budget is None ==> effort == Some("high"@)
                }
                &&& effort is Some ==> thinking == Some("adaptive"@) || thinking == Some(
                    "enabled"@,
                )
            }
        }),
{
    lemma_words();
}

/// A choice of a tool: one that requires any tool is `required` in both protocols, one
/// of a certain tool names that tool, as a function, each in the form of its protocol;
/// any other word stays as it is, and so does a choice without a word.
pub proof fn law_tool_choice(choice: JsonModel)
    ensures
        ({
            let word = if choice.as_text() is Some {
                choice.as_text()
            } else {
                choice.text_field("type"@)
            };
            let name = match choice.text_field("name"@) {
                Some(n) => n,
                None => Seq::<char>::empty(),
            };
            let chat = options::chat_choice(choice);
            let responses = options::responses_choice(choice);
            &&& word == Some("any"@) ==> chat == JsonModel::Text("required"@) && responses
                == JsonModel::Text("required"@)
            &&& word == Some("tool"@) ==> {
                &&& chat.text_field("type"@) == Some("function"@)
                &&& chat.nested_text("function"@, "name"@) == Some(name)
                &&& responses.text_field("type"@) == Some("function"@)
                &&& responses.text_field("name"@) == Some(name)
                &&& forall|k: Seq<char>| #[trigger]
                    chat.field(k) is Some ==> k == "type"@ || k == "function"@
                &&& forall|k: Seq<char>| #[trigger]
                    chat.nested("function"@, k) is Some ==> k == "name"@
                &&& forall|k: Seq<char>| #[trigger]
                    responses.field(k) is Some ==> k == "type"@ || k == "name"@
            }
            &&& word matches Some(w) ==> w != "any"@ ==> w != "tool"@ ==> chat == JsonModel::Text(w)
                && responses == JsonModel::Text(w)
            &&& word is None ==> chat == choice && responses == choice
        }),
{
    lemma_words();
    reveal_strlit("");
    assert(""@ =~= Seq::<char>::empty());
}

/// Why an answer of the Chat protocol stops: by its length, whatever else; or else for
/// a tool where the reason says so or any tool was called; or else because it is at its
/// end.
pub proof fn law_chat_stop(finish: Option<Seq<char>>, has_tools: bool)
    ensures
        options::chat_stop(finish, has_tools) == "max_tokens"@ <==> finish == Some("length"@),
        options::chat_stop(finish, has_tools) == "tool_use"@ <==> finish != Some("length"@) && (
        has_tools || finish == Some("tool_calls"@) || finish == Some("function_call"@)),
        options::chat_stop(finish, has_tools) == "max_tokens"@ || options::chat_stop(
            finish,
            has_tools,
        ) == "tool_use"@ || options::chat_stop(finish, has_tools) == "end_turn"@,
{
    lemma_words();
    reveal_strlit("max_tokens");
    reveal_strlit("tool_use");
    reveal_strlit("end_turn");
    assert("max_tokens"@.len() == 10);
    assert("tool_use"@[0] == 't');
    assert("end_turn"@[0] == 'e');
    assert("tool_use"@.len() == 8);
    assert("end_turn"@.len() == 8);
}

}
