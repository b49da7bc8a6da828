//! Which headers go where.
use vstd::prelude::*;

use crate::error::ErrorModel;
use crate::headers::{self, HeaderModel};
use crate::text;

verus! {

/// The names of headers are different.
proof fn lemma_names()
    ensures
        "authorization"@ != "x-api-key"@,
        "authorization"@ != "openai-organization"@,
        "authorization"@ != "openai-project"@,
        "x-api-key"@ != "openai-organization"@,
        "x-api-key"@ != "openai-project"@,
        "openai-organization"@ != "openai-project"@,
{
    reveal_strlit("authorization");
    reveal_strlit("x-api-key");
    reveal_strlit("openai-organization");
    reveal_strlit("openai-project");
    assert("authorization"@.len() == 13);
    assert("x-api-key"@.len() == 9);
    assert("openai-organization"@.len() == 19);
    assert("openai-project"@.len() == 14);
}

/// The header of a name is the first one with that name, whatever the case of its
/// letters.
pub proof fn law_header_of_a_name(list: Seq<HeaderModel>, header: HeaderModel, name: Seq<char>)
    ensures
        headers::header_value(Seq::empty(), name) is None,
        headers::header_value(seq![header] + list, name) == if text::lower(header.name) == name {
            Some(header.value)
        } else {
            headers::header_value(list, name)
        },
{
    assert((seq![header] + list).drop_first() =~= list);
}

/// A value is read as text if and only if all its bytes are visible ASCII, blanks or tabs,
/// and then byte by byte.
pub proof fn law_text_of_a_value(value: Seq<u8>, i: int)
    ensures
        headers::value_text(value) matches Some(said) ==> said.len() == value.len() && (0 <= i
            < value.len() ==> said[i] as u32 == value[i] as u32 && (32 <= value[i] <= 126
            || value[i] == 9)),
        headers::value_text(value) is None ==> exists|j: int|
            0 <= j < value.len() && !(32 <= (#[trigger] value[j]) <= 126 || value[j] == 9),
        (forall|j: int|
            0 <= j < value.len() ==> 32 <= (#[trigger] value[j]) <= 126 || value[j] == 9)
            ==> headers::value_text(value) is Some,
{
    if headers::readable(value) && 0 <= i < value.len() {
        assert(headers::is_readable(value[i]));
    }
    if !headers::readable(value) {
        let j = choose|j: int|
            0 <= j < value.len() && !headers::is_readable(#[trigger] value[j]);
        assert(!(32 <= value[j] <= 126 || value[j] == 9));
    }
}

/// What a request to the upstream takes over: an authorization that came, as it is; or
/// else a key that came, behind the word `Bearer`; and behind that the headers of vendors
/// and of accounts, in their order. A key that cannot be read refuses the request, where
/// no authorization came.
pub proof fn law_headers_of_a_request(incoming: Seq<HeaderModel>)
    ensures
        ({
            let made = headers::request_headers(incoming);
            let came = headers::header_value(incoming, "authorization"@);
            let key = headers::header_value(incoming, "x-api-key"@);
            let rest = incoming.filter(|h: HeaderModel| may_pass(text::lower(h.name)));
            &&& came matches Some(value) ==> made == Ok::<Seq<HeaderModel>, ErrorModel>(
                seq![HeaderModel { name: "authorization"@, value }] + rest,
            )
            &&& came is None && key is None ==> made == Ok::<Seq<HeaderModel>, ErrorModel>(rest)
            &&& came is None ==> (key matches Some(value) ==> if headers::value_text(
                value,
            ) is Some {
                made == Ok::<Seq<HeaderModel>, ErrorModel>(
                    seq![
                        HeaderModel {
                            name: "authorization"@,
                            value: vstd::utf8::encode_utf8("Bearer "@) + value,
                        },
                    ] + rest,
                )
            } else {
                made == Err::<Seq<HeaderModel>, ErrorModel>(
                    ErrorModel::InvalidRequest("x-api-key 不是有效字符串"@),
                )
            })
        }),
{
    lemma_passed(incoming);
    lemma_bearer();
    let rest = headers::passed_on(incoming);
    assert(Seq::<HeaderModel>::empty() + rest =~= rest);
}

/// Whether a header of that name, in small letters, may pass: one of the two of OpenAI
/// accounts, or one that begins with `x-`, but no key and none of Anthropic.
pub open spec fn may_pass(name: Seq<char>) -> bool {
    if name == "openai-organization"@ || name == "openai-project"@ {
        true
    } else if name == "x-api-key"@ {
        false
    } else {
        name.len() >= 2 && name.take(2) == "x-"@ && !(name.len() >= 12 && name.take(12)
            == "x-anthropic-"@)
    }
}

proof fn lemma_passed(incoming: Seq<HeaderModel>)
    ensures
        headers::passed_on(incoming) == incoming.filter(
            |h: HeaderModel| may_pass(text::lower(h.name)),
        ),
    decreases incoming.len(),
{
    reveal(Seq::filter);
    reveal_strlit("x-");
    reveal_strlit("x-anthropic-");
    assert("x-"@.len() == 2);
    assert("x-anthropic-"@.len() == 12);
    lemma_names();
    if incoming.len() > 0 {
        lemma_passed(incoming.drop_last());
        let name = text::lower(incoming.last().name);
        assert(headers::allowed(name) == may_pass(name));
    }
}

/// The bytes of the word before a key.
proof fn lemma_bearer()
    ensures
        vstd::utf8::encode_utf8("Bearer "@) == seq![66u8, 101, 97, 114, 101, 114, 32],
{
    reveal_strlit("Bearer ");
    vstd::utf8::is_ascii_chars_encode_utf8("Bearer "@);
    assert(vstd::utf8::encode_utf8("Bearer "@) =~= seq![66u8, 101, 97, 114, 101, 114, 32]);
}

/// Where the authorization of a request is said to come from.
pub proof fn law_source_of_an_authorization(incoming: Seq<HeaderModel>)
    ensures
        headers::header_value(incoming, "authorization"@) is Some ==> headers::auth_source(incoming)
            == "authorization"@,
        headers::header_value(incoming, "authorization"@) is None && headers::header_value(
            incoming,
            "x-api-key"@,
        ) is Some ==> headers::auth_source(incoming) == "x-api-key"@,
        headers::header_value(incoming, "authorization"@) is None && headers::header_value(
            incoming,
            "x-api-key"@,
        ) is None ==> headers::auth_source(incoming) == "none"@,
{
}

/// The headers that are passed back are these, and of each the first that came, where one
/// came.
pub proof fn law_headers_passed_back(
    source: Seq<HeaderModel>,
    names: Seq<Seq<char>>,
    name: Seq<char>,
)
    ensures
        headers::passed_back_names() == seq![
            "x-request-id"@,
            "request-id"@,
            "retry-after"@,
            "x-ratelimit-limit-requests"@,
            "x-ratelimit-remaining-requests"@,
            "x-ratelimit-reset-requests"@,
            "x-ratelimit-limit-tokens"@,
            "x-ratelimit-remaining-tokens"@,
            "x-ratelimit-reset-tokens"@,
        ],
        headers::firsts(source, Seq::empty()) == Seq::<HeaderModel>::empty(),
        headers::firsts(source, names.push(name)) == match headers::header_value(source, name) {
            Some(value) => headers::firsts(source, names).push(HeaderModel { name, value }),
            None => headers::firsts(source, names),
        },
{
    assert(names.push(name).drop_last() =~= names);
}

}
