//! The headers of requests and answers, and which of them are passed on.
use vstd::prelude::*;

use crate::error::{ErrorModel, ProxyError};
use crate::text;

pub mod laws;

verus! {

/// A header: its name and the bytes of its value.
#[derive(Debug, PartialEq, Eq)]
pub struct Header {
    pub name: String,
    pub value: Vec<u8>,
}

/// What a header says.
pub struct HeaderModel {
    pub name: Seq<char>,
    pub value: Seq<u8>,
}

impl View for Header {
    type V = HeaderModel;

    open spec fn view(&self) -> HeaderModel {
        HeaderModel { name: self.name@, value: self.value@ }
    }
}

/// What each header of a list says.
pub open spec fn header_models(list: Seq<Header>) -> Seq<HeaderModel> {
    Seq::new(list.len(), |i: int| list[i]@)
}

/// What may be the bytes of a value.
pub open spec fn bytes_ref(value: Option<&Vec<u8>>) -> Option<Seq<u8>> {
    match value {
        Some(bytes) => Some(bytes@),
        None => None,
    }
}

/// The value of the first header of a name. In names, capital and small letters
/// are the same.
pub open spec fn header_value(list: Seq<HeaderModel>, name: Seq<char>) -> Option<Seq<u8>>
    decreases list.len(),
{
    if list.len() == 0 {
        None
    } else if text::lower(list[0].name) == name {
        Some(list[0].value)
    } else {
        header_value(list.drop_first(), name)
    }
}

/// The value of the first header of a name, given in small letters.
pub fn find_header<'a>(list: &'a Vec<Header>, name: &str) -> (r: Option<&'a Vec<u8>>)
    ensures
        bytes_ref(r) == header_value(header_models(list@), name@),
{
    let ghost all = header_models(list@);
    let mut i: usize = 0;
    assert(all.skip(0) =~= all);
    while i < list.len()
        invariant
            i <= list.len(),
            all == header_models(list@),
            header_value(all, name@) == header_value(all.skip(i as int), name@),
        decreases list.len() - i,
    {
        if text::same_text(text::lowercase(list[i].name.as_str()).as_str(), name) {
            return Some(&list[i].value);
        }
        assert(all.skip(i as int).drop_first() =~= all.skip(i + 1));
        i = i + 1;
    }
    None
}

/// Whether a byte of a value can be read as a character: visible ASCII, a blank
/// or a tab.
pub open spec fn is_readable(b: u8) -> bool {
    32 <= b < 127 || b == 9
}

/// Whether a byte can stand in a value.
pub open spec fn is_valid(b: u8) -> bool {
    b == 9 || (b >= 32 && b != 127)
}

/// Whether a value can be read as text.
pub open spec fn readable(value: Seq<u8>) -> bool {
    forall|i: int| 0 <= i < value.len() ==> is_readable(#[trigger] value[i])
}

/// A value as text.
pub open spec fn value_chars(value: Seq<u8>) -> Seq<char> {
    Seq::new(value.len(), |i: int| value[i] as char)
}

/// A value as text, where it can be read as such.
pub open spec fn value_text(value: Seq<u8>) -> Option<Seq<char>> {
    if readable(value) {
        Some(value_chars(value))
    } else {
        None
    }
}

/// A value as text, where it can be read as such.
pub fn read_value(value: &Vec<u8>) -> (r: Option<String>)
    ensures
        text::text_opt(r) == value_text(value@),
{
    let mut out = String::new();
    let mut i: usize = 0;
    while i < value.len()
        invariant
            i <= value.len(),
            out@ == value_chars(value@).take(i as int),
            forall|j: int| 0 <= j < i ==> is_readable(#[trigger] value@[j]),
        decreases value.len() - i,
    {
        let b: u8 = value[i];
        if !((32 <= b && b < 127) || b == 9) {
            assert(!is_readable(value@[i as int]));
            return None;
        }
        out.push(b as char);
        assert(value_chars(value@).take(i + 1) =~= value_chars(value@).take(i as int).push(
            b as char,
        ));
        i = i + 1;
    }
    assert(value_chars(value@).take(value@.len() as int) =~= value_chars(value@));
    Some(out)
}

/// A header as text, or another text where there is none that can be read.
pub open spec fn text_of(list: Seq<HeaderModel>, name: Seq<char>, other: Seq<char>) -> Seq<char> {
    match header_value(list, name) {
        Some(value) => match value_text(value) {
            Some(found) => found,
            None => other,
        },
        None => other,
    }
}

/// A header as text, or another text where there is none that can be read.
pub fn header_text(list: &Vec<Header>, name: &str, other: &str) -> (r: String)
    ensures
        r@ == text_of(header_models(list@), name@, other@),
{
    if let Some(value) = find_header(list, name) {
        if let Some(found) = read_value(value) {
            return found;
        }
    }
    other.to_owned()
}

/// Whether a header of that name, in small letters, is passed on to the upstream:
/// those of OpenAI accounts and those of vendors, but no key and nothing that
/// belongs to the Anthropic protocol.
pub open spec fn allowed(name: Seq<char>) -> bool {
    ||| name == "openai-organization"@
    ||| name == "openai-project"@
    ||| text::begins_with(name, "x-"@) && name != "x-api-key"@ && !text::begins_with(
        name,
        "x-anthropic-"@,
    )
}

/// Whether a header of that name, in small letters, is passed on to the upstream.
pub fn is_allowed(name: &str) -> (r: bool)
    ensures
        r == allowed(name@),
{
    text::same_text(name, "openai-organization") || text::same_text(name, "openai-project") || (
    text::has_prefix(name, "x-") && !text::same_text(name, "x-api-key") && !text::has_prefix(
        name,
        "x-anthropic-",
    ))
}

/// The headers of a request that are passed on as they are, in their order.
pub open spec fn passed_on(incoming: Seq<HeaderModel>) -> Seq<HeaderModel>
    decreases incoming.len(),
{
    if incoming.len() == 0 {
        Seq::empty()
    } else {
        let before = passed_on(incoming.drop_last());
        if allowed(text::lower(incoming.last().name)) {
            before.push(incoming.last())
        } else {
            before
        }
    }
}

/// A key as the value of an authorization.
pub open spec fn bearer(key: Seq<u8>) -> Seq<u8> {
    seq![66u8, 101, 97, 114, 101, 114, 32] + key
}

/// The authorization of a request to the upstream: the one that came, or else the
/// key that came.
pub open spec fn authorization(incoming: Seq<HeaderModel>) -> Result<
    Seq<HeaderModel>,
    ErrorModel,
> {
    match header_value(incoming, "authorization"@) {
        Some(value) => Ok(seq![HeaderModel { name: "authorization"@, value }]),
        None => match header_value(incoming, "x-api-key"@) {
            Some(key) => if readable(key) {
                Ok(seq![HeaderModel { name: "authorization"@, value: bearer(key) }])
            } else {
                Err(ErrorModel::InvalidRequest("x-api-key 不是有效字符串"@))
            },
            None => Ok(Seq::empty()),
        },
    }
}

/// The headers that a request to the upstream takes from the request that came.
pub open spec fn request_headers(incoming: Seq<HeaderModel>) -> Result<
    Seq<HeaderModel>,
    ErrorModel,
> {
    match authorization(incoming) {
        Ok(first) => Ok(first + passed_on(incoming)),
        Err(error) => Err(error),
    }
}

/// What finding headers gave, in terms of what it says.
pub open spec fn found(result: Result<Vec<Header>, ProxyError>) -> Result<
    Seq<HeaderModel>,
    ErrorModel,
> {
    match result {
        Ok(list) => Ok(header_models(list@)),
        Err(error) => Err(error@),
    }
}

fn push_header(out: &mut Vec<Header>, name: &str, value: Vec<u8>)
    ensures
        header_models(final(out)@) == header_models(old(out)@).push(
            (HeaderModel { name: name@, value: value@ }),
        ),
{
    out.push(Header { name: name.to_owned(), value });
    assert(header_models(out@) =~= header_models(old(out)@).push(
        (HeaderModel { name: name@, value: value@ }),
    ));
}

/// The bytes of a value once more.
fn copy_bytes(value: &Vec<u8>) -> (r: Vec<u8>)
    ensures
        r@ == value@,
{
    let mut out: Vec<u8> = Vec::new();
    out.extend_from_slice(value.as_slice());
    assert(out@ =~= value@);
    out
}

/// A key as the value of an authorization.
fn make_bearer(key: &Vec<u8>) -> (r: Vec<u8>)
    ensures
        r@ == bearer(key@),
{
    let mut out: Vec<u8> = vec![66u8, 101, 97, 114, 101, 114, 32];
    assert(out@ =~= seq![66u8, 101, 97, 114, 101, 114, 32]);
    out.extend_from_slice(key.as_slice());
    assert(out@ =~= bearer(key@));
    out
}

/// The headers that a request to the upstream takes from the request that came.
pub fn copy_request_headers(incoming: &Vec<Header>) -> (r: Result<Vec<Header>, ProxyError>)
    ensures
        found(r) == request_headers(header_models(incoming@)),
{
    let ghost all = header_models(incoming@);
    let mut out: Vec<Header> = Vec::new();
    assert(header_models(out@) =~= Seq::<HeaderModel>::empty());
    if let Some(value) = find_header(incoming, "authorization") {
        push_header(&mut out, "authorization", copy_bytes(value));
    } else if let Some(key) = find_header(incoming, "x-api-key") {
        if read_value(key).is_none() {
            return Err(ProxyError::InvalidRequest("x-api-key 不是有效字符串".to_owned()));
        }
        push_header(&mut out, "authorization", make_bearer(key));
    }
    let ghost first = header_models(out@);
    assert(authorization(all) is Ok && first =~= authorization(all)->Ok_0);
    let mut i: usize = 0;
    assert(all.take(0) =~= Seq::<HeaderModel>::empty());
    assert(first + Seq::<HeaderModel>::empty() =~= first);
    while i < incoming.len()
        invariant
            i <= incoming.len(),
            all == header_models(incoming@),
            header_models(out@) == first + passed_on(all.take(i as int)),
        decreases incoming.len() - i,
    {
        assert(all.take(i + 1).drop_last() =~= all.take(i as int));
        assert(all.take(i + 1).last() == incoming@[i as int]@);
        if is_allowed(text::lowercase(incoming[i].name.as_str()).as_str()) {
            let ghost before = passed_on(all.take(i as int));
            push_header(&mut out, incoming[i].name.as_str(), copy_bytes(&incoming[i].value));
            assert((first + before).push(all[i as int]) =~= first + before.push(all[i as int]));
        }
        i = i + 1;
    }
    assert(all.take(all.len() as int) =~= all);
    Ok(out)
}

/// Where the authorization of a request came from.
pub open spec fn auth_source(incoming: Seq<HeaderModel>) -> Seq<char> {
    if header_value(incoming, "authorization"@) is Some {
        "authorization"@
    } else if header_value(incoming, "x-api-key"@) is Some {
        "x-api-key"@
    } else {
        "none"@
    }
}

/// Where the authorization of a request came from.
pub fn find_auth_source(incoming: &Vec<Header>) -> (r: &'static str)
    ensures
        r@ == auth_source(header_models(incoming@)),
{
    if find_header(incoming, "authorization").is_some() {
        "authorization"
    } else if find_header(incoming, "x-api-key").is_some() {
        "x-api-key"
    } else {
        "none"
    }
}

/// The headers of an answer of the upstream that are passed back.
pub open spec fn passed_back_names() -> Seq<Seq<char>> {
    seq![
        "x-request-id"@,
        "request-id"@,
        "retry-after"@,
        "x-ratelimit-limit-requests"@,
        "x-ratelimit-remaining-requests"@,
        "x-ratelimit-reset-requests"@,
        "x-ratelimit-limit-tokens"@,
        "x-ratelimit-remaining-tokens"@,
        "x-ratelimit-reset-tokens"@,
    ]
}

/// Of the headers of these names the first of each, where there is one.
pub open spec fn firsts(source: Seq<HeaderModel>, names: Seq<Seq<char>>) -> Seq<HeaderModel>
    decreases names.len(),
{
    if names.len() == 0 {
        Seq::empty()
    } else {
        let before = firsts(source, names.drop_last());
        match header_value(source, names.last()) {
            Some(value) => before.push(HeaderModel { name: names.last(), value }),
            None => before,
        }
    }
}

/// The headers of an answer of the upstream that are passed back.
pub fn copy_response_headers(source: &Vec<Header>) -> (r: Vec<Header>)
    ensures
        header_models(r@) == firsts(header_models(source@), passed_back_names()),
{
    let names: [&str; 9] = [
        "x-request-id",
        "request-id",
        "retry-after",
        "x-ratelimit-limit-requests",
        "x-ratelimit-remaining-requests",
        "x-ratelimit-reset-requests",
        "x-ratelimit-limit-tokens",
        "x-ratelimit-remaining-tokens",
        "x-ratelimit-reset-tokens",
    ];
    let ghost all = passed_back_names();
    let mut out: Vec<Header> = Vec::new();
    let mut i: usize = 0;
    assert(header_models(out@) =~= Seq::<HeaderModel>::empty());
    assert(all.take(0) =~= Seq::<Seq<char>>::empty());
    assert(forall|j: int| 0 <= j < 9 ==> (#[trigger] names@[j])@ == all[j]);
    while i < 9
        invariant
            i <= 9,
            all == passed_back_names(),
            forall|j: int| 0 <= j < 9 ==> (#[trigger] names@[j])@ == all[j],
            header_models(out@) == firsts(header_models(source@), all.take(i as int)),
        decreases 9 - i,
    {
        assert(all.take(i + 1).drop_last() =~= all.take(i as int));
        assert(all.take(i + 1).last() == names@[i as int]@);
        if let Some(value) = find_header(source, names[i]) {
            push_header(&mut out, names[i], copy_bytes(value));
        }
        i = i + 1;
    }
    assert(all.take(9) =~= all);
    out
}

/// Whether a name is neither that of a key nor one of the Anthropic protocol.
pub open spec fn keeps_secrets(name: Seq<char>) -> bool {
    &&& name != "x-api-key"@
    &&& name != "authorization"@
    &&& !text::begins_with(name, "x-anthropic-"@)
}

proof fn lemma_allowed(name: Seq<char>)
    requires
        allowed(name),
    ensures
        keeps_secrets(name),
{
    reveal_strlit("x-");
    reveal_strlit("x-api-key");
    reveal_strlit("x-anthropic-");
    reveal_strlit("authorization");
    reveal_strlit("openai-organization");
    reveal_strlit("openai-project");
    if text::begins_with(name, "x-"@) {
        assert(name[0] == name.take(2)[0]);
        assert(name[0] == 'x');
        assert("authorization"@[0] == 'a');
    } else {
        assert(name[0] == 'o');
        assert("authorization"@[0] == 'a');
        assert("x-api-key"@[0] == 'x');
        if text::begins_with(name, "x-anthropic-"@) {
            assert(name[0] == name.take(12)[0]);
        }
    }
}

/// A key never leaves under its own name, no authorization but the one that is
/// made leaves, and nothing of the Anthropic protocol leaves at all.
pub proof fn law_keys_are_not_passed_on(incoming: Seq<HeaderModel>)
    ensures
        forall|i: int|
            0 <= i < passed_on(incoming).len() ==> keeps_secrets(
                text::lower((#[trigger] passed_on(incoming)[i]).name),
            ),
    decreases incoming.len(),
{
    if incoming.len() > 0 {
        law_keys_are_not_passed_on(incoming.drop_last());
        let name = text::lower(incoming.last().name);
        let before = passed_on(incoming.drop_last());
        if allowed(name) {
            lemma_allowed(name);
        }
        assert forall|i: int| 0 <= i < passed_on(incoming).len() implies keeps_secrets(
            text::lower((#[trigger] passed_on(incoming)[i]).name),
        ) by {
            if i < before.len() {
                assert(passed_on(incoming)[i] == before[i]);
            }
        }
    }
}

/// Every header that may be passed on is, and the others are not: those that are
/// are the allowed ones of the request, in its order.
pub proof fn law_passed_on_is_a_filter(incoming: Seq<HeaderModel>)
    ensures
        passed_on(incoming) == incoming.filter(|h: HeaderModel| allowed(text::lower(h.name))),
    decreases incoming.len(),
{
    reveal(Seq::filter);
    if incoming.len() > 0 {
        law_passed_on_is_a_filter(incoming.drop_last());
    }
}

/// An authorization that came is passed on as it is.
pub proof fn law_authorization_is_passed_on(incoming: Seq<HeaderModel>, value: Seq<u8>)
    requires
        header_value(incoming, "authorization"@) == Some(value),
    ensures
        request_headers(incoming) is Ok,
        request_headers(incoming)->Ok_0.len() > 0,
        request_headers(incoming)->Ok_0[0] == (HeaderModel { name: "authorization"@, value }),
{
}

/// A key that came without an authorization becomes one.
pub proof fn law_key_becomes_authorization(incoming: Seq<HeaderModel>, key: Seq<u8>)
    requires
        header_value(incoming, "authorization"@) is None,
        header_value(incoming, "x-api-key"@) == Some(key),
        readable(key),
    ensures
        request_headers(incoming) is Ok,
        request_headers(incoming)->Ok_0.len() > 0,
        request_headers(incoming)->Ok_0[0] == (HeaderModel {
            name: "authorization"@,
            value: bearer(key),
        }),
{
}

/// A key that can be read makes an authorization that is a valid value.
pub proof fn law_bearer_is_valid(key: Seq<u8>)
    requires
        readable(key),
    ensures
        forall|i: int| 0 <= i < bearer(key).len() ==> is_valid(#[trigger] bearer(key)[i]),
{
    assert forall|i: int| 0 <= i < bearer(key).len() implies is_valid(
        #[trigger] bearer(key)[i],
    ) by {
        if i >= 7 {
            assert(is_readable(key[i - 7]));
        }
    }
}

}
