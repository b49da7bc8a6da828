//! What the proxy makes of requests and answers.
use vstd::prelude::*;

use crate::error::{self, ErrorModel};
use crate::headers::{self, HeaderModel};
use crate::json::codec;
use crate::json::JsonModel;
use crate::openai::OpenAiType;
use crate::proxy::{self, PreparedModel, VerdictModel};
use crate::text;
use crate::transform::laws as transform_laws;
use crate::transform::{chat, responses, system};

verus! {

/// The fields of the document on health bear names of their own.
proof fn lemma_keys()
    ensures
        "status"@ != "openai_type"@,
{
    reveal_strlit("status");
    reveal_strlit("openai_type");
    assert("status"@.len() == 6);
    assert("openai_type"@.len() == 11);
}

/// What becomes of a request that is no document, or that does not ask for a stream.
pub proof fn law_requests_that_are_refused(
    api_type: OpenAiType,
    fix: bool,
    error: Seq<char>,
    value: JsonModel,
)
    ensures
        proxy::prepared(api_type, fix, Err(error)) == Err::<PreparedModel, ErrorModel>(
            ErrorModel::InvalidRequest("JSON 无效: "@ + error),
        ),
        value.field("stream"@) != Some(JsonModel::Bool(true)) ==> proxy::prepared(
            api_type,
            fix,
            Ok(value),
        ) == Err::<PreparedModel, ErrorModel>(
            ErrorModel::InvalidRequest("本代理只支持流式请求，请设置 stream: true"@),
        ),
{
}

/// What is sent to an upstream of the Chat protocol is what the conversion to that
/// protocol gives, of the request with its system messages moved where that is asked for;
/// it is refused if and only if that is. What is sent has a list of messages, and nothing
/// that is of the Responses protocol.
pub proof fn law_chat_upstream(fix: bool, value: JsonModel)
    requires
        value.field("stream"@) == Some(JsonModel::Bool(true)),
    ensures
        ({
            let request = if fix {
                system::with_system_first(value)
            } else {
                value
            };
            match proxy::prepared(OpenAiType::Chat, fix, Ok(value)) {
                Ok(found) => {
                    &&& chat::chat_request(request) == Ok::<JsonModel, ErrorModel>(found.upstream)
                    &&& found.request == request
                    &&& found.upstream.array_field("messages"@) is Some
                    &&& found.upstream.field("input"@) is None
                    &&& found.upstream.field("instructions"@) is None
                    &&& found.upstream.field("max_output_tokens"@) is None
                    &&& found.upstream.field("stream"@) == Some(JsonModel::Bool(true))
                },
                Err(error) => chat::chat_request(request) == Err::<JsonModel, ErrorModel>(error),
            }
        }),
{
    let request = if fix {
        system::with_system_first(value)
    } else {
        value
    };
    transform_laws::system::law_messages_that_stay(value);
    lemma_stream_stays();
    if chat::chat_request(request) is Ok {
        transform_laws::chat::law_chat_options(request);
    }
}

/// What is sent to an upstream of the Responses protocol is what the conversion to that
/// protocol gives, of the request with its system messages moved where that is asked for;
/// it is refused if and only if that is. What is sent has a list of items, and nothing
/// that is of the Chat protocol.
pub proof fn law_responses_upstream(fix: bool, value: JsonModel)
    requires
        value.field("stream"@) == Some(JsonModel::Bool(true)),
    ensures
        ({
            let request = if fix {
                system::with_system_first(value)
            } else {
                value
            };
            match proxy::prepared(OpenAiType::Responses, fix, Ok(value)) {
                Ok(found) => {
                    &&& responses::responses_request(request) == Ok::<JsonModel, ErrorModel>(
                        found.upstream,
                    )
                    &&& found.request == request
                    &&& found.upstream.array_field("input"@) is Some
                    &&& found.upstream.field("messages"@) is None
                    &&& found.upstream.field("stream_options"@) is None
                    &&& found.upstream.field("max_tokens"@) is None
                    &&& found.upstream.field("stream"@) == Some(JsonModel::Bool(true))
                },
                Err(error) => responses::responses_request(request) == Err::<
                    JsonModel,
                    ErrorModel,
                >(error),
            }
        }),
{
    let request = if fix {
        system::with_system_first(value)
    } else {
        value
    };
    transform_laws::system::law_messages_that_stay(value);
    lemma_stream_stays();
    if responses::responses_request(request) is Ok {
        transform_laws::responses::law_responses_options(request);
    }
}

proof fn lemma_stream_stays()
    ensures
        "stream"@ != "messages"@,
        "stream"@ != "system"@,
{
    reveal_strlit("stream");
    reveal_strlit("messages");
    reveal_strlit("system");
    assert("stream"@[1] == 't');
    assert("system"@[1] == 'y');
    assert("stream"@.len() == 6);
    assert("messages"@.len() == 8);
}

/// A request that is forwarded is the text of the document that was made, with the
/// headers that it takes over; and the model, the numbers of messages and of tools and
/// the source of the authorization are those of the request.
pub proof fn law_forwarded_request(
    api_type: OpenAiType,
    fix: bool,
    incoming: Seq<HeaderModel>,
    value: JsonModel,
)
    ensures
        match proxy::prepared(api_type, fix, Ok(value)) {
            Err(error) => proxy::forwarded(api_type, fix, incoming, Ok(value)) == Err::<
                proxy::ForwardModel,
                ErrorModel,
            >(error),
            Ok(found) => proxy::forwarded(api_type, fix, incoming, Ok(value)) matches Ok(sent) && {
                &&& sent.body == codec::json_text(found.upstream)
                &&& sent.headers == headers::request_headers(incoming)
                &&& sent.auth_source == headers::auth_source(incoming)
                &&& found.request.text_field("model"@) matches Some(model) ==> sent.model == model
                &&& found.request.text_field("model"@) is None ==> sent.model == "unknown"@
                &&& found.request.array_field("messages"@) matches Some(list)
                    ==> sent.message_count == list.len()
                &&& found.request.array_field("tools"@) matches Some(list) ==> sent.tool_count
                    == list.len()
                &&& found.request.array_field("tools"@) is None ==> sent.tool_count == 0
            },
        },
{
}

/// An answer of the upstream is passed back if and only if its status is one of success
/// and it says that it is a stream of events; it is refused by its status alone, and a
/// success of another kind is told.
pub proof fn law_verdicts(status: u16, source: Seq<HeaderModel>)
    ensures
        ({
            let made = proxy::verdict(status, source);
            let kind = match headers::header_value(source, "content-type"@) {
                Some(value) => match headers::value_text(value) {
                    Some(said) => said,
                    None => "unknown"@,
                },
                None => "unknown"@,
            };
            let streams = text::has_part(text::lower(kind), "text/event-stream"@);
            &&& made is Refused <==> status < 200 || status > 299
            &&& made is Stream <==> 200 <= status <= 299 && streams
            &&& 200 <= status <= 299 && !streams ==> made == VerdictModel::Wrong(
                ErrorModel::Transform("上游在 stream 模式下未返回 text/event-stream"@),
            )
            &&& made matches VerdictModel::Stream(list) ==> {
                &&& list.len() >= 3
                &&& list[0] == (HeaderModel {
                    name: "content-type"@,
                    value: vstd::utf8::encode_utf8("text/event-stream"@),
                })
                &&& list[1] == (HeaderModel {
                    name: "cache-control"@,
                    value: vstd::utf8::encode_utf8("no-cache"@),
                })
                &&& list[2] == (HeaderModel {
                    name: "connection"@,
                    value: vstd::utf8::encode_utf8("keep-alive"@),
                })
                &&& list.skip(3) == headers::firsts(source, headers::passed_back_names())
            }
        }),
{
    let list = proxy::stream_headers(source);
    assert(list.skip(3) =~= headers::firsts(source, headers::passed_back_names()));
}

/// The document on health says that all is well and which protocol the upstream speaks.
pub proof fn law_health(api_type: OpenAiType)
    ensures
        ({
            let told = proxy::health_body(api_type);
            &&& told.text_field("status"@) == Some("ok"@)
            &&& api_type == OpenAiType::Responses ==> told.text_field("openai_type"@) == Some(
                "Responses"@,
            )
            &&& api_type == OpenAiType::Chat ==> told.text_field("openai_type"@) == Some("Chat"@)
            &&& forall|k: Seq<char>| #[trigger]
                told.field(k) is Some ==> k == "status"@ || k == "openai_type"@
        }),
{
    lemma_keys();
}

/// The name of a request is `req-` and sixteen digits of base sixteen, which are read as
/// its number.
pub proof fn law_name_of_a_request(number: u64)
    ensures
        proxy::request_name(number).len() == 20,
        proxy::request_name(number).take(4) == "req-"@,
        text::laws::value_of(proxy::request_name(number).skip(4), 16) == number,
{
    reveal_strlit("req-");
    assert(vstd::arithmetic::power::pow(16, 16) == 0x1_0000_0000_0000_0000) by {
        reveal(vstd::arithmetic::power::pow);
        reveal_with_fuel(vstd::arithmetic::power::pow, 17);
    }
    text::laws::law_hex(number as nat, 16);
    assert(proxy::request_name(number).take(4) =~= "req-"@);
    assert(proxy::request_name(number).skip(4) =~= text::hex(number as nat, 16));
}

/// The size of an answer is what its header says, or else the number of its bytes, or
/// else unknown.
pub proof fn law_size_of_an_answer(outgoing: Seq<HeaderModel>, size: u64, value: Seq<u8>)
    ensures
        headers::header_value(outgoing, "content-length"@) is None ==> {
            &&& text::laws::value_of(proxy::answer_size(outgoing, Some(size)), 10) == size
            &&& proxy::answer_size(outgoing, None) == "streaming"@
        },
        headers::header_value(outgoing, "content-length"@) == Some(value) ==> {
            &&& headers::value_text(value) matches Some(said) ==> proxy::answer_size(
                outgoing,
                Some(size),
            ) == said && proxy::answer_size(outgoing, None) == said
            &&& headers::value_text(value) is None ==> text::laws::value_of(
                proxy::answer_size(outgoing, Some(size)),
                10,
            ) == size && proxy::answer_size(outgoing, None) == "streaming"@
        },
{
    text::laws::law_decimal(size as nat);
}

/// What the proxy does not offer is not found, and what it offers is told.
pub proof fn law_not_found()
    ensures
        proxy::nothing_here().status == 404,
        proxy::nothing_here().body.nested_text("error"@, "type"@) == Some("not_found_error"@),
        proxy::nothing_here().body.nested_text("error"@, "message"@) == Some(
            "仅支持 POST /v1/messages（兼容路径：POST /messages）"@,
        ),
{
    error::law_error_form(
        404,
        "not_found_error"@,
        "仅支持 POST /v1/messages（兼容路径：POST /messages）"@,
    );
}

}
