//! What the proxy does with a request: the request to the upstream that it makes,
//! and how the answer to that is taken.
use vstd::prelude::*;

use crate::error::{self, ErrorModel, ErrorReply, ProxyError, ReplyModel};
use crate::headers::{self, Header, HeaderModel};
use crate::json::codec;
use crate::json::{Fields, Json, JsonModel};
use crate::openai::OpenAiType;
use crate::text;
use crate::transform::{chat, request, responses, system};

pub mod laws;

verus! {

/// How the proxy is set up.
pub struct AppState {
    /// The protocol of the upstream.
    pub openai_type: OpenAiType,
    /// Where requests go.
    pub upstream_url: url::Url,
    /// Whether system messages are moved to the beginning.
    pub fix_system_message: bool,
}

/// The name of a request in logs.
#[derive(Debug, PartialEq, Eq)]
pub struct RequestId(pub String);

impl Clone for RequestId {
    fn clone(&self) -> (r: RequestId)
        ensures
            r.0@ == self.0@,
    {
        RequestId(self.0.clone())
    }
}

/// The name of the request of a number: the number in sixteen digits of base
/// sixteen.
pub open spec fn request_name(number: u64) -> Seq<char> {
    "req-"@ + text::hex(number as nat, 16)
}

impl RequestId {
    /// The name of the request of a number.
    pub fn new(number: u64) -> (r: RequestId)
        ensures
            r.0@ == request_name(number),
    {
        RequestId(text::concat("req-", text::hex_text(number, 16).as_str()))
    }
}

/// The number behind a number. Behind the greatest comes zero again.
pub open spec fn number_after(number: u64, steps: nat) -> u64 {
    ((number + steps) % 0x1_0000_0000_0000_0000) as u64
}

/// Gives requests their numbers.
pub struct RequestCounter {
    next: u64,
}

impl View for RequestCounter {
    type V = u64;

    closed spec fn view(&self) -> u64 {
        self.next
    }
}

impl RequestCounter {
    /// The first number is one.
    pub fn new() -> (r: RequestCounter)
        ensures
            r@ == 1,
    {
        RequestCounter { next: 1 }
    }

    /// Gives the next number.
    pub fn take(&mut self) -> (r: u64)
        ensures
            r == old(self)@,
            final(self)@ == number_after(old(self)@, 1),
    {
        let number: u64 = self.next;
        self.next = number.wrapping_add(1);
        number
    }
}

/// What is noted of a request that comes.
pub struct AccessRecord {
    pub request_id: RequestId,
    pub client: String,
    pub user_agent: String,
    pub request_bytes: String,
}

/// What is noted of a request that comes: the name that its number gives it, where
/// it comes from as far as that is known, and what its headers say.
pub fn access_log(
    number: u64,
    client: Option<String>,
    incoming: &Vec<Header>,
) -> (r: AccessRecord)
    ensures
        r.request_id.0@ == request_name(number),
        r.client@ == (match client {
            Some(address) => address@,
            None => "unknown"@,
        }),
        r.user_agent@ == headers::text_of(
            headers::header_models(incoming@),
            "user-agent"@,
            "-"@,
        ),
        r.request_bytes@ == headers::text_of(
            headers::header_models(incoming@),
            "content-length"@,
            "unknown"@,
        ),
{
    AccessRecord {
        request_id: RequestId::new(number),
        client: match client {
            Some(address) => address,
            None => "unknown".to_owned(),
        },
        user_agent: headers::header_text(incoming, "user-agent", "-"),
        request_bytes: headers::header_text(incoming, "content-length", "unknown"),
    }
}

/// The size of an answer: what its headers say, or else what is known of it.
pub open spec fn answer_size(outgoing: Seq<HeaderModel>, exact: Option<u64>) -> Seq<char> {
    let other = match exact {
        Some(size) => text::decimal(size as nat),
        None => "streaming"@,
    };
    headers::text_of(outgoing, "content-length"@, other)
}

/// The size of an answer: what its headers say, or else what is known of it.
pub fn response_bytes(outgoing: &Vec<Header>, exact: Option<u64>) -> (r: String)
    ensures
        r@ == answer_size(headers::header_models(outgoing@), exact),
{
    let other = match exact {
        Some(size) => text::decimal_text(size),
        None => "streaming".to_owned(),
    };
    headers::header_text(outgoing, "content-length", other.as_str())
}

/// The document that says the proxy is well.
pub open spec fn health_body(api_type: OpenAiType) -> JsonModel {
    JsonModel::Object(
        Map::empty().insert("status"@, JsonModel::Text("ok"@)).insert(
            "openai_type"@,
            JsonModel::Text(api_type.label()),
        ),
    )
}

/// The document that says the proxy is well.
pub fn health(state: &AppState) -> (r: Json)
    ensures
        r@ == health_body(state.openai_type),
{
    Json::Object(
        Fields::new().with("status", Json::text("ok")).with(
            "openai_type",
            Json::text(state.openai_type.name()),
        ),
    )
}

/// The reply to a request for anything that the proxy does not offer.
pub open spec fn nothing_here() -> ReplyModel {
    error::error_reply(
        404,
        "not_found_error"@,
        "仅支持 POST /v1/messages（兼容路径：POST /messages）"@,
    )
}

/// The reply to a request for anything that the proxy does not offer.
pub fn not_found() -> (r: ErrorReply)
    ensures
        r@ == nothing_here(),
{
    error::anthropic_error(
        404,
        "not_found_error",
        "仅支持 POST /v1/messages（兼容路径：POST /messages）".to_owned(),
    )
}

/// The documents of a request: as it came, with the system messages moved where
/// that is asked for, and as it goes to the upstream.
pub struct PreparedModel {
    pub request: JsonModel,
    pub upstream: JsonModel,
}

/// The request with its system messages moved to the beginning, where that is
/// asked for.
pub open spec fn ordered(fix: bool, request: JsonModel) -> JsonModel {
    if fix {
        system::with_system_first(request)
    } else {
        request
    }
}

/// The request in the protocol of the upstream.
pub open spec fn upstream_request(api_type: OpenAiType, request: JsonModel) -> Result<
    JsonModel,
    ErrorModel,
> {
    match api_type {
        OpenAiType::Responses => responses::responses_request(request),
        OpenAiType::Chat => chat::chat_request(request),
    }
}

/// What becomes of a request: it has to be a document, ask for a stream, and be
/// one that can be converted.
pub open spec fn prepared(
    api_type: OpenAiType,
    fix: bool,
    parsed: Result<JsonModel, Seq<char>>,
) -> Result<PreparedModel, ErrorModel> {
    match parsed {
        Err(error) => Err(ErrorModel::InvalidRequest("JSON 无效: "@ + error)),
        Ok(value) => if value.bool_field("stream"@) != Some(true) {
            Err(ErrorModel::InvalidRequest("本代理只支持流式请求，请设置 stream: true"@))
        } else {
            match upstream_request(api_type, ordered(fix, value)) {
                Ok(upstream) => Ok(PreparedModel { request: ordered(fix, value), upstream }),
                Err(error) => Err(error),
            }
        },
    }
}

/// The documents of a request.
pub struct Prepared {
    pub request: Json,
    pub upstream: Json,
}

/// What preparing a request gave, in terms of what it says.
pub open spec fn prepared_model(result: Result<Prepared, ProxyError>) -> Result<
    PreparedModel,
    ErrorModel,
> {
    match result {
        Ok(found) => Ok(PreparedModel { request: found.request@, upstream: found.upstream@ }),
        Err(error) => Err(error@),
    }
}

/// Makes the request to the upstream from what reading the request that came gave.
pub fn prepare(state: &AppState, parsed: Result<Json, String>) -> (r: Result<Prepared, ProxyError>)
    ensures
        prepared_model(r) == prepared(
            state.openai_type,
            state.fix_system_message,
            codec::parsed(parsed),
        ),
{
    let mut request = match parsed {
        Ok(value) => value,
        Err(error) => {
            return Err(ProxyError::InvalidRequest(text::concat("JSON 无效: ", error.as_str())));
        },
    };
    match request.bool_field("stream") {
        Some(true) => {},
        _ => {
            return Err(
                ProxyError::InvalidRequest("本代理只支持流式请求，请设置 stream: true".to_owned()),
            );
        },
    }
    if state.fix_system_message {
        system::fix_system_message_order(&mut request);
    }
    let result = match state.openai_type {
        OpenAiType::Responses => responses::anthropic_to_responses(&request),
        OpenAiType::Chat => chat::anthropic_to_chat(&request),
    };
    match result {
        Ok(upstream) => Ok(Prepared { request, upstream }),
        Err(error) => Err(error),
    }
}

/// A request to the upstream, and what is noted of it.
pub struct Forward {
    /// The document, as text.
    pub body: String,
    /// The headers that it takes from the request that came, or why it is refused
    /// for its headers once it is noted.
    pub headers: Result<Vec<Header>, ProxyError>,
    pub model: String,
    pub message_count: usize,
    pub tool_count: usize,
    pub auth_source: &'static str,
}

/// What a request to the upstream says.
pub struct ForwardModel {
    pub body: Seq<char>,
    pub headers: Result<Seq<HeaderModel>, ErrorModel>,
    pub model: Seq<char>,
    pub message_count: nat,
    pub tool_count: nat,
    pub auth_source: Seq<char>,
}

impl View for Forward {
    type V = ForwardModel;

    open spec fn view(&self) -> ForwardModel {
        ForwardModel {
            body: self.body@,
            headers: headers::found(self.headers),
            model: self.model@,
            message_count: self.message_count as nat,
            tool_count: self.tool_count as nat,
            auth_source: self.auth_source@,
        }
    }
}

/// The number of items in a field.
pub open spec fn count(request: JsonModel, key: Seq<char>) -> nat {
    match request.array_field(key) {
        Some(items) => items.len(),
        None => 0,
    }
}

fn count_items(request: &Json, key: &str) -> (r: usize)
    ensures
        r == count(request@, key@),
{
    match request.array_field(key) {
        Some(items) => items.len(),
        None => 0,
    }
}

/// The request to the upstream for a request that was read and came with these
/// headers.
pub open spec fn forwarded(
    api_type: OpenAiType,
    fix: bool,
    incoming: Seq<HeaderModel>,
    parsed: Result<JsonModel, Seq<char>>,
) -> Result<ForwardModel, ErrorModel> {
    match prepared(api_type, fix, parsed) {
        Err(error) => Err(error),
        Ok(found) => Ok(
            ForwardModel {
                body: codec::json_text(found.upstream),
                headers: headers::request_headers(incoming),
                model: request::text_or(found.request.text_field("model"@), "unknown"@),
                message_count: count(found.request, "messages"@),
                tool_count: count(found.request, "tools"@),
                auth_source: headers::auth_source(incoming),
            },
        ),
    }
}

/// What forwarding a request gave, in terms of what it says.
pub open spec fn forward_model(result: Result<Forward, ProxyError>) -> Result<
    ForwardModel,
    ErrorModel,
> {
    match result {
        Ok(found) => Ok(found@),
        Err(error) => Err(error@),
    }
}

/// Makes the request to the upstream from the headers of the request that came and
/// what reading its body gave.
pub fn forward(
    state: &AppState,
    incoming: &Vec<Header>,
    parsed: Result<Json, String>,
) -> (r: Result<Forward, ProxyError>)
    ensures
        forward_model(r) == forwarded(
            state.openai_type,
            state.fix_system_message,
            headers::header_models(incoming@),
            codec::parsed(parsed),
        ),
{
    let found = match prepare(state, parsed) {
        Ok(found) => found,
        Err(error) => {
            return Err(error);
        },
    };
    let model = match found.request.text_field("model") {
        Some(name) => name.to_owned(),
        None => "unknown".to_owned(),
    };
    Ok(
        Forward {
            body: codec::to_text(&found.upstream),
            headers: headers::copy_request_headers(incoming),
            model,
            message_count: count_items(&found.request, "messages"),
            tool_count: count_items(&found.request, "tools"),
            auth_source: headers::find_auth_source(incoming),
        },
    )
}

/// Makes the request to the upstream from the headers and the body of the request
/// that came.
pub fn messages(state: &AppState, incoming: &Vec<Header>, body: &[u8]) -> (r: Result<
    Forward,
    ProxyError,
>)
    ensures
        forward_model(r) == forwarded(
            state.openai_type,
            state.fix_system_message,
            headers::header_models(incoming@),
            codec::json_parse_bytes(body@),
        ),
{
    forward(state, incoming, codec::parse_json_bytes(body))
}

/// How an answer of the upstream is taken.
pub enum Verdict {
    /// The upstream refuses; what it says goes into the reply.
    Refused,
    /// The answer is of the wrong kind.
    Wrong(ProxyError),
    /// The answer is a stream; it is passed back under these headers.
    Stream(Vec<Header>),
}

/// How an answer of the upstream is taken.
pub enum VerdictModel {
    Refused,
    Wrong(ErrorModel),
    Stream(Seq<HeaderModel>),
}

impl View for Verdict {
    type V = VerdictModel;

    open spec fn view(&self) -> VerdictModel {
        match *self {
            Verdict::Refused => VerdictModel::Refused,
            Verdict::Wrong(error) => VerdictModel::Wrong(error@),
            Verdict::Stream(list) => VerdictModel::Stream(headers::header_models(list@)),
        }
    }
}

/// Whether a status says that all is well.
pub open spec fn is_success(status: u16) -> bool {
    200 <= status < 300
}

/// Whether an answer says that it is a stream of events.
pub open spec fn is_event_stream(source: Seq<HeaderModel>) -> bool {
    text::has_part(
        text::lower(headers::text_of(source, "content-type"@, "unknown"@)),
        "text/event-stream"@,
    )
}

/// A header with a text as its value.
pub open spec fn plain_header(name: Seq<char>, value: Seq<char>) -> HeaderModel {
    HeaderModel { name, value: vstd::utf8::encode_utf8(value) }
}

/// The headers of a stream that is passed back.
pub open spec fn stream_headers(source: Seq<HeaderModel>) -> Seq<HeaderModel> {
    seq![
        plain_header("content-type"@, "text/event-stream"@),
        plain_header("cache-control"@, "no-cache"@),
        plain_header("connection"@, "keep-alive"@),
    ] + headers::firsts(source, headers::passed_back_names())
}

/// How an answer of the upstream with that status and these headers is taken.
pub open spec fn verdict(status: u16, source: Seq<HeaderModel>) -> VerdictModel {
    if !is_success(status) {
        VerdictModel::Refused
    } else if !is_event_stream(source) {
        VerdictModel::Wrong(
            ErrorModel::Transform("上游在 stream 模式下未返回 text/event-stream"@),
        )
    } else {
        VerdictModel::Stream(stream_headers(source))
    }
}

/// A header with a text as its value.
fn make_header(name: &str, value: &str) -> (r: Header)
    ensures
        r@ == plain_header(name@, value@),
{
    let mut bytes: Vec<u8> = Vec::new();
    bytes.extend_from_slice(value.as_bytes());
    assert(bytes@ =~= vstd::utf8::encode_utf8(value@));
    Header { name: name.to_owned(), value: bytes }
}

/// How an answer of the upstream with that status and these headers is taken.
pub fn judge(status: u16, source: &Vec<Header>) -> (r: Verdict)
    ensures
        r@ == verdict(status, headers::header_models(source@)),
{
    if status < 200 || status >= 300 {
        return Verdict::Refused;
    }
    let kind = headers::header_text(source, "content-type", "unknown");
    if !text::contains_text(text::lowercase(kind.as_str()).as_str(), "text/event-stream") {
        return Verdict::Wrong(
            ProxyError::Transform("上游在 stream 模式下未返回 text/event-stream".to_owned()),
        );
    }
    let mut list: Vec<Header> = Vec::new();
    list.push(make_header("content-type", "text/event-stream"));
    list.push(make_header("cache-control", "no-cache"));
    list.push(make_header("connection", "keep-alive"));
    let ghost first = list@;
    let mut more = headers::copy_response_headers(source);
    let ghost rest = more@;
    list.append(&mut more);
    proof {
        assert(headers::header_models(first) =~= seq![
            plain_header("content-type"@, "text/event-stream"@),
            plain_header("cache-control"@, "no-cache"@),
            plain_header("connection"@, "keep-alive"@),
        ]);
        assert(headers::header_models(list@) =~= headers::header_models(first)
            + headers::header_models(rest));
    }
    Verdict::Stream(list)
}

/// What is noted of a stream that is passed back.
pub struct StreamObservation {
    pub request_id: String,
    pub chunks: u64,
    pub bytes: usize,
    pub completed: bool,
}

impl StreamObservation {
    /// A stream of which nothing was passed back yet.
    pub fn new(request_id: String) -> (r: StreamObservation)
        ensures
            r.request_id == request_id,
            r.chunks == 0,
            r.bytes == 0,
            !r.completed,
    {
        StreamObservation { request_id, chunks: 0, bytes: 0, completed: false }
    }

    /// Notes one more chunk. The counts begin anew behind the greatest number.
    pub fn record(&mut self, len: usize)
        ensures
            final(self).chunks as int == (old(self).chunks + 1) % (u64::MAX + 1),
            final(self).bytes as int == (old(self).bytes + len) % (usize::MAX + 1),
            final(self).request_id == old(self).request_id,
            final(self).completed == old(self).completed,
    {
        self.chunks = self.chunks.wrapping_add(1);
        self.bytes = self.bytes.wrapping_add(len);
    }

    /// Notes that the stream has come to its end.
    pub fn complete(&mut self)
        ensures
            final(self).completed,
            final(self).chunks == old(self).chunks,
            final(self).bytes == old(self).bytes,
            final(self).request_id == old(self).request_id,
    {
        self.completed = true;
    }

    /// How the stream came to its end.
    pub fn outcome(&self) -> (r: &'static str)
        ensures
            r@ == (if self.completed {
                "completed"@
            } else {
                "client_disconnected"@
            }),
    {
        if self.completed {
            "completed"
        } else {
            "client_disconnected"
        }
    }
}

/// A request that does not ask for a stream is refused as one that is at fault,
/// whatever else it says.
pub proof fn law_only_streams(
    api_type: OpenAiType,
    fix: bool,
    incoming: Seq<HeaderModel>,
    value: JsonModel,
)
    requires
        value.bool_field("stream"@) != Some(true),
    ensures
        forwarded(api_type, fix, incoming, Ok(value)) is Err,
        forwarded(api_type, fix, incoming, Ok(value))->Err_0.reply().status == 400,
{
}

/// Every failure before the upstream is asked is a fault of the request.
pub proof fn law_refusals_are_faults_of_the_request(
    api_type: OpenAiType,
    fix: bool,
    incoming: Seq<HeaderModel>,
    parsed: Result<JsonModel, Seq<char>>,
)
    ensures
        forwarded(api_type, fix, incoming, parsed) matches Err(error) ==> error is InvalidRequest
            && error.reply().status == 400,
        headers::request_headers(incoming) matches Err(error) ==> error is InvalidRequest
            && error.reply().status == 400,
{
}

/// Requests of different numbers have different names.
pub proof fn law_request_names_differ(a: u64, b: u64)
    requires
        request_name(a) == request_name(b),
    ensures
        a == b,
{
    reveal_strlit("req-");
    let x = text::hex(a as nat, 16);
    let y = text::hex(b as nat, 16);
    assert(request_name(a).skip(4) =~= x);
    assert(request_name(b).skip(4) =~= y);
    assert(vstd::arithmetic::power::pow(16, 16) == 0x1_0000_0000_0000_0000) by {
        reveal(vstd::arithmetic::power::pow);
        reveal_with_fuel(vstd::arithmetic::power::pow, 17);
    }
    text::lemma_hex_differs(a as nat, b as nat, 16);
}

/// The numbers that a counter gives follow one another.
pub proof fn law_numbers_follow(number: u64, steps: nat)
    ensures
        number_after(number_after(number, steps), 1) == number_after(number, steps + 1),
        number_after(number, 0) == number,
{
    let sum = number + steps;
    vstd::arithmetic::div_mod::lemma_add_mod_noop(sum as int, 1, 0x1_0000_0000_0000_0000);
}

/// Two requests that come to one counter have different names, as long as fewer come
/// than there are numbers.
pub proof fn law_requests_have_different_names(number: u64, first: nat, second: nat)
    requires
        first < second < 0x1_0000_0000_0000_0000,
    ensures
        request_name(number_after(number, first)) != request_name(number_after(number, second)),
{
    let a = number_after(number, first);
    let b = number_after(number, second);
    assert(a != b);
    if request_name(a) == request_name(b) {
        law_request_names_differ(a, b);
    }
}

}
