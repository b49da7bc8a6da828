//! What can go wrong with a request, and the reply that says so.
use vstd::prelude::*;

use crate::json::codec;
use crate::json::{self, Fields, Json, JsonModel};
use crate::text;

pub mod laws;

verus! {

/// Why a request failed.
#[derive(Debug, PartialEq, Eq)]
pub enum ProxyError {
    /// The request was not well formed.
    InvalidRequest(String),
    /// The service behind the proxy could not be asked.
    Upstream(String),
    /// The answer of that service was of the wrong kind.
    Transform(String),
}

/// What a `ProxyError` says.
pub enum ErrorModel {
    InvalidRequest(Seq<char>),
    Upstream(Seq<char>),
    Transform(Seq<char>),
}

impl View for ProxyError {
    type V = ErrorModel;

    open spec fn view(&self) -> ErrorModel {
        match self {
            ProxyError::InvalidRequest(message) => ErrorModel::InvalidRequest(message@),
            ProxyError::Upstream(message) => ErrorModel::Upstream(message@),
            ProxyError::Transform(message) => ErrorModel::Transform(message@),
        }
    }
}

/// A reply that says what went wrong: a status of HTTP and a document.
#[derive(Debug)]
pub struct ErrorReply {
    pub status: u16,
    pub body: Json,
}

/// What an error reply says.
pub struct ReplyModel {
    pub status: u16,
    pub body: JsonModel,
}

impl View for ErrorReply {
    type V = ReplyModel;

    open spec fn view(&self) -> ReplyModel {
        ReplyModel { status: self.status, body: self.body@ }
    }
}

/// The document of an error in the form of Anthropic.
pub open spec fn error_body(kind: Seq<char>, message: Seq<char>) -> JsonModel {
    JsonModel::Object(
        Map::empty().insert("type"@, JsonModel::Text("error"@)).insert(
            "error"@,
            JsonModel::Object(
                Map::empty().insert("type"@, JsonModel::Text(kind)).insert(
                    "message"@,
                    JsonModel::Text(message),
                ),
            ),
        ),
    )
}

/// An error reply in the form of Anthropic.
pub open spec fn error_reply(status: u16, kind: Seq<char>, message: Seq<char>) -> ReplyModel {
    ReplyModel { status, body: error_body(kind, message) }
}

/// An error reply in the form of Anthropic.
pub fn anthropic_error(status: u16, error_type: &str, message: String) -> (r: ErrorReply)
    ensures
        r@ == error_reply(status, error_type@, message@),
{
    ErrorReply {
        status,
        body: Json::Object(
            Fields::new().with("type", Json::text("error")).with(
                "error",
                Json::Object(
                    Fields::new().with("type", Json::text(error_type)).with(
                        "message",
                        Json::Text(message),
                    ),
                ),
            ),
        ),
    }
}

impl ErrorModel {
    /// The error in words.
    pub open spec fn words(self) -> Seq<char> {
        match self {
            ErrorModel::InvalidRequest(message) => "请求格式错误: "@ + message,
            ErrorModel::Upstream(message) => "上游请求失败: "@ + message,
            ErrorModel::Transform(message) => "协议转换失败: "@ + message,
        }
    }

    /// The reply to a request that failed so.
    pub open spec fn reply(self) -> ReplyModel {
        match self {
            ErrorModel::InvalidRequest(_) => error_reply(
                400,
                "invalid_request_error"@,
                self.words(),
            ),
            ErrorModel::Upstream(_) => error_reply(502, "api_error"@, self.words()),
            ErrorModel::Transform(_) => error_reply(502, "api_error"@, self.words()),
        }
    }
}

impl ProxyError {
    /// The error in words.
    pub fn message(&self) -> (r: String)
        ensures
            r@ == self@.words(),
    {
        match self {
            ProxyError::InvalidRequest(message) => text::concat("请求格式错误: ", message.as_str()),
            ProxyError::Upstream(message) => text::concat("上游请求失败: ", message.as_str()),
            ProxyError::Transform(message) => text::concat("协议转换失败: ", message.as_str()),
        }
    }

    /// The reply to a request that failed so.
    pub fn response(self) -> (r: ErrorReply)
        ensures
            r@ == self@.reply(),
    {
        let message = self.message();
        match self {
            ProxyError::InvalidRequest(_) => anthropic_error(400, "invalid_request_error", message),
            ProxyError::Upstream(_) => anthropic_error(502, "api_error", message),
            ProxyError::Transform(_) => anthropic_error(502, "api_error", message),
        }
    }
}

/// How a status of HTTP is written: its number and the phrase that goes with it.
pub uninterp spec fn status_line(status: u16) -> Seq<char>;

/// `http::StatusCode`, as text: the text depends on the number alone, and begins
/// with it in base ten and a blank. The phrase behind it is left unsaid. There is
/// a status for every number of three digits.
#[verifier::external_body]
fn status_text(status: u16) -> (r: String)
    requires
        100 <= status <= 999,
    ensures
        r@ == status_line(status),
        text::begins_with(r@, text::decimal(status as nat).push(' ')),
{
    axum::http::StatusCode::from_u16(status).expect("a status of three digits").to_string()
}

/// The kind of error that a status of an upstream service stands for.
pub open spec fn kind_of_status(status: u16) -> Seq<char> {
    if status == 400 || status == 422 {
        "invalid_request_error"@
    } else if status == 401 {
        "authentication_error"@
    } else if status == 403 {
        "permission_error"@
    } else if status == 404 {
        "not_found_error"@
    } else if status == 429 {
        "rate_limit_error"@
    } else {
        "api_error"@
    }
}

/// The message in the document of an upstream service.
pub open spec fn told_message(value: JsonModel) -> Option<Seq<char>> {
    match value.nested("error"@, "message"@) {
        Some(message) => message.as_text(),
        None => value.text_field("message"@),
    }
}

/// What an upstream service says went wrong: the message in its document, or
/// else all that it said, or else its status.
pub open spec fn upstream_message(
    parsed: Option<JsonModel>,
    raw: Seq<char>,
    line: Seq<char>,
) -> Seq<char> {
    let told = match parsed {
        Some(value) => told_message(value),
        None => None,
    };
    let message = match told {
        Some(message) => message,
        None => text::trim_both(raw),
    };
    if message.len() == 0 {
        "上游返回 HTTP "@ + line
    } else {
        message
    }
}

/// The reply for an error of an upstream service: its status, its document where
/// what it said is one, what it said as text, and how its status is written.
pub fn upstream_reply(status: u16, parsed: Option<&Json>, raw: &str, line: &str) -> (r: ErrorReply)
    ensures
        r@ == error_reply(
            status,
            kind_of_status(status),
            upstream_message(json::json_ref(parsed), raw@, line@),
        ),
{
    let told = match parsed {
        Some(value) => match value.nested("error", "message") {
            Some(message) => message.as_str(),
            None => value.text_field("message"),
        },
        None => None,
    };
    let found = match told {
        Some(message) => message,
        None => text::trim(raw),
    };
    let message = if found.is_empty() {
        text::concat("上游返回 HTTP ", line)
    } else {
        found.to_owned()
    };
    let error_type = if status == 400 || status == 422 {
        "invalid_request_error"
    } else if status == 401 {
        "authentication_error"
    } else if status == 403 {
        "permission_error"
    } else if status == 404 {
        "not_found_error"
    } else if status == 429 {
        "rate_limit_error"
    } else {
        "api_error"
    };
    anthropic_error(status, error_type, message)
}

/// The reply for an error of an upstream service, from its status and what it said.
pub open spec fn reply_of_upstream(status: u16, body: Seq<u8>) -> ReplyModel {
    error_reply(
        status,
        kind_of_status(status),
        upstream_message(
            match codec::json_parse_bytes(body) {
                Ok(value) => Some(value),
                Err(_) => None,
            },
            text::lossy_text(body),
            status_line(status),
        ),
    )
}

/// The reply for an error of an upstream service, from its status and what it
/// said.
pub fn upstream_error(status: u16, body: &[u8]) -> (r: ErrorReply)
    requires
        100 <= status <= 999,
    ensures
        r@ == reply_of_upstream(status, body@),
{
    let raw = text::decode_lossy(body);
    let line = status_text(status);
    match codec::parse_json_bytes(body) {
        Ok(value) => upstream_reply(status, Some(&value), raw.as_str(), line.as_str()),
        Err(_) => upstream_reply(status, None, raw.as_str(), line.as_str()),
    }
}

/// An error reply has the form that Anthropic gives errors: its type says that it
/// is one, and below it stand the kind of error and a message.
pub proof fn law_error_form(status: u16, kind: Seq<char>, message: Seq<char>)
    ensures
        error_reply(status, kind, message).status == status,
        error_reply(status, kind, message).body.text_field("type"@) == Some("error"@),
        error_reply(status, kind, message).body.nested_text("error"@, "type"@) == Some(kind),
        error_reply(status, kind, message).body.nested_text("error"@, "message"@) == Some(message),
{
    reveal_strlit("type");
    reveal_strlit("error");
    reveal_strlit("message");
    assert("type"@.len() != "error"@.len());
    assert("type"@.len() != "message"@.len());
}

/// There is always a message for an error of an upstream service.
pub proof fn law_upstream_message_is_never_empty(
    parsed: Option<JsonModel>,
    raw: Seq<char>,
    line: Seq<char>,
)
    ensures
        upstream_message(parsed, raw, line).len() > 0,
{
    reveal_strlit("上游返回 HTTP ");
}

/// A request that is at fault is answered with a status of its own; every other
/// failure is one of the upstream.
pub proof fn law_status_of_error(error: ErrorModel)
    ensures
        error.reply().status == (if error is InvalidRequest {
            400u16
        } else {
            502u16
        }),
{
}

}
