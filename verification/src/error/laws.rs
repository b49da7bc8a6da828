//! What replies to failures say.
use vstd::prelude::*;

use crate::error::{self, ErrorModel};
use crate::json::codec;
use crate::json::JsonModel;
use crate::text;

verus! {

/// Each failure is told in its own words, with the message behind them, and answered
/// with its own status and kind: a fault of the request with 400, one of the upstream
/// with 502.
pub proof fn law_reply_to_a_failure(message: Seq<char>)
    ensures
        ({
            let reply = ErrorModel::InvalidRequest(message).reply();
            &&& reply.status == 400
            &&& reply.body.nested_text("error"@, "type"@) == Some("invalid_request_error"@)
            &&& reply.body.nested_text("error"@, "message"@) == Some("请求格式错误: "@ + message)
        }),
        ({
            let reply = ErrorModel::Upstream(message).reply();
            &&& reply.status == 502
            &&& reply.body.nested_text("error"@, "type"@) == Some("api_error"@)
            &&& reply.body.nested_text("error"@, "message"@) == Some("上游请求失败: "@ + message)
        }),
        ({
            let reply = ErrorModel::Transform(message).reply();
            &&& reply.status == 502
            &&& reply.body.nested_text("error"@, "type"@) == Some("api_error"@)
            &&& reply.body.nested_text("error"@, "message"@) == Some("协议转换失败: "@ + message)
        }),
{
    error::law_error_form(400, "invalid_request_error"@, "请求格式错误: "@ + message);
    error::law_error_form(502, "api_error"@, "上游请求失败: "@ + message);
    error::law_error_form(502, "api_error"@, "协议转换失败: "@ + message);
}

/// A reply holds its type and its error, and the error its kind and its message, and
/// nothing else.
pub proof fn law_reply_holds_nothing_else(status: u16, kind: Seq<char>, message: Seq<char>)
    ensures
        ({
            let body = error::error_reply(status, kind, message).body;
            &&& forall|k: Seq<char>| #[trigger]
                body.field(k) is Some ==> k == "type"@ || k == "error"@
            &&& forall|k: Seq<char>| #[trigger]
                body.nested("error"@, k) is Some ==> k == "type"@ || k == "message"@
        }),
{
}

/// The kind of error that each status of an upstream stands for.
pub proof fn law_kinds_of_statuses(status: u16)
    ensures
        error::kind_of_status(400) == "invalid_request_error"@,
        error::kind_of_status(422) == "invalid_request_error"@,
        error::kind_of_status(401) == "authentication_error"@,
        error::kind_of_status(403) == "permission_error"@,
        error::kind_of_status(404) == "not_found_error"@,
        error::kind_of_status(429) == "rate_limit_error"@,
        status != 400 && status != 422 && status != 401 && status != 403 && status != 404 && status
            != 429 ==> error::kind_of_status(status) == "api_error"@,
{
}

/// What an upstream says went wrong: the text at `message` of its `error`, or where there
/// is no such field the text at its own `message`; or else all it said, without the white
/// space around it; or where that is nothing, its status.
pub proof fn law_message_of_an_upstream(value: JsonModel, raw: Seq<char>, line: Seq<char>)
    ensures
        ({
            let told = error::upstream_message(Some(value), raw, line);
            let plain = error::upstream_message(None, raw, line);
            let inner = value.nested("error"@, "message"@);
            &&& inner matches Some(JsonModel::Text(t)) ==> t.len() > 0 ==> told == t
            &&& inner is None ==> (value.text_field("message"@) matches Some(t) ==> t.len() > 0
                ==> told == t)
            &&& inner is None && value.text_field("message"@) is None ==> told == plain
            &&& inner matches Some(found) ==> !(found is Text) ==> told == plain
            &&& inner matches Some(JsonModel::Text(t)) ==> t.len() == 0 ==> told
                == "上游返回 HTTP "@ + line
            &&& inner is None ==> (value.text_field("message"@) matches Some(t) ==> t.len() == 0
                ==> told == "上游返回 HTTP "@ + line)
            &&& text::trim_both(raw).len() > 0 ==> plain == text::trim_both(raw)
            &&& text::trim_both(raw).len() == 0 ==> plain == "上游返回 HTTP "@ + line
        }),
{
}

/// The reply for an error of an upstream keeps its status, is of the kind that the status
/// stands for, and tells what the upstream said: by its document where what it said is
/// one, and else as text.
pub proof fn law_reply_of_an_upstream(status: u16, body: Seq<u8>)
    ensures
        ({
            let reply = error::reply_of_upstream(status, body);
            let raw = text::lossy_text(body);
            let line = error::status_line(status);
            &&& reply.status == status
            &&& reply.body.text_field("type"@) == Some("error"@)
            &&& reply.body.nested_text("error"@, "type"@) == Some(error::kind_of_status(status))
            &&& match codec::json_parse_bytes(body) {
                Ok(value) => reply.body.nested_text("error"@, "message"@) == Some(
                    error::upstream_message(Some(value), raw, line),
                ),
                Err(_) => reply.body.nested_text("error"@, "message"@) == Some(
                    error::upstream_message(None, raw, line),
                ),
            }
        }),
{
    let raw = text::lossy_text(body);
    let line = error::status_line(status);
    let kind = error::kind_of_status(status);
    match codec::json_parse_bytes(body) {
        Ok(value) => {
            error::law_error_form(
                status,
                kind,
                error::upstream_message(Some(value), raw, line),
            );
        },
        Err(_) => {
            error::law_error_form(status, kind, error::upstream_message(None, raw, line));
        },
    }
}

}
