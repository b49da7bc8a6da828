//! What the proxy does with requests and answers.
use claude_proxy::error::{anthropic_error, upstream_error, ProxyError};
use claude_proxy::headers::{copy_request_headers, copy_response_headers, Header};
use claude_proxy::json::codec::{parse_json, to_text};
use claude_proxy::openai::OpenAiType;
use claude_proxy::proxy::{
    access_log, health, judge, messages, not_found, response_bytes, AppState, RequestCounter,
    RequestId, StreamObservation, Verdict,
};
use claude_proxy::upstream::{
    check_base_url, configure_upstream, endpoint_path, parse_base_url, upstream_url,
};
use url::Url;

fn state(openai_type: OpenAiType, fix_system_message: bool) -> AppState {
    AppState {
        openai_type,
        upstream_url: Url::parse("https://example.com/v1/responses").unwrap(),
        fix_system_message,
    }
}

fn header(name: &str, value: &str) -> Header {
    Header { name: name.to_string(), value: value.as_bytes().to_vec() }
}

fn refusal(body: &str, list: &Vec<Header>) -> ProxyError {
    match messages(&state(OpenAiType::Chat, true), list, body.as_bytes()) {
        Ok(forward) => forward.headers.unwrap_err(),
        Err(error) => error,
    }
}

#[test]
fn builds_endpoint_from_root_and_v1_base_urls() {
    let root = Url::parse("https://example.com").unwrap();
    assert_eq!(
        upstream_url(&root, OpenAiType::Responses).unwrap().as_str(),
        "https://example.com/v1/responses"
    );
    let v1 = Url::parse("https://example.com/openai/v1?api-version=1").unwrap();
    assert_eq!(
        upstream_url(&v1, OpenAiType::Chat).unwrap().as_str(),
        "https://example.com/openai/v1/chat/completions?api-version=1"
    );
}

#[test]
fn does_not_duplicate_complete_endpoint() {
    let full = Url::parse("https://example.com/v1/responses").unwrap();
    assert_eq!(upstream_url(&full, OpenAiType::Responses).unwrap(), full);
}

#[test]
fn paths_end_in_the_endpoint() {
    assert_eq!(endpoint_path("/", OpenAiType::Chat), "/v1/chat/completions");
    assert_eq!(endpoint_path("/v1//", OpenAiType::Chat), "/v1/chat/completions");
    assert_eq!(
        endpoint_path("/v1/chat/completions/", OpenAiType::Chat),
        "/v1/chat/completions"
    );
    assert_eq!(
        endpoint_path("/v1/responses", OpenAiType::Chat),
        "/v1/responses/chat/completions"
    );
}

#[test]
fn only_the_path_of_an_address_changes() {
    let base = Url::parse("https://u:p@example.com:8443/a%20b/../c/?q=1#f").unwrap();
    let once = upstream_url(&base, OpenAiType::Chat).unwrap();
    assert_eq!(
        once.as_str(),
        "https://u:p@example.com:8443/c/chat/completions?q=1#f"
    );
    assert_eq!(upstream_url(&once, OpenAiType::Chat).unwrap(), once);
    let odd = Url::parse("http://h/x%2F{y}/~!$&'()*+,;=:@|^").unwrap();
    let odd_once = upstream_url(&odd, OpenAiType::Responses).unwrap();
    assert_eq!(
        odd_once.as_str(),
        "http://h/x%2F%7By%7D/~!$&'()*+,;=:@|^/responses"
    );
    assert_eq!(upstream_url(&odd_once, OpenAiType::Responses).unwrap(), odd_once);
}

#[test]
fn only_addresses_of_the_web_will_do() {
    assert_eq!(
        parse_base_url("https://api.openai.com/v1").unwrap().as_str(),
        "https://api.openai.com/v1"
    );
    assert_eq!(
        parse_base_url("ftp://x/").unwrap_err(),
        "base_url 只支持 http 或 https"
    );
    assert_eq!(
        parse_base_url("nothing").unwrap_err(),
        "base_url 无效: relative URL without a base"
    );
    assert_eq!(
        check_base_url(Err("e".to_string())).unwrap_err(),
        "base_url 无效: e"
    );
    let mail = Url::parse("mailto:a@b").unwrap();
    assert_eq!(
        upstream_url(&mail, OpenAiType::Chat).unwrap_err(),
        "base_url 必须是有效的 http(s) URL"
    );
    assert_eq!(
        configure_upstream("http://h:8/", OpenAiType::Chat).unwrap().unwrap().as_str(),
        "http://h:8/v1/chat/completions"
    );
    assert_eq!(
        configure_upstream("mailto:a@b", OpenAiType::Chat).unwrap().unwrap_err(),
        "base_url 只支持 http 或 https"
    );
}

#[test]
fn requests_are_forwarded() {
    let body = r#"{"model":"m","stream":true,"tools":[{"name":"a"},{"name":"b"}],
        "messages":[{"role":"user","content":"u"},{"role":"system","content":"s"}]}"#;
    let list = vec![header("x-api-key", "k"), header("X-Custom", "1")];
    let forward = messages(&state(OpenAiType::Responses, true), &list, body.as_bytes());
    let forward = match forward {
        Ok(forward) => forward,
        Err(error) => panic!("{}", error.message()),
    };
    assert_eq!(
        forward.body,
        to_text(
            &parse_json(
                r#"{"model":"m","stream":true,"instructions":"s",
                    "input":[{"role":"user","content":[{"type":"input_text","text":"u"}]}],
                    "tools":[{"type":"function","name":"a","parameters":{"type":"object"}},
                        {"type":"function","name":"b","parameters":{"type":"object"}}]}"#
            )
            .unwrap()
        )
    );
    assert_eq!(forward.model, "m");
    assert_eq!(forward.message_count, 1);
    assert_eq!(forward.tool_count, 2);
    assert_eq!(forward.auth_source, "x-api-key");
    assert_eq!(
        forward.headers.unwrap(),
        vec![header("authorization", "Bearer k"), header("X-Custom", "1")]
    );
    let kept = messages(&state(OpenAiType::Chat, false), &vec![], body.as_bytes());
    match kept {
        Ok(forward) => {
            assert_eq!(forward.message_count, 2);
            assert_eq!(forward.auth_source, "none");
        }
        Err(error) => panic!("{}", error.message()),
    }
}

#[test]
fn requests_at_fault_are_refused() {
    let none = vec![];
    let plain = refusal(r#"{"model":"m","messages":[],"stream":false}"#, &none);
    assert_eq!(
        plain,
        ProxyError::InvalidRequest("本代理只支持流式请求，请设置 stream: true".to_string())
    );
    assert_eq!(plain.response().status, 400);
    assert_eq!(
        refusal(r#"{"model":"m","messages":[]}"#, &none),
        ProxyError::InvalidRequest("本代理只支持流式请求，请设置 stream: true".to_string())
    );
    assert_eq!(
        refusal(r#"{"stream":true}"#, &none),
        ProxyError::InvalidRequest("缺少字符串字段 model".to_string())
    );
    match refusal("[", &none) {
        ProxyError::InvalidRequest(message) => {
            assert!(message.starts_with("JSON 无效: EOF while parsing"))
        }
        other => panic!("{}", other.message()),
    }
    let bad = vec![Header { name: "x-api-key".to_string(), value: vec![200] }];
    assert_eq!(
        refusal(r#"{"model":"m","messages":[],"stream":true}"#, &bad),
        ProxyError::InvalidRequest("x-api-key 不是有效字符串".to_string())
    );
}

#[test]
fn only_some_headers_are_passed_on() {
    let incoming = vec![
        header("host", "h"),
        header("authorization", "Basic z"),
        header("x-api-key", "k"),
        header("x-anthropic-version", "v"),
        header("openai-organization", "o"),
        header("openai-project", "p"),
        header("x-a", "1"),
        header("x-a", "2"),
        header("anthropic-beta", "b"),
    ];
    assert_eq!(
        copy_request_headers(&incoming).unwrap(),
        vec![
            header("authorization", "Basic z"),
            header("openai-organization", "o"),
            header("openai-project", "p"),
            header("x-a", "1"),
            header("x-a", "2"),
        ]
    );
    assert_eq!(copy_request_headers(&vec![]).unwrap(), Vec::<Header>::new());
}

#[test]
fn only_some_headers_are_passed_back() {
    let source = vec![
        header("retry-after", "3"),
        header("x-request-id", "r"),
        header("x-request-id", "s"),
        header("set-cookie", "c"),
    ];
    assert_eq!(
        copy_response_headers(&source),
        vec![header("x-request-id", "r"), header("retry-after", "3")]
    );
}

#[test]
fn answers_are_judged() {
    let stream = vec![header("content-type", "Text/Event-Stream; charset=utf-8")];
    assert!(matches!(judge(500, &stream), Verdict::Refused));
    assert!(matches!(judge(300, &stream), Verdict::Refused));
    match judge(200, &stream) {
        Verdict::Stream(list) => assert_eq!(
            list,
            vec![
                header("content-type", "text/event-stream"),
                header("cache-control", "no-cache"),
                header("connection", "keep-alive"),
            ]
        ),
        _ => panic!("a stream"),
    }
    match judge(200, &vec![header("content-type", "application/json")]) {
        Verdict::Wrong(error) => {
            assert_eq!(
                error.message(),
                "协议转换失败: 上游在 stream 模式下未返回 text/event-stream"
            );
            assert_eq!(error.response().status, 502);
        }
        _ => panic!("an answer of the wrong kind"),
    }
    assert!(matches!(judge(204, &vec![]), Verdict::Wrong(_)));
}

#[test]
fn errors_have_the_form_of_anthropic() {
    let reply = anthropic_error(418, "k", "m".to_string());
    assert_eq!(reply.status, 418);
    assert_eq!(
        to_text(&reply.body),
        r#"{"error":{"message":"m","type":"k"},"type":"error"}"#
    );
    let upstream = ProxyError::Upstream("u".to_string()).response();
    assert_eq!(upstream.status, 502);
    assert_eq!(
        to_text(&upstream.body),
        r#"{"error":{"message":"上游请求失败: u","type":"api_error"},"type":"error"}"#
    );
    let fault = ProxyError::InvalidRequest("f".to_string()).response();
    assert_eq!(
        to_text(&fault.body),
        r#"{"error":{"message":"请求格式错误: f","type":"invalid_request_error"},"type":"error"}"#
    );
    let lost = not_found();
    assert_eq!(lost.status, 404);
    assert_eq!(
        lost.body.nested_text("error", "message"),
        Some("仅支持 POST /v1/messages（兼容路径：POST /messages）")
    );
}

#[test]
fn errors_of_the_upstream_are_told() {
    let told = |status: u16, body: &[u8]| {
        let reply = upstream_error(status, body);
        assert_eq!(reply.status, status);
        (
            reply.body.nested_text("error", "type").unwrap().to_string(),
            reply.body.nested_text("error", "message").unwrap().to_string(),
        )
    };
    let pair = |kind: &str, message: &str| (kind.to_string(), message.to_string());
    assert_eq!(
        told(429, br#"{"error":{"message":"slow"},"message":"x"}"#),
        pair("rate_limit_error", "slow")
    );
    assert_eq!(told(401, br#"{"message":"key"}"#), pair("authentication_error", "key"));
    assert_eq!(told(403, b"  no \n"), pair("permission_error", "no"));
    assert_eq!(
        told(404, br#"{"error":{"message":3}}"#),
        pair("not_found_error", r#"{"error":{"message":3}}"#)
    );
    assert_eq!(told(400, b"\xff"), pair("invalid_request_error", "\u{fffd}"));
    assert_eq!(told(422, b"a"), pair("invalid_request_error", "a"));
    assert_eq!(
        told(500, b" "),
        pair("api_error", "上游返回 HTTP 500 Internal Server Error")
    );
    assert_eq!(
        told(999, b""),
        pair("api_error", "上游返回 HTTP 999 <unknown status code>")
    );
}

#[test]
fn the_proxy_is_well() {
    assert_eq!(
        to_text(&health(&state(OpenAiType::Chat, true))),
        r#"{"openai_type":"Chat","status":"ok"}"#
    );
    assert_eq!(
        to_text(&health(&state(OpenAiType::Responses, true))),
        r#"{"openai_type":"Responses","status":"ok"}"#
    );
}

#[test]
fn requests_are_noted() {
    assert_eq!(RequestId::new(255).0, "req-00000000000000ff");
    assert_eq!(RequestId::new(u64::MAX).0, "req-ffffffffffffffff");
    let record = access_log(1, None, &vec![header("user-agent", "curl")]);
    assert_eq!(record.request_id.0, "req-0000000000000001");
    assert_eq!(record.client, "unknown");
    assert_eq!(record.user_agent, "curl");
    assert_eq!(record.request_bytes, "unknown");
    let other = access_log(2, Some("127.0.0.1:9".to_string()), &vec![header("content-length", "7")]);
    assert_eq!(other.client, "127.0.0.1:9");
    assert_eq!(other.user_agent, "-");
    assert_eq!(other.request_bytes, "7");
}

#[test]
fn requests_get_numbers_of_their_own() {
    let mut counter = RequestCounter::new();
    let names: Vec<String> = (0..3).map(|_| RequestId::new(counter.take()).0).collect();
    assert_eq!(
        names,
        vec!["req-0000000000000001", "req-0000000000000002", "req-0000000000000003"]
    );
}

#[test]
fn sizes_of_answers_are_noted() {
    assert_eq!(response_bytes(&vec![header("content-length", "12")], Some(3)), "12");
    assert_eq!(response_bytes(&vec![], Some(30)), "30");
    assert_eq!(response_bytes(&vec![], None), "streaming");
}

#[test]
fn streams_are_observed() {
    let mut observation = StreamObservation::new("req-1".to_string());
    assert_eq!(observation.outcome(), "client_disconnected");
    observation.record(10);
    observation.record(5);
    assert_eq!((observation.chunks, observation.bytes), (2, 15));
    observation.complete();
    assert_eq!(observation.outcome(), "completed");
    assert_eq!(observation.request_id, "req-1");
}
