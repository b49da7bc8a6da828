//! Requests and their conversion.
use claude_proxy::error::ProxyError;
use claude_proxy::json::codec::{parse_json, to_text};
use claude_proxy::json::Json;
use claude_proxy::transform::content::{
    anthropic_document, anthropic_image_url, strip_billing_header, text_from_content,
    tool_result_text,
};
use claude_proxy::transform::options::{
    chat_tool_choice, is_o_series, reasoning_effort, responses_tool_choice, supports_reasoning,
};
use claude_proxy::transform::{
    anthropic_to_chat, anthropic_to_responses, chat_usage, fix_system_message_order, map_chat_stop,
    responses_usage,
};

fn document(text: &str) -> Json {
    parse_json(text).unwrap()
}

fn normal(text: &str) -> String {
    to_text(&document(text))
}

fn item<'a>(json: &'a Json, index: usize) -> &'a Json {
    &json.as_array().unwrap()[index]
}

#[test]
fn converts_anthropic_tools_to_chat() {
    let source = document(
        r#"{
            "model":"gpt-4o", "max_tokens":100, "stream":true,
            "system":"be useful",
            "messages":[
                {"role":"assistant","content":[{"type":"tool_use","id":"call_1","name":"weather","input":{"city":"上海"}}]},
                {"role":"user","content":[{"type":"tool_result","tool_use_id":"call_1","content":"晴"}]}
            ],
            "tools":[{"name":"weather","description":"天气","input_schema":{"type":"object"}}]
        }"#,
    );
    let result = anthropic_to_chat(&source).unwrap();
    let messages = result.get("messages").unwrap();
    let calls = item(messages, 1).get("tool_calls").unwrap();
    assert_eq!(item(calls, 0).nested_text("function", "name"), Some("weather"));
    assert_eq!(item(messages, 2).text_field("role"), Some("tool"));
    assert_eq!(
        result.get("stream_options").unwrap().bool_field("include_usage"),
        Some(true)
    );
    assert_eq!(
        to_text(&result),
        normal(
            r#"{
                "model":"gpt-4o", "max_tokens":100, "stream":true,
                "stream_options":{"include_usage":true},
                "messages":[
                    {"role":"system","content":"be useful"},
                    {"role":"assistant","content":null,"tool_calls":[
                        {"id":"call_1","type":"function","function":{"name":"weather","arguments":"{\"city\":\"上海\"}"}}
                    ]},
                    {"role":"tool","tool_call_id":"call_1","content":"晴"}
                ],
                "tools":[{"type":"function","function":{
                    "name":"weather","description":"天气","parameters":{"type":"object"}}}]
            }"#
        )
    );
}

#[test]
fn converts_anthropic_tools_to_responses() {
    let source = document(
        r#"{
            "model":"gpt-5", "max_tokens":8, "stream":true,
            "messages":[
                {"role":"assistant","content":[{"type":"tool_use","id":"call_1","name":"lookup","input":{"q":"rust"}}]},
                {"role":"user","content":[{"type":"tool_result","tool_use_id":"call_1","content":"result"}]}
            ]
        }"#,
    );
    let result = anthropic_to_responses(&source).unwrap();
    let input = result.get("input").unwrap();
    assert_eq!(item(input, 0).text_field("type"), Some("function_call"));
    assert_eq!(item(input, 1).text_field("type"), Some("function_call_output"));
    assert_eq!(result.u64_field("max_output_tokens"), Some(16));
    assert_eq!(result.bool_field("stream"), Some(true));
}

#[test]
fn moves_all_system_messages_to_the_beginning() {
    let mut source = document(
        r#"{
            "model":"gpt-4o", "stream":true,
            "system":"top-level",
            "messages":[
                {"role":"user","content":"first"},
                {"role":"system","content":"middle"},
                {"role":"assistant","content":"answer"},
                {"role":"system","content":[{"type":"text","text":"last"}]}
            ]
        }"#,
    );

    fix_system_message_order(&mut source);
    assert_eq!(source.text_field("system"), Some("top-level\n\nmiddle\n\nlast"));
    assert_eq!(source.array_field("messages").unwrap().len(), 2);

    let chat = anthropic_to_chat(&source).unwrap();
    let messages = chat.get("messages").unwrap();
    assert_eq!(item(messages, 0).text_field("role"), Some("system"));
    assert_eq!(item(messages, 1).text_field("role"), Some("user"));
    assert_eq!(item(messages, 2).text_field("role"), Some("assistant"));

    let responses = anthropic_to_responses(&source).unwrap();
    assert_eq!(
        responses.text_field("instructions"),
        Some("top-level\n\nmiddle\n\nlast")
    );
}

#[test]
fn moving_system_messages_twice_changes_nothing_more() {
    let mut source = document(
        r#"{"messages":[{"role":"system","content":"a"},{"role":"user","content":"b"}],"k":1}"#,
    );
    fix_system_message_order(&mut source);
    let once = to_text(&source);
    assert_eq!(
        once,
        normal(r#"{"messages":[{"role":"user","content":"b"}],"k":1,"system":"a"}"#)
    );
    fix_system_message_order(&mut source);
    assert_eq!(to_text(&source), once);
}

#[test]
fn moving_system_messages_leaves_what_has_none() {
    let mut list = document("[1,2]");
    fix_system_message_order(&mut list);
    assert_eq!(to_text(&list), "[1,2]");
    let mut empty = document(r#"{"system":"","messages":[{"role":"system","content":""}]}"#);
    fix_system_message_order(&mut empty);
    assert_eq!(to_text(&empty), normal(r#"{"system":"","messages":[]}"#));
    let mut strange = document(r#"{"messages":"none"}"#);
    fix_system_message_order(&mut strange);
    assert_eq!(to_text(&strange), normal(r#"{"messages":"none"}"#));
}

#[test]
fn requests_without_model_or_messages_are_refused() {
    let no_model = document(r#"{"messages":[]}"#);
    assert_eq!(
        anthropic_to_chat(&no_model).unwrap_err(),
        ProxyError::InvalidRequest("缺少字符串字段 model".to_string())
    );
    let no_messages = document(r#"{"model":"m","messages":{}}"#);
    assert_eq!(
        anthropic_to_responses(&no_messages).unwrap_err(),
        ProxyError::InvalidRequest("缺少数组字段 messages".to_string())
    );
}

#[test]
fn chat_messages_take_all_kinds_of_content() {
    let source = document(
        r#"{"model":"o3","max_tokens":5,"temperature":0.5,"top_p":0.9,"stop_sequences":["x"],
            "metadata":{"user_id":"u"},"output_config":{"effort":"max"},
            "tool_choice":{"type":"tool","name":"t","disable_parallel_tool_use":true},
            "tools":[{"description":"no name"},{"name":"t"}],
            "messages":[
                {"content":"plain"},
                {"role":"user"},
                {"role":"user","content":[{"type":"text","text":"a"},{"type":"text","text":"b"}]},
                {"role":"user","content":[{"type":"text","text":"a"},
                    {"type":"image","source":{"type":"url","url":"http://i"}},
                    {"type":"unknown"}]},
                {"role":"assistant","content":[{"type":"thinking","thinking":"p"},
                    {"type":"thinking","thinking":"q"}]},
                {"role":"user","content":[{"type":"text","text":"after"},
                    {"type":"tool_result","tool_use_id":"c","content":[{"text":"r"},{"n":1}]}]}
            ]}"#,
    );
    assert_eq!(
        to_text(&anthropic_to_chat(&source).unwrap()),
        normal(
            r#"{"model":"o3","max_completion_tokens":5,"temperature":0.5,"top_p":0.9,"stop":["x"],
                "user":"u","reasoning_effort":"xhigh","parallel_tool_calls":false,
                "tool_choice":{"type":"function","function":{"name":"t"}},
                "tools":[{"type":"function","function":{"name":"t","parameters":{"type":"object"}}}],
                "messages":[
                    {"role":"user","content":"plain"},
                    {"role":"user","content":null},
                    {"role":"user","content":"ab"},
                    {"role":"user","content":[{"type":"text","text":"a"},
                        {"type":"image_url","image_url":{"url":"http://i"}}]},
                    {"role":"assistant","content":null,"reasoning_content":"p\nq"},
                    {"role":"tool","tool_call_id":"c","content":"r\n{\"n\":1}"},
                    {"role":"user","content":"after"}
                ]}"#
        )
    );
}

#[test]
fn responses_items_take_all_kinds_of_content() {
    let source = document(
        r#"{"model":"gpt-5","max_tokens":16,"system":[{"text":"s"},{"text":"t"}],
            "thinking":{"type":"enabled","budget_tokens":4000},
            "tool_choice":"any","tools":[{"name":"t","description":"d","input_schema":{}}],
            "messages":[
                {"role":"assistant","content":"said"},
                {"role":"user"},
                {"role":"user","content":[{"type":"text","text":"a"},
                    {"type":"image","source":{"type":"base64","data":"QQ=="}},
                    {"type":"document","title":"f","source":{"type":"base64","data":"Qg=="}},
                    {"type":"tool_result","tool_use_id":"c"},
                    {"type":"text","text":"b"}]}
            ]}"#,
    );
    assert_eq!(
        to_text(&anthropic_to_responses(&source).unwrap()),
        normal(
            r#"{"model":"gpt-5","max_output_tokens":16,"instructions":"s\n\nt",
                "reasoning":{"effort":"medium"},"tool_choice":"required",
                "tools":[{"type":"function","name":"t","description":"d","parameters":{}}],
                "input":[
                    {"role":"assistant","content":[{"type":"output_text","text":"said"}]},
                    {"role":"user"},
                    {"role":"user","content":[{"type":"input_text","text":"a"},
                        {"type":"input_image","image_url":"data:image/png;base64,QQ=="},
                        {"type":"input_file","file_data":"data:application/pdf;base64,Qg==","filename":"f"}]},
                    {"type":"function_call_output","call_id":"c","output":""},
                    {"role":"user","content":[{"type":"input_text","text":"b"}]}
                ]}"#
        )
    );
}

#[test]
fn calls_and_results_stay_in_their_order() {
    let source = document(
        r#"{"model":"m","messages":[{"role":"user","content":[
            {"type":"tool_result","tool_use_id":"1","content":"x"},
            {"type":"tool_use","id":"2","name":"n"},
            {"type":"tool_result","tool_use_id":"3","content":{"a":true}},
            {"type":"tool_use","id":"4","name":"o","input":[1]}]}]}"#,
    );
    assert_eq!(
        to_text(&anthropic_to_chat(&source).unwrap()),
        normal(
            r#"{"model":"m","messages":[
                {"role":"tool","tool_call_id":"1","content":"x"},
                {"role":"tool","tool_call_id":"3","content":"{\"a\":true}"},
                {"role":"user","content":null,"tool_calls":[
                    {"id":"2","type":"function","function":{"name":"n","arguments":"{}"}},
                    {"id":"4","type":"function","function":{"name":"o","arguments":"[1]"}}]}]}"#
        )
    );
}

#[test]
fn images_and_documents_need_a_known_source() {
    let url = document(r#"{"source":{"type":"url","url":"http://x"}}"#);
    assert_eq!(anthropic_image_url(&url), Some("http://x".to_string()));
    let data = document(r#"{"source":{"type":"base64","media_type":"image/gif","data":"AA"}}"#);
    assert_eq!(
        anthropic_image_url(&data),
        Some("data:image/gif;base64,AA".to_string())
    );
    assert_eq!(anthropic_image_url(&document(r#"{"source":{"type":"file"}}"#)), None);
    assert_eq!(anthropic_image_url(&document("{}")), None);
    assert_eq!(
        to_text(&anthropic_document(&url).unwrap()),
        normal(r#"{"type":"input_file","file_url":"http://x","filename":"document"}"#)
    );
    assert!(anthropic_document(&document(r#"{"source":{"type":"base64"}}"#)).is_none());
}

#[test]
fn billing_headers_are_taken_away() {
    assert_eq!(strip_billing_header("plain"), "plain");
    assert_eq!(
        strip_billing_header("x-anthropic-billing-header: a\r\n\r\nrest"),
        "rest"
    );
    assert_eq!(strip_billing_header("x-anthropic-billing-header: a"), "");
    let parts = document(
        r#"[{"text":"x-anthropic-billing-header: a"},{"text":"b"},{"n":1},{"text":"c"}]"#,
    );
    assert_eq!(text_from_content(&parts), "b\n\nc");
    assert_eq!(text_from_content(&document("7")), "");
}

#[test]
fn results_of_tools_become_text() {
    assert_eq!(tool_result_text(None), "");
    assert_eq!(tool_result_text(Some(&document("null"))), "");
    assert_eq!(tool_result_text(Some(&document(r#""t""#))), "t");
    assert_eq!(tool_result_text(Some(&document("[1,{\"text\":\"a\"}]"))), "1\na");
    assert_eq!(tool_result_text(Some(&document("-1.5"))), "-1.5");
}

#[test]
fn usage_adds_up() {
    let chat = document(
        r#"{"prompt_tokens":10,"completion_tokens":4,
            "prompt_tokens_details":{"cached_tokens":3,"cache_write_tokens":2}}"#,
    );
    assert_eq!(
        to_text(&chat_usage(Some(&chat))),
        normal(
            r#"{"input_tokens":5,"output_tokens":4,
                "cache_read_input_tokens":3,"cache_creation_input_tokens":2}"#
        )
    );
    let responses = document(
        r#"{"input_tokens":1,"output_tokens":2,"cache_read_input_tokens":3}"#,
    );
    assert_eq!(
        to_text(&responses_usage(Some(&responses))),
        normal(r#"{"input_tokens":0,"output_tokens":2,"cache_read_input_tokens":3}"#)
    );
    assert_eq!(
        to_text(&chat_usage(None)),
        normal(r#"{"input_tokens":0,"output_tokens":0}"#)
    );
}

#[test]
fn stop_reasons_are_mapped() {
    assert_eq!(map_chat_stop(Some("length"), true), "max_tokens");
    assert_eq!(map_chat_stop(Some("tool_calls"), false), "tool_use");
    assert_eq!(map_chat_stop(Some("function_call"), false), "tool_use");
    assert_eq!(map_chat_stop(Some("stop"), true), "tool_use");
    assert_eq!(map_chat_stop(None, false), "end_turn");
}

#[test]
fn models_that_reason_are_known() {
    assert!(is_o_series("o1"));
    assert!(!is_o_series("o"));
    assert!(!is_o_series("O1"));
    assert!(supports_reasoning("O3-mini"));
    assert!(supports_reasoning("gpt-5.1"));
    assert!(!supports_reasoning("gpt-4o"));
    assert!(!supports_reasoning("gpt-"));
}

#[test]
fn effort_goes_by_what_the_request_says() {
    let effort = |text: &str| reasoning_effort(&document(text));
    assert_eq!(effort(r#"{"output_config":{"effort":"low"}}"#), Some("low"));
    assert_eq!(effort(r#"{"output_config":{"effort":"xhigh"}}"#), Some("xhigh"));
    assert_eq!(
        effort(r#"{"output_config":{"effort":"?"},"thinking":{"type":"adaptive"}}"#),
        None
    );
    assert_eq!(effort(r#"{"thinking":{"type":"adaptive"}}"#), Some("xhigh"));
    assert_eq!(
        effort(r#"{"thinking":{"type":"enabled","budget_tokens":3999}}"#),
        Some("low")
    );
    assert_eq!(
        effort(r#"{"thinking":{"type":"enabled","budget_tokens":15999}}"#),
        Some("medium")
    );
    assert_eq!(effort(r#"{"thinking":{"type":"enabled"}}"#), Some("high"));
    assert_eq!(effort(r#"{"thinking":{"type":"disabled"}}"#), None);
}

#[test]
fn tool_choices_are_mapped() {
    let chat = |text: &str| to_text(&chat_tool_choice(&document(text)));
    let responses = |text: &str| to_text(&responses_tool_choice(&document(text)));
    assert_eq!(chat(r#"{"type":"any"}"#), "\"required\"");
    assert_eq!(chat(r#"{"type":"auto"}"#), "\"auto\"");
    assert_eq!(chat("3"), "3");
    assert_eq!(
        chat(r#"{"type":"tool","name":"t"}"#),
        normal(r#"{"type":"function","function":{"name":"t"}}"#)
    );
    assert_eq!(
        responses(r#"{"type":"tool","name":"t"}"#),
        normal(r#"{"type":"function","name":"t"}"#)
    );
    assert_eq!(responses("\"none\""), "\"none\"");
}

#[test]
fn small_limits_are_raised() {
    let limit = |n: &str| {
        let source = document(&format!("{{\"model\":\"m\",\"messages\":[],\"max_tokens\":{n}}}"));
        to_text(anthropic_to_responses(&source).unwrap().get("max_output_tokens").unwrap())
    };
    assert_eq!(limit("0"), "0");
    assert_eq!(limit("1"), "16");
    assert_eq!(limit("15"), "16");
    assert_eq!(limit("17"), "17");
    assert_eq!(limit("1.5"), "1.5");
}

#[test]
fn documents_keep_what_they_say() {
    let text = r#"{"a":[null,true,18446744073709551615,-3,1.25,"x\ny"],"a2":{}}"#;
    assert_eq!(to_text(&document(text)), text);
    assert_eq!(
        to_text(&document(r#"{"k":1,"k":2}"#)),
        r#"{"k":2}"#
    );
    assert!(parse_json("{").is_err());
}
