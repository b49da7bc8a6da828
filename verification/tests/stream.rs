//! Streams and their conversion.
use claude_proxy::chat_stream::ChatState;
use claude_proxy::event::{error_event, StreamEvent};
use claude_proxy::json::codec::{parse_json, to_text};
use claude_proxy::openai::OpenAiType;
use claude_proxy::responses_stream::{item_key, ResponsesState};
use claude_proxy::sse::{find_sse_boundary, parse_sse_block, SseDecoder};
use claude_proxy::stream::{
    convert_chat_stream, convert_responses_stream, render_all, StreamConverter,
};

fn joined(output: Vec<Vec<u8>>) -> String {
    output
        .iter()
        .map(|bytes| String::from_utf8_lossy(bytes).into_owned())
        .collect::<Vec<_>>()
        .join("")
}

/// The events in a few words each.
fn brief(events: &Vec<StreamEvent>) -> Vec<String> {
    events
        .iter()
        .map(|event| match event {
            StreamEvent::MessageStart { id, model } => format!("start {id} {model}"),
            StreamEvent::TextStart { index } => format!("text {index}"),
            StreamEvent::ThinkingStart { index } => format!("thinking {index}"),
            StreamEvent::ToolStart { index, id, name } => format!("tool {index} {id} {name}"),
            StreamEvent::TextDelta { index, text } => format!("{index}: {text}"),
            StreamEvent::ThinkingDelta { index, thinking } => format!("{index}? {thinking}"),
            StreamEvent::InputDelta { index, json } => format!("{index}! {json}"),
            StreamEvent::BlockStop { index } => format!("stop {index}"),
            StreamEvent::MessageDelta { stop_reason, usage } => {
                format!("{stop_reason} {}", to_text(usage))
            }
            StreamEvent::MessageStop => "end".to_string(),
            StreamEvent::Failure { message } => format!("failure {message}"),
        })
        .collect()
}

#[test]
fn chat_stream_is_anthropic_sse() {
    let source = [
        "data: {\"id\":\"chat_1\",\"model\":\"gpt-4o\",\"choices\":[{\"delta\":{\"content\":\"Hi\"},\"finish_reason\":null}]}\n\n",
        "data: {\"choices\":[{\"delta\":{},\"finish_reason\":\"stop\"}],\"usage\":{\"prompt_tokens\":3,\"completion_tokens\":1}}\n\n",
        "data: [DONE]\n\n",
    ]
    .concat();
    let output = joined(convert_chat_stream(&vec![Ok(source.into_bytes())]));
    assert!(output.contains("event: message_start"));
    assert!(output.contains("\"text\":\"Hi\""));
    assert!(output.contains("event: message_stop"));
    assert_eq!(
        output,
        [
            "event: message_start\ndata: {\"message\":{\"content\":[],\"id\":\"chat_1\",\"model\":\"gpt-4o\",\"role\":\"assistant\",\"stop_reason\":null,\"stop_sequence\":null,\"type\":\"message\",\"usage\":{\"input_tokens\":0,\"output_tokens\":0}},\"type\":\"message_start\"}\n\n",
            "event: content_block_start\ndata: {\"content_block\":{\"text\":\"\",\"type\":\"text\"},\"index\":0,\"type\":\"content_block_start\"}\n\n",
            "event: content_block_delta\ndata: {\"delta\":{\"text\":\"Hi\",\"type\":\"text_delta\"},\"index\":0,\"type\":\"content_block_delta\"}\n\n",
            "event: content_block_stop\ndata: {\"index\":0,\"type\":\"content_block_stop\"}\n\n",
            "event: message_delta\ndata: {\"delta\":{\"stop_reason\":\"end_turn\",\"stop_sequence\":null},\"type\":\"message_delta\",\"usage\":{\"input_tokens\":3,\"output_tokens\":1}}\n\n",
            "event: message_stop\ndata: {\"type\":\"message_stop\"}\n\n",
        ]
        .concat()
    );
}

#[test]
fn decoder_accepts_split_crlf_frames() {
    let mut decoder = SseDecoder::new();
    assert!(decoder.push(b"event: x\r\ndata: {\"").is_empty());
    let frames = decoder.push(b"a\":1}\r\n\r\n");
    assert_eq!(frames.len(), 1);
    assert_eq!(frames[0].event.as_deref(), Some("x"));
    assert_eq!(frames[0].data, "{\"a\":1}");
}

#[test]
fn responses_stream_is_anthropic_sse() {
    let source = [
        "event: response.created\ndata: {\"type\":\"response.created\",\"response\":{\"id\":\"resp_1\",\"model\":\"gpt-5\"}}\n\n",
        "event: response.output_text.delta\ndata: {\"type\":\"response.output_text.delta\",\"delta\":\"Hello\"}\n\n",
        "event: response.completed\ndata: {\"type\":\"response.completed\",\"response\":{\"id\":\"resp_1\",\"model\":\"gpt-5\",\"status\":\"completed\",\"usage\":{\"input_tokens\":8,\"output_tokens\":2}}}\n\n",
    ]
    .concat();
    let output = joined(convert_responses_stream(&vec![Ok(source.into_bytes())]));
    assert!(output.contains("\"id\":\"resp_1\""));
    assert!(output.contains("\"text\":\"Hello\""));
    assert!(output.contains("\"output_tokens\":2"));
    assert!(output.contains("event: message_stop"));
}

#[test]
fn boundaries_are_found() {
    assert_eq!(find_sse_boundary(b"ab\n\ncd\n\n"), Some((2, 2)));
    assert_eq!(find_sse_boundary(b"a\r\n\r\nb"), Some((1, 4)));
    assert_eq!(find_sse_boundary(b"a\r\n\r"), None);
    assert_eq!(find_sse_boundary(b"\n"), None);
    assert_eq!(find_sse_boundary(b""), None);
}

#[test]
fn blocks_hold_a_name_and_data() {
    let frame = parse_sse_block(b"event:  a\ndata: 1\ndata:2\r\n: note\nevent: b").unwrap();
    assert_eq!(frame.event.as_deref(), Some("b"));
    assert_eq!(frame.data, "1\n2");
    assert!(parse_sse_block(b"event: a\nid: 3").is_none());
    let broken = parse_sse_block(b"data: \xff").unwrap();
    assert_eq!(broken.data, "\u{fffd}");
    assert_eq!(broken.event, None);
}

#[test]
fn chunks_do_not_matter() {
    let source = "data: {\"choices\":[{\"delta\":{\"content\":\"H\u{e9}\"}}]}\r\n\r\ndata: {\"choices\":[{\"delta\":{\"content\":\"!\"}}]}\n\ndata: [DONE]";
    let whole = joined(convert_chat_stream(&vec![Ok(source.as_bytes().to_vec())]));
    let bytes: Vec<Result<Vec<u8>, String>> =
        source.as_bytes().iter().map(|byte| Ok(vec![*byte])).collect();
    assert_eq!(joined(convert_chat_stream(&bytes)), whole);
    assert!(whole.contains("H\u{e9}"));
    assert!(whole.ends_with("event: message_stop\ndata: {\"type\":\"message_stop\"}\n\n"));
}

#[test]
fn a_break_is_the_end() {
    let items = vec![
        Ok(b"data: {\"choices\":[{\"delta\":{\"content\":\"a\"}}]}\n\n".to_vec()),
        Err("gone".to_string()),
        Ok(b"data: {\"choices\":[{\"delta\":{\"content\":\"b\"}}]}\n\n".to_vec()),
    ];
    let output = joined(convert_chat_stream(&items));
    assert!(output.ends_with(
        "event: error\ndata: {\"error\":{\"message\":\"上游流读取失败: gone\",\"type\":\"api_error\"},\"type\":\"error\"}\n\n"
    ));
    assert!(!output.contains("\"b\""));
    assert!(!output.contains("message_stop"));
}

#[test]
fn what_is_left_makes_a_last_frame() {
    let mut converter = StreamConverter::new(OpenAiType::Chat);
    assert!(converter.push(b"data: {\"id\":\"i\",\"model\":\"m\"}").is_empty());
    assert_eq!(
        brief(&converter.finish()),
        vec!["start i m", "end_turn {\"input_tokens\":0,\"output_tokens\":0}", "end"]
    );
    assert!(converter.finish().is_empty());
}

#[test]
fn written_events_are_read_back() {
    let events = vec![
        StreamEvent::MessageStop,
        StreamEvent::TextDelta { index: 3, text: "a\n\nb\r\u{85}".to_string() },
        error_event("e".to_string()),
    ];
    let mut decoder = SseDecoder::new();
    let bytes = render_all(&events).concat();
    let frames = decoder.push(&bytes);
    assert_eq!(frames.len(), 3);
    for (frame, event) in frames.iter().zip(events.iter()) {
        assert_eq!(frame.event.as_deref(), Some(event.name()));
        assert_eq!(frame.data, to_text(&event.document()));
    }
    assert!(decoder.finish().is_none());
}

#[test]
fn chat_thinking_text_and_tools_take_turns() {
    let mut state = ChatState::new();
    assert_eq!(
        brief(&state.process(r#"{"id":"i","model":"m","choices":[{"delta":{"reasoning_content":"r","content":"c"}}]}"#)),
        vec!["start i m", "thinking 0", "0? r", "stop 0", "text 1", "1: c"]
    );
    assert_eq!(
        brief(&state.process(r#"{"id":"j","choices":[{"delta":{"content":"","reasoning":""}}]}"#)),
        Vec::<String>::new()
    );
    assert_eq!(
        brief(&state.process(r#"{"choices":[{"delta":{"tool_calls":[
            {"index":5,"function":{"arguments":"{"}},
            {"index":2,"id":"t","function":{"name":"n","arguments":"[]"}}]}}]}"#)),
        vec!["stop 1", "tool 3 t n", "3! []"]
    );
    assert_eq!(
        brief(&state.process(r#"{"choices":[{"delta":{"tool_calls":[
            {"index":5,"function":{"arguments":"}"}}]},"finish_reason":"tool_calls"}],
            "usage":{"prompt_tokens":1,"completion_tokens":2}}"#)),
        Vec::<String>::new()
    );
    assert_eq!(
        brief(&state.process(" [DONE] ")),
        vec![
            "stop 3",
            "tool 2 tool_call_2 unknown_tool",
            "2! {}",
            "stop 2",
            "tool_use {\"input_tokens\":1,\"output_tokens\":2}",
            "end",
        ]
    );
    assert!(state.process(r#"{"choices":[]}"#).is_empty());
    assert!(state.finish().is_empty());
}

/// What events say: their text, their thinking, and the input of each block.
fn said(events: &Vec<StreamEvent>, index: u64) -> (String, String, String) {
    let mut all = (String::new(), String::new(), String::new());
    for event in events {
        match event {
            StreamEvent::TextDelta { text, .. } => all.0.push_str(text),
            StreamEvent::ThinkingDelta { thinking, .. } => all.1.push_str(thinking),
            StreamEvent::InputDelta { index: i, json } if *i == index => all.2.push_str(json),
            _ => {}
        }
    }
    all
}

/// The indices under which blocks begin.
fn begun(events: &Vec<StreamEvent>) -> Vec<u64> {
    let mut all: Vec<u64> = events
        .iter()
        .filter_map(|event| match event {
            StreamEvent::TextStart { index }
            | StreamEvent::ThinkingStart { index }
            | StreamEvent::ToolStart { index, .. } => Some(*index),
            _ => None,
        })
        .collect();
    all.sort();
    all
}

#[test]
fn a_whole_chat_answer_passes_all_on() {
    let mut state = ChatState::new();
    let mut events = Vec::new();
    for data in [
        r#"{"choices":[{"delta":{"content":"a","reasoning":"p"}}]}"#,
        r#"{"choices":[{"delta":{"tool_calls":[{"index":9,"function":{"arguments":"1"}}]}}]}"#,
        r#"{"choices":[{"delta":{"content":"b"}}]}"#,
        r#"{"choices":[{"delta":{"tool_calls":[{"function":{"name":"n","arguments":"x"}}]}}]}"#,
        "no document",
        r#"{"choices":[{"delta":{"tool_calls":[{"index":9,"id":"i","function":{"arguments":"2"}}]}}]}"#,
        r#"{"choices":[{"delta":{"content":"c","reasoning":"q","tool_calls":[{"index":9,"function":{"arguments":"3"}}]}}]}"#,
    ] {
        events.append(&mut state.process(data));
    }
    events.append(&mut state.finish());
    assert_eq!(begun(&events), vec![0, 1, 2, 3, 4, 5, 6]);
    let (text, thinking, input) = said(&events, 2);
    assert_eq!(text, "abc");
    assert_eq!(thinking, "pq");
    assert_eq!(input, "123");
    assert_eq!(said(&events, 4).2, "x");
    assert!(state.finish().is_empty());
}

#[test]
fn what_follows_the_end_does_not_count() {
    let run = |frames: Vec<&str>| {
        let mut state = ChatState::new();
        let mut events = Vec::new();
        for data in frames {
            events.append(&mut state.process(data));
        }
        events.append(&mut state.finish());
        brief(&events)
    };
    let text = r#"{"choices":[{"delta":{"content":"a"}}]}"#;
    assert_eq!(run(vec![text, "[DONE]", text, "[DONE]"]), run(vec![text]));
}

#[test]
fn a_whole_responses_answer_passes_all_on() {
    let mut state = ResponsesState::new();
    let mut events = Vec::new();
    for data in [
        r#"{"type":"response.output_text.delta","delta":"a"}"#,
        r#"{"type":"response.reasoning_summary_text.delta","delta":"p"}"#,
        r#"{"type":"response.output_text.delta","delta":"b"}"#,
        r#"{"type":"response.in_progress","response":{"incomplete_details":{"reason":"r"}}}"#,
        r#"{"type":"response.reasoning_text.delta","delta":"q"}"#,
    ] {
        events.append(&mut state.process(None, data));
    }
    let end = state.finish();
    assert_eq!(
        brief(&end),
        vec!["stop 3", "max_tokens {\"input_tokens\":0,\"output_tokens\":0}", "end"]
    );
    assert_eq!(begun(&events), vec![0, 1, 2, 3]);
    let (text, thinking, _) = said(&events, 0);
    assert_eq!(text, "ab");
    assert_eq!(thinking, "pq");
}

#[test]
fn the_last_reason_and_usage_count() {
    let stop = |frames: Vec<&str>| {
        let mut state = ChatState::new();
        for data in frames {
            let _ = state.process(data);
        }
        let end = brief(&state.finish());
        end[end.len() - 2].clone()
    };
    let length = r#"{"choices":[{"delta":{},"finish_reason":"length"}],"usage":{"prompt_tokens":9}}"#;
    let plain = r#"{"choices":[{"delta":{},"finish_reason":"stop"}],"usage":{"prompt_tokens":5,"completion_tokens":2,"prompt_tokens_details":{"cached_tokens":1}}}"#;
    let silent = r#"{"choices":[{"delta":{},"finish_reason":null}],"usage":null}"#;
    let call = r#"{"choices":[{"delta":{"tool_calls":[{}]}}]}"#;
    let used = "{\"cache_read_input_tokens\":1,\"input_tokens\":4,\"output_tokens\":2}";
    assert_eq!(stop(vec![length, plain, silent]), format!("end_turn {used}"));
    assert_eq!(
        stop(vec![plain, length, silent, call]),
        "max_tokens {\"input_tokens\":9,\"output_tokens\":0}"
    );
    assert_eq!(stop(vec![call, plain]), format!("tool_use {used}"));
    assert_eq!(
        stop(vec![silent]),
        "end_turn {\"input_tokens\":0,\"output_tokens\":0}"
    );
}

#[test]
fn the_last_usage_of_a_responses_answer_counts() {
    let mut state = ResponsesState::new();
    for data in [
        r#"{"type":"response.created","response":{"usage":{"input_tokens":1,"output_tokens":1}}}"#,
        r#"{"type":"response.in_progress","response":{"usage":{"input_tokens":7,"output_tokens":3}}}"#,
        r#"{"type":"response.in_progress","response":{"usage":null}}"#,
    ] {
        let _ = state.process(None, data);
    }
    assert_eq!(
        brief(&state.finish()),
        vec!["end_turn {\"input_tokens\":7,\"output_tokens\":3}", "end"]
    );
}

#[test]
fn responses_calls_are_given_their_input() {
    let mut state = ResponsesState::new();
    let mut events = Vec::new();
    for data in [
        r#"{"type":"response.output_item.added","item":{"type":"function_call","id":"p"}}"#,
        r#"{"type":"response.output_item.added","item":{"type":"function_call","id":"w"}}"#,
        r#"{"type":"response.function_call_arguments.delta","item_id":"p","delta":"1"}"#,
        r#"{"type":"response.output_item.done","item":{"type":"function_call","id":"w","arguments":"all"}}"#,
        r#"{"type":"response.function_call_arguments.delta","item_id":"p","delta":"2"}"#,
        r#"{"type":"response.output_item.done","item":{"type":"function_call","id":"p","arguments":"12"}}"#,
    ] {
        events.append(&mut state.process(None, data));
    }
    events.append(&mut state.finish());
    assert_eq!(begun(&events), vec![0, 1]);
    assert_eq!(said(&events, 0).2, "12");
    assert_eq!(said(&events, 1).2, "all");
}

#[test]
fn chat_failures_are_told() {
    let mut state = ChatState::new();
    let broken = brief(&state.process("{"));
    assert_eq!(broken.len(), 1);
    assert!(broken[0].starts_with("failure 无法解析上游 Chat SSE: EOF while parsing"));
    assert!(state.process("  ").is_empty());
    assert_eq!(
        brief(&state.process(r#"{"error":{"message":"no"}}"#)),
        vec!["failure no"]
    );
    assert!(state.finish().is_empty());
}

#[test]
fn responses_events_are_taken() {
    let mut state = ResponsesState::new();
    assert_eq!(
        brief(&state.process(Some("response.created"), r#"{"response":{"id":"i","model":"m"}}"#)),
        vec!["start i m"]
    );
    assert_eq!(
        brief(&state.process(None, r#"{"type":"response.reasoning_text.delta","delta":"r"}"#)),
        vec!["thinking 0", "0? r"]
    );
    assert_eq!(
        brief(&state.process(None, r#"{"type":"response.content_part.added","part":{"type":"output_text"}}"#)),
        vec!["stop 0", "text 1"]
    );
    assert_eq!(
        brief(&state.process(None, r#"{"type":"response.output_text.delta","delta":"t"}"#)),
        vec!["1: t"]
    );
    assert_eq!(
        brief(&state.process(None, r#"{"type":"response.output_text.done"}"#)),
        vec!["stop 1"]
    );
    assert_eq!(
        brief(&state.process(None, r#"{"type":"response.output_item.added","item":{"type":"function_call","id":"b","call_id":"c","name":"n"}}"#)),
        vec!["tool 2 c n"]
    );
    assert_eq!(
        brief(&state.process(None, r#"{"type":"response.function_call_arguments.delta","item_id":"b","delta":"{}"}"#)),
        vec!["2! {}"]
    );
    assert_eq!(
        brief(&state.process(None, r#"{"type":"response.output_item.done","item":{"type":"function_call","id":"b","arguments":"{}"}}"#)),
        vec!["stop 2"]
    );
    assert_eq!(
        brief(&state.process(None, r#"{"type":"response.output_item.done","item":{"type":"function_call","id":"a","name":"o","arguments":"[1]"}}"#)),
        vec!["tool 3 a o", "3! [1]", "stop 3"]
    );
    assert_eq!(
        brief(&state.process(None, r#"{"type":"response.function_call_arguments.delta","output_index":7,"delta":"x"}"#)),
        vec!["tool 4  ", "4! x"]
    );
    assert_eq!(
        brief(&state.process(None, r#"{"type":"response.incomplete","response":{"incomplete_details":{"reason":"r"}}}"#)),
        vec!["stop 4", "tool_use {\"input_tokens\":0,\"output_tokens\":0}", "end"]
    );
    assert!(state.process(None, "[DONE]").is_empty());
}

#[test]
fn responses_open_calls_end_by_key() {
    let mut state = ResponsesState::new();
    let _ = state.process(None, r#"{"type":"response.output_item.added","item":{"type":"function_call","id":"b"}}"#);
    let _ = state.process(None, r#"{"type":"response.output_item.added","item":{"type":"function_call","id":"a"}}"#);
    let _ = state.process(None, r#"{"type":"response.output_item.added","item":{"type":"message","id":"z"}}"#);
    assert_eq!(
        brief(&state.finish()),
        vec!["stop 1", "stop 0", "tool_use {\"input_tokens\":0,\"output_tokens\":0}", "end"]
    );
}

#[test]
fn responses_stop_reasons() {
    let mut incomplete = ResponsesState::new();
    assert_eq!(
        brief(&incomplete.process(None, r#"{"type":"response.incomplete","response":{"incomplete_details":{"reason":"max"},"usage":{"input_tokens":2}}}"#)),
        vec!["start  ", "max_tokens {\"input_tokens\":2,\"output_tokens\":0}", "end"]
    );
    let mut plain = ResponsesState::new();
    assert_eq!(
        brief(&plain.process(None, " [DONE]\n")),
        vec!["start  ", "end_turn {\"input_tokens\":0,\"output_tokens\":0}", "end"]
    );
}

#[test]
fn responses_failures_are_told() {
    let failure = |name: Option<&str>, data: &str| {
        let mut state = ResponsesState::new();
        let said = brief(&state.process(name, data));
        assert!(state.finish().is_empty());
        said
    };
    assert_eq!(failure(Some("error"), "{}"), vec!["failure OpenAI Responses 流失败"]);
    assert_eq!(
        failure(None, r#"{"type":"response.failed","response":{"error":{"message":"m"}}}"#),
        vec!["failure m"]
    );
    assert_eq!(
        failure(None, r#"{"type":"response.cancelled","error":{"message":"n"}}"#),
        vec!["failure n"]
    );
    let mut state = ResponsesState::new();
    let broken = brief(&state.process(None, "nope"));
    assert!(broken[0].starts_with("failure 无法解析上游 Responses SSE: "));
    assert_eq!(state.finish().len(), 3);
}

#[test]
fn keys_of_calls() {
    let json = |text: &str| parse_json(text).unwrap();
    assert_eq!(item_key(&json(r#"{"item_id":"a"}"#), &json(r#"{"id":"b"}"#)), "a");
    assert_eq!(item_key(&json("{}"), &json(r#"{"id":"b","call_id":"c"}"#)), "b");
    assert_eq!(item_key(&json("{}"), &json(r#"{"call_id":"c"}"#)), "c");
    assert_eq!(
        item_key(&json(r#"{"item_id":null,"output_index":12}"#), &json(r#"{"id":"b"}"#)),
        "output_12"
    );
    assert_eq!(item_key(&json("{}"), &json("null")), "output_0");
}
