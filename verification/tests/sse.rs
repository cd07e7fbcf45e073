use oma::json::JsonValue;
use oma::json::JsonNumber;
use oma::sse::{
    parse_anthropic_sse, parse_gemini_sse, parse_openai_sse, parse_responses_sse, AnthropicSse, GeminiSse, OpenAiSse,
    ProviderStreamEvent, ResponsesSse, StopReason,
};

fn chunks(data: &str) -> Vec<Result<Vec<u8>, String>> {
    vec![Ok(data.as_bytes().to_vec())]
}

fn object(members: &[(&str, JsonValue)]) -> JsonValue {
    let mut v: Vec<(String, JsonValue)> = Vec::new();
    for (k, x) in members {
        v.push((k.to_string(), clone(x)));
    }
    JsonValue::Object(v)
}

fn clone(v: &JsonValue) -> JsonValue {
    match v {
        JsonValue::Null => JsonValue::Null,
        JsonValue::Bool(b) => JsonValue::Bool(*b),
        JsonValue::Number(n) => JsonValue::Number(n.clone()),
        JsonValue::Str(s) => JsonValue::Str(s.clone()),
        JsonValue::Array(a) => JsonValue::Array(a.iter().map(clone).collect()),
        JsonValue::Object(m) => JsonValue::Object(m.iter().map(|(k, x)| (k.clone(), clone(x))).collect()),
    }
}

fn text(s: &str) -> JsonValue {
    JsonValue::Str(s.to_string())
}

#[test]
fn test_parse_openai_sse_reasoning_field_variants() {
    let sse_data = "data: {\"choices\":[{\"delta\":{\"reasoning\":\"第一段\"}}]}\n\n\
data: {\"choices\":[{\"delta\":{\"reasoning\":\"第二段\"}}]}\n\n\
data: {\"choices\":[{\"delta\":{\"content\":\"答复\"}}]}\n\n\
data: [DONE]\n\n";
    let events = parse_openai_sse(&chunks(sse_data));
    assert_eq!(events[0], ProviderStreamEvent::ThinkingDelta("第一段".into()));
    assert_eq!(events[1], ProviderStreamEvent::ThinkingDelta("第二段".into()));
    assert_eq!(events[2], ProviderStreamEvent::TextDelta("答复".into()));
}

#[test]
fn test_parse_openai_sse_reasoning_details_fallback() {
    let sse_data = "data: {\"choices\":[{\"delta\":{\"reasoning\":\"一次\",\"reasoning_details\":[{\"type\":\"reasoning.text\",\"text\":\"一次\",\"index\":0}]}}]}\n\n\
data: {\"choices\":[{\"delta\":{\"reasoning_details\":[{\"type\":\"reasoning.text\",\"text\":\"仅详情\",\"index\":0}]}}]}\n\n\
data: [DONE]\n\n";
    let events = parse_openai_sse(&chunks(sse_data));
    assert_eq!(events[0], ProviderStreamEvent::ThinkingDelta("一次".into()), "不得重复");
    assert_eq!(
        events[1],
        ProviderStreamEvent::ThinkingDelta("仅详情".into()),
        "无 reasoning 时回退到 reasoning_details"
    );
}

#[test]
fn test_parse_openai_sse_stream() {
    let sse_data = "data: {\"choices\":[{\"delta\":{\"reasoning_content\":\"I think...\"}}]}\n\n\
data: {\"choices\":[{\"delta\":{\"content\":\"Hello \"}}]}\n\n\
data: {\"choices\":[{\"delta\":{\"content\":\"world!\"}}]}\n\n\
data: {\"choices\":[{\"delta\":{\"tool_calls\":[{\"index\":0,\"id\":\"call_1\",\"function\":{\"name\":\"read\",\"arguments\":\"{\\\"path\\\":\"}}]}}]}\n\n\
data: {\"choices\":[{\"delta\":{\"tool_calls\":[{\"index\":0,\"function\":{\"arguments\":\"\\\"src/lib.rs\\\"}\"}}]}}]}\n\n\
data: [DONE]\n\n";
    let events = parse_openai_sse(&chunks(sse_data));
    assert_eq!(events[0], ProviderStreamEvent::ThinkingDelta("I think...".into()));
    assert_eq!(events[1], ProviderStreamEvent::TextDelta("Hello ".into()));
    assert_eq!(events[2], ProviderStreamEvent::TextDelta("world!".into()));
    assert_eq!(
        events[3],
        ProviderStreamEvent::ToolCall {
            id: "call_1".into(),
            name: "read".into(),
            input: object(&[("path", text("src/lib.rs"))]),
        }
    );
    assert_eq!(events[4], ProviderStreamEvent::Done { stop_reason: StopReason::ToolUse });
}

#[test]
fn test_parse_openai_sse_done_does_not_override_finish_reason() {
    let sse_data = &[
        r#"data: {"choices":[{"delta":{"tool_calls":[{"index":0,"id":"call_1","function":{"name":"read","arguments":"{}"}}]}}]}"#,
        "\n\n",
        r#"data: {"choices":[{"delta":{},"finish_reason":"tool_calls"}]}"#,
        "\n\n",
        "data: [DONE]\n\n",
    ]
    .concat();
    let events = parse_openai_sse(&chunks(sse_data));
    assert_eq!(events.len(), 2);
    assert!(matches!(events[1], ProviderStreamEvent::Done { stop_reason: StopReason::ToolUse }));
}

#[test]
fn openai_events_wait_for_the_blank_line_across_chunks() {
    let mut p = OpenAiSse::new();
    let first = p.feed(b"data: {\"choices\":[{\"delta\":{\"content\":\"Hi\"}}]}\n");
    assert!(first.is_empty());
    let second = p.feed(b"\ndata: [DONE]\n\n");
    assert_eq!(second, vec![ProviderStreamEvent::TextDelta("Hi".into()), ProviderStreamEvent::Done { stop_reason: StopReason::EndTurn }]);
    assert!(p.is_finished());
    assert!(p.feed(b"data: {\"choices\":[{\"delta\":{\"content\":\"late\"}}]}\n\n").is_empty());
}

#[test]
fn openai_usage_and_length_finish() {
    let sse_data = &[
        r#"data: {"usage":{"prompt_tokens":12,"completion_tokens":3},"choices":[{"delta":{"content":"x"},"finish_reason":"length"}]}"#,
        "\n\n",
    ]
    .concat();
    let events = parse_openai_sse(&chunks(sse_data));
    assert_eq!(
        events,
        vec![
            ProviderStreamEvent::Usage { input_tokens: 12, output_tokens: 3 },
            ProviderStreamEvent::TextDelta("x".into()),
            ProviderStreamEvent::Done { stop_reason: StopReason::MaxTokens },
        ]
    );
}

#[test]
fn openai_invalid_arguments_are_reported_in_the_input() {
    let sse_data = &[
        r#"data: {"choices":[{"delta":{"tool_calls":[{"index":1,"id":"b","function":{"name":"two","arguments":"{"}},{"index":0,"id":"a","function":{"name":"one","arguments":"{}"}}]}}]}"#,
        "\n\n",
        "data: [DONE]\n\n",
    ]
    .concat();
    let events = parse_openai_sse(&chunks(sse_data));
    assert_eq!(events.len(), 3);
    assert_eq!(events[0], ProviderStreamEvent::ToolCall { id: "a".into(), name: "one".into(), input: object(&[]) });
    match &events[1] {
        ProviderStreamEvent::ToolCall { id, name, input: JsonValue::Object(m) } => {
            assert_eq!(id, "b");
            assert_eq!(name, "two");
            assert_eq!(m.len(), 2);
            assert_eq!(m[0].0, "_parse_error");
            assert_eq!(m[1], ("_raw".to_string(), text("{")));
        }
        other => panic!("unexpected {:?}", other),
    }
    assert_eq!(events[2], ProviderStreamEvent::Done { stop_reason: StopReason::ToolUse });
}

#[test]
fn openai_transport_error_ends_the_stream() {
    let items = vec![Ok(b"data: {\"choices\":[{\"delta\":{\"content\":\"a\"}}]}\n\n".to_vec()), Err("reset".to_string()), Ok(b"data: [DONE]\n\n".to_vec())];
    let events = parse_openai_sse(&items);
    assert_eq!(events, vec![ProviderStreamEvent::TextDelta("a".into()), ProviderStreamEvent::Error("reset".into())]);
}

#[test]
fn test_parse_gemini_sse_function_call() {
    let sse_data = &[
        r#"data: {"candidates":[{"content":{"parts":[{"text":"calling"}]}}]}"#,
        "\n\n",
        r#"data: {"candidates":[{"content":{"parts":[{"functionCall":{"name":"read","args":{"path":"a.rs"}}}]}}]}"#,
        "\n\n",
        r#"data: {"usageMetadata":{"promptTokenCount":7,"candidatesTokenCount":3}}"#,
        "\n\n",
    ]
    .concat();
    let events = parse_gemini_sse(&chunks(sse_data));
    assert_eq!(events[0], ProviderStreamEvent::TextDelta("calling".into()));
    assert_eq!(
        events[1],
        ProviderStreamEvent::ToolCall {
            id: "gemini_call_1".into(),
            name: "read".into(),
            input: object(&[("path", text("a.rs"))]),
        }
    );
    assert_eq!(events[2], ProviderStreamEvent::Usage { input_tokens: 7, output_tokens: 3 });
    assert_eq!(events[3], ProviderStreamEvent::Done { stop_reason: StopReason::ToolUse });
}

#[test]
fn gemini_calls_are_numbered_and_nameless_calls_skipped() {
    let sse_data = &[
        r#"data: {"candidates":[{"content":{"parts":[{"functionCall":{"name":""}},{"functionCall":{"name":"a"}},{"text":""},{"functionCall":{"name":"b","args":{"n":2}}}]}}]}"#,
        "\n\n",
    ]
    .concat();
    let events = parse_gemini_sse(&chunks(sse_data));
    assert_eq!(
        events,
        vec![
            ProviderStreamEvent::ToolCall { id: "gemini_call_1".into(), name: "a".into(), input: object(&[]) },
            ProviderStreamEvent::ToolCall {
                id: "gemini_call_2".into(),
                name: "b".into(),
                input: object(&[("n", JsonValue::Number(JsonNumber::PosInt(2)))]),
            },
            ProviderStreamEvent::Done { stop_reason: StopReason::ToolUse },
        ]
    );
}

#[test]
fn gemini_plain_answer_ends_the_turn() {
    let mut p = GeminiSse::new();
    let evs = p.feed(b"data: {\"candidates\":[{\"content\":{\"parts\":[{\"text\":\"ok\"}]}}]}\n\n");
    assert_eq!(evs, vec![ProviderStreamEvent::TextDelta("ok".into())]);
    assert_eq!(p.finish(), vec![ProviderStreamEvent::Done { stop_reason: StopReason::EndTurn }]);
}

#[test]
fn test_parse_responses_sse_stream() {
    let sse_data = &[
        r#"data: {"type":"response.reasoning_summary_text.delta","delta":"thinking hard"}"#,
        "\n\n",
        r#"data: {"type":"response.output_text.delta","delta":"Hello "}"#,
        "\n\n",
        r#"data: {"type":"response.output_text.delta","delta":"world"}"#,
        "\n\n",
        r#"data: {"type":"response.output_item.added","item":{"type":"function_call","call_id":"call_9","name":"shell"}}"#,
        "\n\n",
        r#"data: {"type":"response.function_call_arguments.delta","delta":"{\"cmd\":"}"#,
        "\n\n",
        r#"data: {"type":"response.function_call_arguments.delta","delta":"\"ls\"}"}"#,
        "\n\n",
        r#"data: {"type":"response.function_call_arguments.done","arguments":"{\"cmd\":\"ls -la\"}"}"#,
        "\n\n",
        r#"data: {"type":"response.completed","response":{"usage":{"input_tokens":100,"output_tokens":42},"incomplete_details":null}}"#,
        "\n\n",
    ]
    .concat();
    let events = parse_responses_sse(&chunks(sse_data));
    assert_eq!(events[0], ProviderStreamEvent::ThinkingDelta("thinking hard".into()));
    assert_eq!(events[1], ProviderStreamEvent::TextDelta("Hello ".into()));
    assert_eq!(events[2], ProviderStreamEvent::TextDelta("world".into()));
    assert_eq!(
        events[3],
        ProviderStreamEvent::ToolCall {
            id: "call_9".into(),
            name: "shell".into(),
            input: object(&[("cmd", text("ls -la"))]),
        }
    );
    assert_eq!(events[4], ProviderStreamEvent::Usage { input_tokens: 100, output_tokens: 42 });
    assert_eq!(events[5], ProviderStreamEvent::Done { stop_reason: StopReason::EndTurn });
}

#[test]
fn test_parse_responses_sse_incomplete_and_error() {
    let sse_max = &[
        r#"data: {"type":"response.completed","response":{"usage":{"input_tokens":1,"output_tokens":5},"incomplete_details":{"reason":"max_output_tokens"}}}"#,
        "\n\n",
    ]
    .concat();
    let events = parse_responses_sse(&chunks(sse_max));
    assert_eq!(
        events,
        vec![
            ProviderStreamEvent::Usage { input_tokens: 1, output_tokens: 5 },
            ProviderStreamEvent::Done { stop_reason: StopReason::MaxTokens },
        ]
    );

    let sse_fail = &[
        r#"data: {"type":"response.failed","response":{"error":{"message":"boom"}}}"#,
        "\n\n",
        r#"data: {"type":"response.completed","response":{"usage":{"input_tokens":0,"output_tokens":0},"incomplete_details":null}}"#,
        "\n\n",
    ]
    .concat();
    let events = parse_responses_sse(&chunks(sse_fail));
    assert_eq!(events[0], ProviderStreamEvent::Error("boom".into()));
    assert_eq!(events[1], ProviderStreamEvent::Usage { input_tokens: 0, output_tokens: 0 });
    assert_eq!(events[2], ProviderStreamEvent::Done { stop_reason: StopReason::EndTurn });
    assert_eq!(events.len(), 3);
}

#[test]
fn responses_cut_off_stream_still_ends_the_turn() {
    let mut p = ResponsesSse::new();
    let evs = p.feed(b"data: {\"type\":\"error\",\"message\":\"slow down\"}\n\ndata: {\"type\":\"response.failed\"}\n\n");
    assert_eq!(
        evs,
        vec![
            ProviderStreamEvent::Error("slow down".into()),
            ProviderStreamEvent::Error("unknown Responses API error".into()),
        ]
    );
    assert_eq!(p.finish(), vec![ProviderStreamEvent::Done { stop_reason: StopReason::EndTurn }]);
}

#[test]
fn anthropic_stream_with_tool_use() {
    let sse_data = &[
        "event: message_start\n",
        r#"data: {"message":{"usage":{"input_tokens":25}}}"#,
        "\n\n",
        "event: content_block_delta\n",
        r#"data: {"delta":{"type":"thinking_delta","thinking":"hmm"}}"#,
        "\n\n",
        "event: content_block_delta\n",
        r#"data: {"delta":{"type":"text_delta","text":"Sure"}}"#,
        "\n\n",
        "event: content_block_start\n",
        r#"data: {"content_block":{"type":"tool_use","id":"tu_1","name":"ls"}}"#,
        "\n\n",
        "event: content_block_delta\n",
        r#"data: {"delta":{"type":"input_json_delta","partial_json":"{\"path\":"}}"#,
        "\n\n",
        "event: content_block_delta\n",
        r#"data: {"delta":{"type":"input_json_delta","partial_json":"\".\"}"}}"#,
        "\n\n",
        "event: content_block_stop\n",
        "data: {}\n\n",
        "event: message_delta\n",
        r#"data: {"delta":{"stop_reason":"tool_use"},"usage":{"output_tokens":9}}"#,
        "\n\n",
        "event: message_stop\n",
        "data: {}\n\n",
    ]
    .concat();
    let events = parse_anthropic_sse(&chunks(sse_data));
    assert_eq!(
        events,
        vec![
            ProviderStreamEvent::Usage { input_tokens: 25, output_tokens: 0 },
            ProviderStreamEvent::ThinkingDelta("hmm".into()),
            ProviderStreamEvent::TextDelta("Sure".into()),
            ProviderStreamEvent::ToolCall { id: "tu_1".into(), name: "ls".into(), input: object(&[("path", text("."))]) },
            ProviderStreamEvent::Usage { input_tokens: 0, output_tokens: 9 },
            ProviderStreamEvent::Done { stop_reason: StopReason::ToolUse },
        ]
    );
}

#[test]
fn anthropic_block_split_across_chunks_and_blocks_without_data() {
    let mut p = AnthropicSse::new();
    assert!(p.feed(b"event: ping\n\nevent: message_st").is_empty());
    assert!(p.feed(b"op\ndata: {}").is_empty());
    assert_eq!(p.feed(b"\n\n"), vec![ProviderStreamEvent::Done { stop_reason: StopReason::EndTurn }]);
}

fn num(n: u64) -> JsonValue {
    JsonValue::Number(JsonNumber::PosInt(n))
}

#[test]
fn parsed_payloads_give_the_events_of_their_text() {
    let mut oa = OpenAiSse::new();
    let payload = object(&[
        ("usage", object(&[("prompt_tokens", num(12)), ("completion_tokens", num(3))])),
        (
            "choices",
            JsonValue::Array(vec![object(&[
                ("delta", object(&[("content", text("x"))])),
                ("finish_reason", text("length")),
            ])]),
        ),
    ]);
    assert_eq!(
        oa.take_json(&payload),
        vec![
            ProviderStreamEvent::Usage { input_tokens: 12, output_tokens: 3 },
            ProviderStreamEvent::TextDelta("x".into()),
            ProviderStreamEvent::Done { stop_reason: StopReason::MaxTokens },
        ]
    );

    let mut rs = ResponsesSse::new();
    let delta = object(&[("type", text("response.output_text.delta")), ("delta", text("Hello"))]);
    assert_eq!(rs.take_json(&delta), vec![ProviderStreamEvent::TextDelta("Hello".into())]);

    let mut an = AnthropicSse::new();
    let thinking = object(&[("delta", object(&[("type", text("thinking_delta")), ("thinking", text("hmm"))]))]);
    assert_eq!(an.take_json("content_block_delta", &thinking), vec![ProviderStreamEvent::ThinkingDelta("hmm".into())]);
    assert_eq!(an.take_json("ping", &thinking), vec![]);

    let mut gm = GeminiSse::new();
    let answer = object(&[(
        "candidates",
        JsonValue::Array(vec![object(&[(
            "content",
            object(&[("parts", JsonValue::Array(vec![object(&[("text", text("ok"))])]))]),
        )])]),
    )]);
    assert_eq!(gm.take_json(answer), vec![ProviderStreamEvent::TextDelta("ok".into())]);
}
