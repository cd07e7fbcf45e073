use oma::json::{JsonNumber, JsonValue};
use oma::message::{Block, ChatMessage, Role};
use oma::endpoint::{api_error_text, api_kind, build_request, ApiKind};
use oma::provider::{ModelConfig, ProviderConfig};
use oma::request::{
    build_anthropic_body, build_completion_body, build_gemini_body, build_openai_messages, build_responses_body,
    build_responses_input,
};
use oma::runtime::apply_reasoning_level;

fn text(s: &str) -> JsonValue {
    JsonValue::Str(s.to_string())
}

fn obj(members: Vec<(&str, JsonValue)>) -> JsonValue {
    JsonValue::Object(members.into_iter().map(|(k, v)| (k.to_string(), v)).collect())
}

fn at<'a>(v: &'a JsonValue, path: &[&str]) -> &'a JsonValue {
    let mut cur = v;
    for p in path {
        cur = match p.parse::<usize>() {
            Ok(i) => cur.get_index(i).unwrap(),
            Err(_) => cur.get(p).unwrap(),
        };
    }
    cur
}

fn model_with(map: &[(&str, &str)]) -> ModelConfig {
    ModelConfig {
        id: "m".into(),
        name: "m".into(),
        context_len: 1000,
        supports_vision: true,
        supports_thinking: true,
        max_output: None,
        reasoning_effort: String::new(),
        reasoning_map: map.iter().map(|(k, v)| (k.to_string(), v.to_string())).collect(),
        headers: Vec::new(),
        body: obj(vec![]),
    }
}

fn user_with_image() -> ChatMessage {
    ChatMessage {
        id: "m1".into(),
        parent_id: None,
        role: Role::User,
        content: vec![
            Block::Text { text: "look".into() },
            Block::Image { mime_type: "image/png".into(), data: "QUJD".into() },
        ],
        created_at: 0,
    }
}

fn message(id: &str, role: Role, content: Vec<Block>) -> ChatMessage {
    ChatMessage { id: id.into(), parent_id: None, role, content, created_at: 0 }
}

#[test]
fn test_openai_messages_keep_images() {
    let msgs = build_openai_messages(&[user_with_image()], None);
    let content = at(&msgs[0], &["content"]);
    assert!(content.as_array().is_some(), "image messages must use parts form: {:?}", content);
    assert_eq!(at(content, &["0", "type"]), &text("text"));
    assert_eq!(at(content, &["1", "type"]), &text("image_url"));
    assert_eq!(at(content, &["1", "image_url", "url"]), &text("data:image/png;base64,QUJD"));
}

#[test]
fn openai_messages_split_tool_results_and_join_text() {
    let call = message(
        "a1",
        Role::Assistant,
        vec![
            Block::Thinking { thinking: "hmm".into() },
            Block::Text { text: "one".into() },
            Block::Text { text: "two".into() },
            Block::ToolUse { id: "c1".into(), name: "read".into(), input: obj(vec![("path", text("x"))]) },
        ],
    );
    let results = message(
        "r1",
        Role::User,
        vec![
            Block::ToolResult { tool_use_id: "c1".into(), content: "body".into(), is_error: false },
            Block::ToolResult { tool_use_id: "c2".into(), content: "oops".into(), is_error: true },
        ],
    );
    let plain = message("u2", Role::User, vec![Block::Text { text: "a".into() }, Block::Text { text: "b".into() }]);
    let msgs = build_openai_messages(&[call, results, plain], Some("sys"));
    assert_eq!(msgs.len(), 5);
    assert_eq!(msgs[0], obj(vec![("content", text("sys")), ("role", text("system"))]));
    assert_eq!(at(&msgs[1], &["content"]), &text("one\ntwo"));
    assert_eq!(at(&msgs[1], &["tool_calls", "0", "function", "arguments"]), &text("{\"path\":\"x\"}"));
    assert_eq!(at(&msgs[1], &["tool_calls", "0", "type"]), &text("function"));
    assert_eq!(
        msgs[2],
        obj(vec![("content", text("body")), ("role", text("tool")), ("tool_call_id", text("c1"))])
    );
    assert_eq!(at(&msgs[3], &["tool_call_id"]), &text("c2"));
    assert_eq!(msgs[4], obj(vec![("content", text("a\nb")), ("role", text("user"))]));
}

#[test]
fn test_gemini_body_maps_tools_images_and_calls() {
    let assistant_call = ChatMessage {
        id: "a1".into(),
        parent_id: Some("m1".into()),
        role: Role::Assistant,
        content: vec![Block::ToolUse { id: "call_1".into(), name: "read".into(), input: obj(vec![("path", text("x.rs"))]) }],
        created_at: 0,
    };
    let tool_result = ChatMessage {
        id: "r1".into(),
        parent_id: Some("a1".into()),
        role: Role::User,
        content: vec![Block::ToolResult { tool_use_id: "call_1".into(), content: "file body".into(), is_error: false }],
        created_at: 0,
    };
    let tools = vec![obj(vec![
        ("name", text("read")),
        ("description", text("Read a file")),
        ("parameters", obj(vec![("type", text("object"))])),
    ])];
    let mut model = model_with(&[]);
    model.id = "gemini-pro".into();
    model.name = "gemini-pro".into();
    model.max_output = Some(256);

    let body = build_gemini_body(&[user_with_image(), assistant_call, tool_result], Some("sys"), &tools, &model);

    assert_eq!(at(&body, &["tools", "0", "functionDeclarations", "0", "name"]), &text("read"));
    assert_eq!(at(&body, &["contents", "0", "parts", "1", "inlineData", "data"]), &text("QUJD"));
    assert_eq!(at(&body, &["contents", "1", "parts", "0", "functionCall", "name"]), &text("read"));
    assert_eq!(at(&body, &["contents", "2", "parts", "0", "functionResponse", "name"]), &text("read"));
    assert_eq!(
        at(&body, &["contents", "2", "parts", "0", "functionResponse", "response", "result"]),
        &text("file body")
    );
    assert_eq!(at(&body, &["systemInstruction", "parts", "0", "text"]), &text("sys"));
    assert_eq!(at(&body, &["generationConfig", "maxOutputTokens"]), &JsonValue::Number(JsonNumber::PosInt(256)));
}

#[test]
fn gemini_body_merges_sides_and_splits_data_urls() {
    let m1 = message("u1", Role::User, vec![Block::Text { text: "a".into() }]);
    let sys = message("s1", Role::System, vec![Block::Text { text: "ignored".into() }]);
    let m2 = message(
        "u2",
        Role::User,
        vec![
            Block::Text { text: String::new() },
            Block::Image { mime_type: "image/png".into(), data: "data:image/jpeg;base64,AAA;base64,B".into() },
        ],
    );
    let thinking_only = message("a0", Role::Assistant, vec![Block::Thinking { thinking: "t".into() }]);
    let m3 = message(
        "a1",
        Role::Assistant,
        vec![Block::ToolResult { tool_use_id: "unknown".into(), content: "bad".into(), is_error: true }],
    );
    let tools = vec![text("not an object")];
    let body = build_gemini_body(&[m1, sys, m2, thinking_only, m3], None, &tools, &model_with(&[]));

    let contents = at(&body, &["contents"]).as_array().unwrap();
    assert_eq!(contents.len(), 2);
    assert_eq!(at(&contents[0], &["role"]), &text("user"));
    assert_eq!(at(&contents[0], &["parts"]).as_array().unwrap().len(), 2);
    assert_eq!(at(&contents[0], &["parts", "1", "inlineData", "mimeType"]), &text("image/jpeg"));
    assert_eq!(at(&contents[0], &["parts", "1", "inlineData", "data"]), &text("AAA;base64,B"));
    assert_eq!(at(&contents[1], &["role"]), &text("model"));
    assert_eq!(at(&contents[1], &["parts", "0", "functionResponse", "name"]), &text("unknown"));
    assert_eq!(at(&contents[1], &["parts", "0", "functionResponse", "response", "error"]), &text("bad"));
    assert_eq!(
        at(&body, &["tools", "0", "functionDeclarations", "0"]),
        &obj(vec![("description", JsonValue::Null), ("name", JsonValue::Null), ("parameters", JsonValue::Null)])
    );
    assert!(body.get("systemInstruction").is_none());
    assert!(body.get("generationConfig").is_none());
}

#[test]
fn gemini_tool_response_takes_last_call_name() {
    let calls = message(
        "a1",
        Role::Assistant,
        vec![
            Block::ToolUse { id: "c".into(), name: "first".into(), input: JsonValue::Null },
            Block::ToolUse { id: "c".into(), name: "second".into(), input: JsonValue::Null },
        ],
    );
    let result = message("r1", Role::User, vec![Block::ToolResult { tool_use_id: "c".into(), content: "x".into(), is_error: false }]);
    let body = build_gemini_body(&[result, calls], None, &[], &model_with(&[]));
    assert_eq!(at(&body, &["contents", "0", "parts", "0", "functionResponse", "name"]), &text("second"));
    assert!(body.get("tools").is_none());
}

#[test]
fn test_reasoning_passthrough_without_map() {
    let m = model_with(&[]);
    assert_eq!(m.resolve_reasoning_effort("medium").as_deref(), Some("medium"));
    assert_eq!(m.resolve_reasoning_effort("ultra").as_deref(), Some("ultra"));
}

#[test]
fn test_reasoning_map_overrides_and_falls_back() {
    let m = model_with(&[("low", "think-low"), ("high", "think-ultra")]);
    assert_eq!(m.resolve_reasoning_effort("low").as_deref(), Some("think-low"));
    assert_eq!(m.resolve_reasoning_effort("high").as_deref(), Some("think-ultra"));
    assert_eq!(m.resolve_reasoning_effort("medium").as_deref(), Some("medium"));
}

#[test]
fn test_reasoning_map_empty_disables() {
    let m = model_with(&[("minimal", ""), ("ultra", "  ")]);
    assert!(m.resolve_reasoning_effort("minimal").is_none());
    assert_eq!(m.resolve_reasoning_effort("ultra").as_deref(), Some("  "));
}

fn thinking_model(supports_thinking: bool, map: &[(&str, &str)]) -> ModelConfig {
    let mut m = model_with(map);
    m.supports_thinking = supports_thinking;
    m
}

#[test]
fn test_apply_reasoning_level_maps_for_thinking_model() {
    let mut m = thinking_model(true, &[("ultra", "think-ultra")]);
    apply_reasoning_level(&mut m, "ultra");
    assert_eq!(m.reasoning_effort, "think-ultra");

    let mut m2 = thinking_model(true, &[("low", "x")]);
    apply_reasoning_level(&mut m2, "medium");
    assert_eq!(m2.reasoning_effort, "medium");
}

#[test]
fn test_apply_reasoning_level_skipped_for_non_thinking_model() {
    let mut m = thinking_model(false, &[("ultra", "think-ultra")]);
    apply_reasoning_level(&mut m, "ultra");
    assert!(
        m.reasoning_effort.is_empty(),
        "non-thinking model must not receive reasoning params, got {:?}",
        m.reasoning_effort
    );
}

#[test]
fn apply_reasoning_level_switched_off_level_sends_nothing() {
    let mut m = thinking_model(true, &[("minimal", "")]);
    m.reasoning_effort = "old".into();
    apply_reasoning_level(&mut m, "minimal");
    assert_eq!(m.reasoning_effort, "");
    assert_eq!(m.id, "m");
}

fn provider(api_type: &str, body: JsonValue) -> ProviderConfig {
    ProviderConfig {
        api_type: api_type.into(),
        base_url: "https://api.example.com//".into(),
        api_key: "env:EXAMPLE_KEY".into(),
        headers: vec![("x-extra".into(), "1".into())],
        body,
        models: vec![],
    }
}

fn tool_decl() -> JsonValue {
    obj(vec![
        ("name", text("read")),
        ("description", text("Read a file")),
        ("parameters", obj(vec![("type", text("object"))])),
    ])
}

#[test]
fn anthropic_body_shapes_blocks_and_merges_presets() {
    let call = message(
        "a1",
        Role::Assistant,
        vec![
            Block::Thinking { thinking: "t".into() },
            Block::ToolUse { id: "c1".into(), name: "read".into(), input: obj(vec![("path", text("x"))]) },
        ],
    );
    let result = message(
        "r1",
        Role::User,
        vec![Block::ToolResult { tool_use_id: "c1".into(), content: "body".into(), is_error: true }],
    );
    let system = message("s", Role::System, vec![Block::Text { text: "ignored".into() }]);
    let empty = message("e", Role::User, vec![]);
    let mut model = model_with(&[]);
    model.body = obj(vec![("max_tokens", JsonValue::Number(JsonNumber::PosInt(10)))]);
    let preset = obj(vec![("stream", JsonValue::Bool(false)), ("metadata", obj(vec![("k", text("v"))]))]);
    let body = build_anthropic_body(&[user_with_image(), call, result, system, empty], Some("sys"), &[tool_decl()], &model, &preset);

    assert_eq!(at(&body, &["max_tokens"]), &JsonValue::Number(JsonNumber::PosInt(10)));
    assert_eq!(at(&body, &["stream"]), &JsonValue::Bool(false));
    assert_eq!(at(&body, &["metadata", "k"]), &text("v"));
    assert_eq!(at(&body, &["system"]), &text("sys"));
    assert_eq!(at(&body, &["model"]), &text("m"));
    assert_eq!(at(&body, &["messages"]).as_array().unwrap().len(), 3);
    assert_eq!(at(&body, &["messages", "0", "content", "1", "source", "media_type"]), &text("image/png"));
    assert_eq!(at(&body, &["messages", "1", "role"]), &text("assistant"));
    assert_eq!(at(&body, &["messages", "1", "content", "0", "type"]), &text("thinking"));
    assert_eq!(at(&body, &["messages", "1", "content", "1", "input", "path"]), &text("x"));
    assert_eq!(at(&body, &["messages", "2", "content", "0", "is_error"]), &JsonValue::Bool(true));
    assert_eq!(at(&body, &["tools", "0", "input_schema", "type"]), &text("object"));
}

#[test]
fn anthropic_body_defaults_output_limit() {
    let body = build_anthropic_body(&[], None, &[], &model_with(&[]), &obj(vec![]));
    assert_eq!(
        body,
        obj(vec![
            ("max_tokens", JsonValue::Number(JsonNumber::PosInt(4096))),
            ("messages", JsonValue::Array(vec![])),
            ("model", text("m")),
            ("stream", JsonValue::Bool(true)),
        ])
    );
}

#[test]
fn completion_body_carries_effort_limit_and_tools() {
    let mut model = model_with(&[]);
    model.max_output = Some(64);
    model.reasoning_effort = "high".into();
    let body = build_completion_body(&[user_with_image()], None, &[tool_decl()], &model, &obj(vec![]));
    assert_eq!(at(&body, &["max_tokens"]), &JsonValue::Number(JsonNumber::PosInt(64)));
    assert_eq!(at(&body, &["reasoning_effort"]), &text("high"));
    assert_eq!(at(&body, &["tools", "0", "type"]), &text("function"));
    assert_eq!(at(&body, &["tools", "0", "function", "name"]), &text("read"));
    assert_eq!(at(&body, &["messages", "0", "role"]), &text("user"));

    let plain = build_completion_body(&[], None, &[], &model_with(&[]), &obj(vec![]));
    assert!(plain.get("reasoning_effort").is_none());
    assert!(plain.get("max_tokens").is_none());
    assert!(plain.get("tools").is_none());
}

#[test]
fn responses_input_orders_calls_before_text_and_wraps_errors() {
    let assistant = message(
        "a1",
        Role::Assistant,
        vec![
            Block::Text { text: "let me look".into() },
            Block::ToolUse { id: "c1".into(), name: "read".into(), input: obj(vec![]) },
        ],
    );
    let results = message(
        "r1",
        Role::User,
        vec![
            Block::ToolResult { tool_use_id: "c1".into(), content: "fine".into(), is_error: false },
            Block::ToolResult { tool_use_id: "c2".into(), content: "bad".into(), is_error: true },
        ],
    );
    let only_thinking = message("u3", Role::User, vec![Block::Thinking { thinking: "x".into() }]);
    let input = build_responses_input(&[assistant, results, only_thinking], Some("sys"));
    assert_eq!(input.len(), 6);
    assert_eq!(at(&input[0], &["content", "0", "type"]), &text("input_text"));
    assert_eq!(at(&input[1], &["type"]), &text("function_call"));
    assert_eq!(at(&input[1], &["arguments"]), &text("{}"));
    assert_eq!(at(&input[2], &["content", "0", "text"]), &text("let me look"));
    assert_eq!(at(&input[2], &["content", "0", "type"]), &text("output_text"));
    assert_eq!(at(&input[3], &["output"]), &text("fine"));
    assert_eq!(at(&input[4], &["output"]), &text("{\"error\":\"bad\"}"));
    assert_eq!(at(&input[5], &["content", "0", "text"]), &text(""));

    let mut model = model_with(&[]);
    model.reasoning_effort = "low".into();
    model.max_output = Some(9);
    let body = build_responses_body(&[user_with_image()], None, &[tool_decl()], &model, &obj(vec![]));
    assert_eq!(at(&body, &["reasoning", "effort"]), &text("low"));
    assert_eq!(at(&body, &["max_output_tokens"]), &JsonValue::Number(JsonNumber::PosInt(9)));
    assert_eq!(at(&body, &["tools", "0", "type"]), &text("function"));
    assert_eq!(at(&body, &["input", "0", "content", "1", "image_url"]), &text("data:image/png;base64,QUJD"));
}

#[test]
fn request_urls_and_headers_follow_the_protocol() {
    let model = model_with(&[]);
    let a = build_request(&provider("anthropic", obj(vec![])), "k", &[], None, &[], &model).unwrap();
    assert_eq!(a.url, "https://api.example.com/v1/messages");
    assert_eq!(a.headers[0], ("x-api-key".to_string(), "k".to_string()));
    assert_eq!(a.headers[1], ("anthropic-version".to_string(), "2023-06-01".to_string()));
    assert_eq!(a.headers[3], ("x-extra".to_string(), "1".to_string()));

    let c = build_request(&provider("completion", obj(vec![])), "k", &[], None, &[], &model).unwrap();
    assert_eq!(c.url, "https://api.example.com/chat/completions");
    assert_eq!(c.headers[0], ("Authorization".to_string(), "Bearer k".to_string()));
    assert_eq!(c.headers.len(), 3);

    let r = build_request(&provider("response", obj(vec![])), "k", &[], None, &[], &model).unwrap();
    assert_eq!(r.url, "https://api.example.com/responses");

    let g = build_request(&provider("google", obj(vec![("safety", text("off"))])), "k", &[], None, &[], &model).unwrap();
    assert_eq!(g.url, "https://api.example.com/v1beta/models/m:streamGenerateContent?alt=sse&key=k");
    assert!(g.headers.is_empty());
    assert_eq!(at(&g.body, &["safety"]), &text("off"));

    match build_request(&provider("soap", obj(vec![])), "k", &[], None, &[], &model) {
        Err(e) => assert_eq!(e, "Unsupported api_type: soap"),
        Ok(_) => panic!("unknown protocol accepted"),
    }
}

#[test]
fn api_kinds_keys_and_errors() {
    assert_eq!(api_kind("google"), Ok(ApiKind::Google));
    assert_eq!(api_kind("response"), Ok(ApiKind::Responses));
    assert_eq!(api_kind("Anthropic"), Err("Unsupported api_type: Anthropic".to_string()));
    assert_eq!(provider("google", obj(vec![])).api_key_env().as_deref(), Some("EXAMPLE_KEY"));
    let mut p = provider("google", obj(vec![]));
    p.api_key = "sk-1".into();
    assert_eq!(p.api_key_env(), None);
    assert_eq!(api_error_text(ApiKind::Anthropic, "404 Not Found", "nope"), "Anthropic API error 404 Not Found: nope");
    assert_eq!(api_error_text(ApiKind::Completion, "500", "x"), "API error 500: x");
    assert_eq!(api_error_text(ApiKind::Google, "400", ""), "Gemini API error 400: ");
    assert_eq!(api_error_text(ApiKind::Responses, "401", "k"), "Responses API error 401: k");
}
