use std::collections::HashSet;

use oma::json::JsonValue;
use oma::message::{Block, ChatMessage, Role};
use oma::runtime::{
    build_naming_prompt, compact_messages, compaction_threshold, count_history_chars, estimate_tokens, is_turn_start,
    try_compact_messages, try_estimate_tokens, TokenAnchor,
    NAMING_CONTEXT_CHARS,
};

const PRUNED_TOOL_RESULT: &str = "[工具执行结果已截断修剪以节省上下文窗口]";

fn text(role: Role, id: &str, parent: Option<&str>, body: &str) -> ChatMessage {
    ChatMessage {
        id: id.into(),
        parent_id: parent.map(str::to_string),
        role,
        content: vec![Block::Text { text: body.into() }],
        created_at: 0,
    }
}

fn path_input(path: &str) -> JsonValue {
    JsonValue::Object(vec![("path".to_string(), JsonValue::Str(path.to_string()))])
}

fn tool_use_msg(id: &str, parent: &str, call_id: &str) -> ChatMessage {
    ChatMessage {
        id: id.into(),
        parent_id: Some(parent.into()),
        role: Role::Assistant,
        content: vec![Block::ToolUse { id: call_id.into(), name: "read".into(), input: path_input("big.rs") }],
        created_at: 0,
    }
}

fn tool_result_msg(id: &str, parent: &str, call_id: &str, body: &str) -> ChatMessage {
    ChatMessage {
        id: id.into(),
        parent_id: Some(parent.into()),
        role: Role::User,
        content: vec![Block::ToolResult { tool_use_id: call_id.into(), content: body.into(), is_error: false }],
        created_at: 0,
    }
}

fn copy_block(b: &Block) -> Block {
    match b {
        Block::Text { text } => Block::Text { text: text.clone() },
        Block::Thinking { thinking } => Block::Thinking { thinking: thinking.clone() },
        Block::ToolUse { id, name, input } => Block::ToolUse { id: id.clone(), name: name.clone(), input: copy_json(input) },
        Block::ToolResult { tool_use_id, content, is_error } => {
            Block::ToolResult { tool_use_id: tool_use_id.clone(), content: content.clone(), is_error: *is_error }
        }
        Block::Image { mime_type, data } => Block::Image { mime_type: mime_type.clone(), data: data.clone() },
    }
}

fn copy_json(v: &JsonValue) -> JsonValue {
    match v {
        JsonValue::Null => JsonValue::Null,
        JsonValue::Bool(b) => JsonValue::Bool(*b),
        JsonValue::Number(n) => JsonValue::Number(n.clone()),
        JsonValue::Str(s) => JsonValue::Str(s.clone()),
        JsonValue::Array(a) => JsonValue::Array(a.iter().map(copy_json).collect()),
        JsonValue::Object(m) => JsonValue::Object(m.iter().map(|(k, x)| (k.clone(), copy_json(x))).collect()),
    }
}

fn copy_messages(ms: &[ChatMessage]) -> Vec<ChatMessage> {
    ms.iter()
        .map(|m| ChatMessage {
            id: m.id.clone(),
            parent_id: m.parent_id.clone(),
            role: m.role,
            content: m.content.iter().map(copy_block).collect(),
            created_at: m.created_at,
        })
        .collect()
}

fn assert_well_formed(messages: &[ChatMessage]) {
    assert!(!messages.is_empty(), "compaction must not empty the history");
    assert!(is_turn_start(&messages[0]), "history must start at a user turn boundary");
    let mut seen_tool_use = HashSet::new();
    for m in messages {
        for b in &m.content {
            match b {
                Block::ToolUse { id, .. } => {
                    seen_tool_use.insert(id.clone());
                }
                Block::ToolResult { tool_use_id, .. } => {
                    assert!(seen_tool_use.contains(tool_use_id), "orphan tool_result {}", tool_use_id);
                }
                _ => {}
            }
        }
    }
}

#[test]
fn test_tool_result_with_image_is_not_a_turn_start() {
    let mut msg = tool_result_msg("r1", "a1", "call_1", "mime: image/png");
    msg.content.push(Block::Image { mime_type: "image/png".into(), data: "QUJD".into() });
    assert!(!is_turn_start(&msg), "an image carried by a tool result must not open a new turn");

    let mut user_image = ChatMessage {
        id: "u1".into(),
        parent_id: None,
        role: Role::User,
        content: vec![Block::Image { mime_type: "image/png".into(), data: "QUJD".into() }],
        created_at: 0,
    };
    assert!(is_turn_start(&user_image), "a user-sent image opens a turn");
    user_image.content.push(Block::Text { text: "hi".into() });
    assert!(is_turn_start(&user_image));
    assert!(!is_turn_start(&tool_result_msg("r2", "a1", "call_2", "ok")));
}

#[test]
fn test_compaction_survives_image_tool_results() {
    let mut messages = Vec::new();
    let mut parent: Option<String> = None;
    for i in 0..6 {
        let user_id = format!("u{i}");
        messages.push(ChatMessage {
            id: user_id.clone(),
            parent_id: parent.clone(),
            role: Role::User,
            content: vec![Block::Text { text: format!("看看图 {i} {}", "详情".repeat(200)) }],
            created_at: i as i64,
        });
        let call_id = format!("call_{i}");
        let assistant_id = format!("a{i}");
        messages.push(tool_use_msg(&assistant_id, &user_id, &call_id));
        let mut result = tool_result_msg(&format!("r{i}"), &assistant_id, &call_id, &"结果".repeat(200));
        result.content.push(Block::Image { mime_type: "image/png".into(), data: "QUJD".into() });
        messages.push(result);
        parent = Some(format!("r{i}"));
    }
    compact_messages(&mut messages, 4_000, None);
    assert!(messages.len() < 18, "compaction should have dropped turns");
    assert_well_formed(&messages);
}

#[test]
fn test_compaction_keeps_tool_use_result_pairing() {
    let mut messages = Vec::new();
    let mut parent: Option<String> = None;
    for i in 0..6 {
        let user_id = format!("u{}", i);
        messages.push(text(Role::User, &user_id, parent.as_deref(), &"问".repeat(400)));
        let assistant_id = format!("a{}", i);
        messages.push(tool_use_msg(&assistant_id, &user_id, &format!("call{}", i)));
        let result_id = format!("r{}", i);
        messages.push(tool_result_msg(&result_id, &assistant_id, &format!("call{}", i), &"答".repeat(4000)));
        let reply_id = format!("t{}", i);
        messages.push(text(Role::Assistant, &reply_id, Some(&result_id), &"ok".repeat(400)));
        parent = Some(reply_id);
    }
    let before = messages.len();
    compact_messages(&mut messages, 4000, None);
    assert!(messages.len() < before, "compaction should drop old turns");
    assert_well_formed(&messages);
    assert!(messages.iter().any(|m| m.id == "u5"), "the latest turn must survive compaction");
}

#[test]
fn test_compaction_within_budget_is_noop() {
    let mut messages = vec![text(Role::User, "u1", None, "hello"), text(Role::Assistant, "a1", Some("u1"), "hi")];
    let original = copy_messages(&messages);
    compact_messages(&mut messages, 128_000, None);
    assert_eq!(messages, original);
}

#[test]
fn test_compaction_never_splits_single_turn() {
    let mut messages = vec![
        text(Role::User, "u1", None, &"问".repeat(2000)),
        tool_use_msg("a1", "u1", "call1"),
        tool_result_msg("r1", "a1", "call1", &"答".repeat(8000)),
    ];
    compact_messages(&mut messages, 2000, None);
    assert_well_formed(&messages);
    assert_eq!(messages.iter().map(|m| m.id.as_str()).collect::<Vec<_>>(), vec!["u1", "a1", "r1"]);
}

#[test]
fn test_compaction_prunes_old_results_within_turn() {
    let mut messages = vec![text(Role::User, "u1", None, &"问".repeat(400))];
    let mut parent = "u1".to_string();
    for i in 0..4 {
        let assistant_id = format!("a{}", i);
        let result_id = format!("r{}", i);
        messages.push(tool_use_msg(&assistant_id, &parent, &format!("call{}", i)));
        messages.push(tool_result_msg(&result_id, &assistant_id, &format!("call{}", i), &"答".repeat(4000)));
        parent = result_id;
    }
    compact_messages(&mut messages, 4000, None);
    assert_well_formed(&messages);
    let pruned = messages
        .iter()
        .flat_map(|m| &m.content)
        .filter(|b| matches!(b, Block::ToolResult { content, .. } if content == PRUNED_TOOL_RESULT))
        .count();
    assert!(pruned >= 1, "old tool results must be pruned");
    let last = messages.last().unwrap();
    assert_eq!(last.id, "r3");
    assert!(
        matches!(&last.content[0], Block::ToolResult { content, .. } if content.chars().count() == 4000),
        "the newest message must survive intact"
    );
}

#[test]
fn test_token_anchor_prefers_authoritative_count() {
    let messages = vec![
        text(Role::User, "u1", None, "hello"),
        text(Role::Assistant, "a1", Some("u1"), "world"),
        text(Role::User, "u2", Some("a1"), &"新".repeat(100)),
    ];
    let anchor = TokenAnchor::record(2, 50_000).unwrap();
    let estimated = anchor.estimate(&messages).unwrap();
    assert_eq!(estimated, 50_000 + estimate_tokens(&messages[2..]));
    assert!(estimated > estimate_tokens(&messages), "锚点应覆盖启发式的低估");
    assert!(TokenAnchor::record(2, 0).is_none());
}

#[test]
fn test_token_anchor_invalidated_after_prefix_trim() {
    let anchor = TokenAnchor::record(5, 10_000).unwrap();
    let trimmed = vec![text(Role::User, "u9", None, "only one left")];
    assert!(anchor.estimate(&trimmed).is_none(), "list shorter than the anchored prefix must invalidate the anchor");
}

#[test]
fn test_anchor_prevents_unnecessary_compaction() {
    let build = |chars: usize| {
        let mut messages = Vec::new();
        let mut parent: Option<String> = None;
        for i in 0..6 {
            let user_id = format!("u{}", i);
            messages.push(text(Role::User, &user_id, parent.as_deref(), &"a".repeat(chars)));
            let assistant_id = format!("a{}", i);
            messages.push(text(Role::Assistant, &assistant_id, Some(&user_id), &"b".repeat(chars)));
            parent = Some(assistant_id);
        }
        messages
    };
    let context_len = 30_000;
    let threshold = (context_len as f64 * 0.7) as usize;

    let mut heuristic_only = build(4_000);
    assert!(estimate_tokens(&heuristic_only) > threshold);
    let before = heuristic_only.len();
    compact_messages(&mut heuristic_only, context_len, None);
    assert!(heuristic_only.len() < before, "heuristic path must compact");

    let mut anchored = build(4_000);
    let anchor = TokenAnchor::record(10, 10_000).unwrap();
    assert!(anchor.estimate(&anchored).unwrap() <= threshold);
    compact_messages(&mut anchored, context_len, Some(anchor));
    assert_eq!(anchored.len(), build(4_000).len(), "authoritative anchor must suppress unnecessary compaction");
    assert_well_formed(&anchored);
}

#[test]
fn test_anchor_still_compacts_when_authority_exceeds_budget() {
    let mut messages = Vec::new();
    let mut parent: Option<String> = None;
    for i in 0..6 {
        let user_id = format!("u{}", i);
        messages.push(text(Role::User, &user_id, parent.as_deref(), &"问".repeat(200)));
        let assistant_id = format!("a{}", i);
        messages.push(tool_use_msg(&assistant_id, &user_id, &format!("call{}", i)));
        let result_id = format!("r{}", i);
        messages.push(tool_result_msg(&result_id, &assistant_id, &format!("call{}", i), &"答".repeat(2_000)));
        parent = Some(result_id);
    }
    let context_len = 4_000;
    let anchor = TokenAnchor::record(2, context_len).expect("authoritative count recorded");
    let before = messages.len();
    compact_messages(&mut messages, context_len, Some(anchor));
    assert!(messages.len() < before, "over-budget anchored history must still compact");
    assert_well_formed(&messages);
}

#[test]
fn compaction_threshold_matches_binary64() {
    let samples: Vec<usize> = vec![
        0, 1, 2, 3, 7, 10, 13, 20, 30, 100, 1000, 2000, 4000, 30_000, 128_000, 200_000, 1_000_000, 987_654_321,
        (1usize << 53) - 1, 1usize << 53, (1usize << 53) + 1, (1usize << 60) + 12345, usize::MAX - 1, usize::MAX,
    ];
    for n in samples {
        assert_eq!(compaction_threshold(n), (n as f64 * 0.7) as usize, "n = {}", n);
    }
    let mut x: u64 = 0x9E37_79B9_7F4A_7C15;
    for _ in 0..5000 {
        x ^= x << 13;
        x ^= x >> 7;
        x ^= x << 17;
        let n = (x >> (x % 64)) as usize;
        assert_eq!(compaction_threshold(n), (n as f64 * 0.7) as usize, "n = {}", n);
    }
}

#[test]
fn estimate_counts_characters_of_every_block() {
    let m = ChatMessage {
        id: "m".into(),
        parent_id: None,
        role: Role::Assistant,
        content: vec![
            Block::Text { text: "abcd".into() },
            Block::Thinking { thinking: "xy".into() },
            Block::ToolUse { id: "c".into(), name: "read".into(), input: path_input("a") },
            Block::Image { mime_type: "image/png".into(), data: "QUJD".into() },
        ],
        created_at: 0,
    };
    // 4 + 2 + (4 + len("{\"path\":\"a\"}") = 12) + 800 = 822 characters
    assert_eq!(estimate_tokens(&[m]), 411);
}

#[test]
fn test_build_naming_prompt_uses_dialogue_only() {
    let messages = vec![
        text(Role::User, "x", None, "帮我优化数据库查询"),
        ChatMessage {
            id: "t".into(),
            parent_id: None,
            role: Role::Assistant,
            content: vec![Block::ToolUse { id: "c1".into(), name: "read".into(), input: path_input("x") }],
            created_at: 0,
        },
        text(Role::Assistant, "y", None, "好的，我先看索引"),
    ];
    let prompt = build_naming_prompt(&messages).unwrap();
    assert!(prompt.contains("User: 帮我优化数据库查询"));
    assert!(prompt.contains("Assistant: 好的，我先看索引"));
    assert!(!prompt.contains("read"), "tool blocks must not leak into naming prompt");
}

#[test]
fn test_build_naming_prompt_none_without_text() {
    assert!(build_naming_prompt(&[]).is_none());
    let only_tools = vec![tool_result_msg("t", "p", "c1", "ok")];
    assert!(build_naming_prompt(&only_tools).is_none());
}

#[test]
fn test_build_naming_prompt_bounded() {
    let messages: Vec<ChatMessage> =
        (0..50).map(|i| text(Role::User, "u", None, &format!("{}-{}", i, "很长的内容".repeat(200)))).collect();
    let prompt = build_naming_prompt(&messages).unwrap();
    assert!(prompt.chars().count() < NAMING_CONTEXT_CHARS + 200, "prompt must stay bounded: {}", prompt.chars().count());
}

#[test]
fn naming_prompt_exact_text() {
    let messages = vec![
        text(Role::System, "s", None, "system words"),
        text(Role::User, "u", None, "  hi  "),
        text(Role::Assistant, "a", None, "hello"),
    ];
    assert_eq!(
        build_naming_prompt(&messages).unwrap(),
        "Conversation so far:\n\nUser: hi\n\nAssistant: hello\n\nReply with only a short title for this session."
    );
}

#[test]
fn checked_counts_agree_with_the_estimates() {
    let messages = vec![
        text(Role::User, "u1", None, "hello"),
        text(Role::Assistant, "a1", Some("u1"), "world"),
        text(Role::User, "u2", Some("a1"), &"新".repeat(100)),
    ];
    assert_eq!(count_history_chars(&messages), Some(110));
    assert_eq!(try_estimate_tokens(&messages), Some(estimate_tokens(&messages)));
    let anchor = TokenAnchor::record(2, 50_000).unwrap();
    assert_eq!(anchor.try_estimate(&messages), Some(Some(50_050)));
    assert_eq!(TokenAnchor::record(9, 1).unwrap().try_estimate(&messages), Some(None));
    let huge = TokenAnchor::record(1, usize::MAX).unwrap();
    assert_eq!(huge.try_estimate(&messages), None);
    let mut same = copy_messages(&messages);
    assert!(!try_compact_messages(&mut same, 10, Some(huge)));
    assert_eq!(same, messages);
    let mut kept = copy_messages(&messages);
    assert!(try_compact_messages(&mut kept, 128_000, None));
    assert_eq!(kept, messages);
}
