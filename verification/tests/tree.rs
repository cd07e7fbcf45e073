use oma::json::JsonValue;
use oma::message::{Block, ChatMessage, Role};
use oma::tree::{
    branch_leaf, branch_len, branch_tips, build_tree_items, fork_items, is_user_visible, leaf_snippet, message_text,
    tree_label, user_messages_on_branch,
};
use oma::tui::{display_width, PickerAction};

fn msg(id: &str, parent: Option<&str>, content: Vec<Block>, created_at: i64) -> ChatMessage {
    ChatMessage { id: id.into(), parent_id: parent.map(str::to_string), role: Role::Assistant, content, created_at }
}

fn user_msg(id: &str, parent: Option<&str>, text: &str, created_at: i64) -> ChatMessage {
    ChatMessage { role: Role::User, ..msg(id, parent, vec![body(text)], created_at) }
}

fn body(text: &str) -> Block {
    Block::Text { text: text.into() }
}

fn call(name: &str) -> Block {
    Block::ToolUse { id: "c1".into(), name: name.into(), input: JsonValue::Object(vec![]) }
}

fn receipt() -> Block {
    Block::ToolResult { tool_use_id: "c1".into(), content: "ok".into(), is_error: false }
}

#[test]
fn test_branch_tips_falls_back_to_visible_ancestor() {
    let tree = vec![
        msg("u1", None, vec![body("第一个问题")], 1),
        msg("a1", Some("u1"), vec![call("read")], 2),
        msg("t1", Some("a1"), vec![receipt()], 3),
        msg("a2", Some("u1"), vec![body("另一条分支的回答")], 4),
    ];
    let tips = branch_tips(&tree);
    assert_eq!(tips.iter().map(|m| m.id.as_str()).collect::<Vec<_>>(), vec!["a2", "a1"]);
    assert!(tips.iter().all(|m| is_user_visible(m)));
    assert_eq!(branch_len(&tree, tips[1]), 2);
    assert_eq!(branch_len(&tree, &tree[2]), 3);
}

#[test]
fn test_branch_tips_dedups_same_ancestor() {
    let tree = vec![
        msg("u1", None, vec![body("问题")], 1),
        msg("a1", Some("u1"), vec![body("回答")], 2),
        msg("t1", Some("a1"), vec![receipt()], 3),
        msg("t2", Some("a1"), vec![receipt()], 4),
    ];
    let tips = branch_tips(&tree);
    assert_eq!(tips.len(), 1);
    assert_eq!(tips[0].id, "a1");
}

#[test]
fn branch_tips_keep_tree_order_for_equal_times() {
    let tree = vec![
        msg("r", None, vec![body("root")], 1),
        msg("x", Some("r"), vec![body("x")], 5),
        msg("y", Some("r"), vec![body("y")], 5),
        msg("z", Some("r"), vec![body("z")], 7),
    ];
    let tips = branch_tips(&tree);
    assert_eq!(tips.iter().map(|m| m.id.as_str()).collect::<Vec<_>>(), vec!["z", "x", "y"]);
}

#[test]
fn test_leaf_snippet() {
    let multiline = msg("m", None, vec![body("第一行\n\n  第二行")], 1);
    assert_eq!(leaf_snippet(&multiline), "第一行 第二行");

    let long = msg("m", None, vec![body(&"字".repeat(40))], 2);
    let snippet = leaf_snippet(&long);
    assert!(snippet.ends_with('…'), "{snippet}");
    assert!(display_width(&snippet) <= 24);

    let tool = msg("m", None, vec![call("shell")], 3);
    assert_eq!(leaf_snippet(&tool), "⚙ shell");

    let blank = msg("m", None, vec![body("   "), receipt()], 4);
    assert_eq!(leaf_snippet(&blank), "assistant");
    assert_eq!(tree_label(&tool), "◆ ⚙ shell");
    assert_eq!(tree_label(&user_msg("u", None, "hi", 1)), "› hi");
}

#[test]
fn test_branch_leaf_uses_live_hint_else_newest() {
    let tree = vec![
        user_msg("u1", None, "问题", 1),
        msg("a1", Some("u1"), vec![body("回答")], 2),
        msg("a2", Some("u1"), vec![body("另一条分支")], 3),
    ];
    assert_eq!(branch_leaf(&tree, Some("a1")).unwrap().id, "a1");
    assert_eq!(branch_leaf(&tree, Some("u1")).unwrap().id, "a2");
    assert_eq!(branch_leaf(&tree, None).unwrap().id, "a2");
    assert!(branch_leaf(&[], None).is_none());
}

#[test]
fn branch_leaf_takes_the_later_of_equally_new_leaves() {
    let tree = vec![
        user_msg("u1", None, "q", 1),
        msg("a1", Some("u1"), vec![body("x")], 2),
        msg("a2", Some("u1"), vec![body("y")], 2),
    ];
    assert_eq!(branch_leaf(&tree, Some("missing")).unwrap().id, "a2");
}

#[test]
fn test_user_messages_on_branch_newest_first() {
    let tree = vec![
        user_msg("u1", None, "第一个问题", 1),
        msg("a1", Some("u1"), vec![body("回答")], 2),
        user_msg("u2", Some("a1"), "第二个问题", 3),
        msg("a2", Some("u2"), vec![body("回答二")], 4),
        user_msg("u3", Some("u1"), "分叉问题", 5),
        msg("a3", Some("u3"), vec![body("分叉回答")], 6),
    ];
    let leaf = branch_leaf(&tree, Some("a2")).unwrap();
    let ids: Vec<&str> = user_messages_on_branch(&tree, Some(leaf)).iter().map(|m| m.id.as_str()).collect();
    assert_eq!(ids, vec!["u2", "u1"]);

    assert!(user_messages_on_branch(&tree, None).is_empty());
}

#[test]
fn walks_stop_on_a_cycle() {
    let tree = vec![msg("a", Some("b"), vec![body("a")], 1), user_msg("b", Some("a"), "b", 2)];
    let ids: Vec<&str> = user_messages_on_branch(&tree, Some(&tree[0])).iter().map(|m| m.id.as_str()).collect();
    assert_eq!(ids, vec!["b"]);
    assert_eq!(branch_len(&tree, &tree[0]), 3);
}

#[test]
fn test_fork_items_carry_text_and_parent() {
    let long = "很长的正文".repeat(20);
    let tree = vec![
        user_msg("u1", None, "第一个问题", 1),
        msg("a1", Some("u1"), vec![body("回答")], 2),
        user_msg("u2", Some("a1"), &long, 3),
        msg("a2", Some("u2"), vec![body("回答二")], 4),
    ];
    let leaf = branch_leaf(&tree, Some("a2")).unwrap();
    let items = fork_items(&tree, Some(leaf));
    assert_eq!(items.len(), 2);

    match &items[0].action {
        PickerAction::ForkFrom { text, parent_id, label } => {
            assert_eq!(text, &long);
            assert_eq!(parent_id.as_deref(), Some("a1"));
            assert!(label.ends_with('…'), "{label}");
        }
        _ => panic!("expected a resend"),
    }
    match &items[1].action {
        PickerAction::ForkFrom { parent_id, .. } => assert!(parent_id.is_none()),
        _ => panic!("expected a resend"),
    }
    assert_eq!(items[0].detail, "u2 · 从 a1 处重新开始");
    assert_eq!(items[1].detail, "u1 · 首条消息，无处可分叉");
}

#[test]
fn test_message_text_collects_text_blocks() {
    let message = msg("m", None, vec![call("read"), body("正文")], 1);
    assert_eq!(message_text(&message), "正文");
    assert_eq!(message_text(&msg("m2", None, vec![receipt()], 2)), "");
}

#[test]
fn test_tree_items_order_and_marks() {
    let tree = vec![
        user_msg("u1", None, "问题", 1),
        msg("a1", Some("u1"), vec![body("回答一")], 2),
        msg("t1", Some("a1"), vec![receipt()], 3),
        msg("a2", Some("u1"), vec![body("另一条分支")], 4),
    ];
    let items = build_tree_items(&tree, Some("a1"));
    let ids: Vec<&str> = items.iter().map(|item| item.id.as_str()).collect();
    assert_eq!(ids, vec!["u1", "a1", "t1", "a2"]);

    assert!(items[0].on_current && items[1].on_current);
    assert!(!items[3].on_current);
    assert!(items[2].is_leaf && items[3].is_leaf);
    assert!(!items[0].is_leaf);
    assert!(items[1].prefix.contains('├') || items[1].prefix.contains('└'), "{:?}", items[1].prefix);
}

#[test]
fn tree_lines_draw_connectors() {
    let tree = vec![
        user_msg("u1", None, "q", 1),
        msg("a2", Some("u1"), vec![body("late")], 5),
        msg("a1", Some("u1"), vec![body("early")], 2),
        msg("x", Some("a1"), vec![body("deep")], 6),
        msg("orphan", Some("gone"), vec![body("o")], 3),
    ];
    let items = build_tree_items(&tree, None);
    let lines: Vec<(String, String)> = items.iter().map(|i| (i.id.clone(), i.prefix.clone())).collect();
    assert_eq!(
        lines,
        vec![
            ("u1".to_string(), "".to_string()),
            ("a1".to_string(), "│  ├─ ".to_string()),
            ("x".to_string(), "│  │  └─ ".to_string()),
            ("a2".to_string(), "│  └─ ".to_string()),
            ("orphan".to_string(), "".to_string()),
        ]
    );
    assert_eq!(items[0].label, "› q");
    assert!(items.iter().all(|i| !i.on_current));
}
