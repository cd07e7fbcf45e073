use oma::json::{JsonNumber, JsonValue};
use oma::message::{Block, ChatMessage, Role};
use oma::session::{message_entry, ms_from_iso_exec, iso_from_ms, Entry, EntryKind, SessionStore};
use oma::storage::StorageError;

fn msg(id: &str, parent: Option<&str>, text: &str, at: i64) -> ChatMessage {
    ChatMessage {
        id: id.into(),
        parent_id: parent.map(|p| p.into()),
        role: Role::User,
        content: vec![Block::Text { text: text.into() }],
        created_at: at,
    }
}

fn append_message(store: &mut SessionStore, m: ChatMessage) {
    let e = message_entry(m);
    store.entries.push(e);
}

fn ids(ms: &[ChatMessage]) -> Vec<&str> {
    ms.iter().map(|m| m.id.as_str()).collect()
}

/// A new session with fixed time stamps.
fn store(title: &str) -> SessionStore {
    let mut s = SessionStore::create("s_1", "/workspace/test", title, "model-a", "task", "medium");
    s.header.timestamp = "2026-01-01T00:00:00.000Z".to_string();
    for e in s.entries.iter_mut() {
        e.timestamp = "2026-01-01T00:00:00.000Z".to_string();
    }
    s
}

fn linear(s: &SessionStore, leaf: Option<&str>) -> Vec<String> {
    // linear_messages consumes the store: work on a rebuilt copy of the log
    let copy = SessionStore {
        header: oma::session::SessionHeader {
            id: s.header.id.clone(),
            timestamp: s.header.timestamp.clone(),
            cwd: s.header.cwd.clone(),
            model: s.header.model.clone(),
            agent: s.header.agent.clone(),
            reasoning_level: s.header.reasoning_level.clone(),
        },
        entries: s.entries.iter().map(copy_entry).collect(),
    };
    copy.linear_messages(leaf).into_iter().map(|m| m.id).collect()
}

fn copy_json(v: &JsonValue) -> JsonValue {
    match v {
        JsonValue::Null => JsonValue::Null,
        JsonValue::Bool(b) => JsonValue::Bool(*b),
        JsonValue::Number(n) => JsonValue::Number(n.clone()),
        JsonValue::Str(s) => JsonValue::Str(s.clone()),
        JsonValue::Array(a) => JsonValue::Array(a.iter().map(copy_json).collect()),
        JsonValue::Object(m) => JsonValue::Object(m.iter().map(|(k, x)| (k.clone(), copy_json(x))).collect()),
    }
}

fn copy_entry(e: &Entry) -> Entry {
    let kind = match &e.kind {
        EntryKind::Message { role, content, created_at } => EntryKind::Message {
            role: *role,
            content: content
                .iter()
                .map(|b| match b {
                    Block::Text { text } => Block::Text { text: text.clone() },
                    other => panic!("unexpected block {:?}", other),
                })
                .collect(),
            created_at: *created_at,
        },
        EntryKind::SessionInfo { name } => EntryKind::SessionInfo { name: name.clone() },
        EntryKind::ModelChange { provider, model_id } => {
            EntryKind::ModelChange { provider: provider.clone(), model_id: model_id.clone() }
        }
        EntryKind::ThinkingLevelChange { thinking_level } => {
            EntryKind::ThinkingLevelChange { thinking_level: thinking_level.clone() }
        }
        EntryKind::Custom { custom_type, data } => {
            EntryKind::Custom { custom_type: custom_type.clone(), data: copy_json(data) }
        }
    };
    Entry { id: e.id.clone(), parent_id: e.parent_id.clone(), timestamp: e.timestamp.clone(), kind }
}

#[test]
fn test_storage_crud_and_branching() {
    let mut s = store("Test Session");
    let rec = s.record();
    assert_eq!(rec.session_id, "s_1");
    assert_eq!(rec.title, "Test Session");
    assert_eq!(rec.workspace, "/workspace/test");

    append_message(&mut s, msg("m_1", None, "Hello", 1000));
    append_message(&mut s, msg("m_2", Some("m_1"), "Hi there", 2000));
    assert_eq!(linear(&s, None), vec!["m_1", "m_2"]);

    append_message(&mut s, msg("m_3", Some("m_1"), "Alternative branch", 3000));
    assert_eq!(linear(&s, None), vec!["m_1", "m_3"]);

    let marker = s.leaf_entry("s_1", "m_2").unwrap();
    s.entries.push(marker);
    assert_eq!(linear(&s, None), vec!["m_1", "m_2"]);
    assert_eq!(s.leaf().as_deref(), Some("m_2"));
    assert_eq!(linear(&s, Some("m_3")), vec!["m_1", "m_3"]);

    match s.leaf_entry("s_1", "nope") {
        Err(StorageError::NotFound(m)) => assert_eq!(m, "message nope in session s_1"),
        other => panic!("unexpected {:?}", other.is_ok()),
    }
}

#[test]
fn test_delete_message_subtree() {
    let mut s = store("Del");
    for (id, p) in [("m1", None), ("m2", Some("m1")), ("m3", Some("m2")), ("m4", Some("m1"))] {
        append_message(&mut s, msg(id, p, id, 0));
    }
    let (deleted, leaf) = s.delete_subtree("s_del", "m2").unwrap();
    assert_eq!(deleted, vec!["m2", "m3"]);
    assert_eq!(leaf.as_deref(), Some("m4"));
    assert_eq!(linear(&s, None), vec!["m1", "m4"]);

    let (deleted, leaf) = s.delete_subtree("s_del", "m4").unwrap();
    assert_eq!(deleted, vec!["m4"]);
    assert_eq!(leaf.as_deref(), Some("m1"));
    assert_eq!(linear(&s, None).len(), 1);

    match s.delete_subtree("s_del", "nope") {
        Err(StorageError::NotFound(m)) => assert_eq!(m, "message nope in session s_del"),
        _ => panic!("expected NotFound"),
    }
}

#[test]
fn delete_subtree_walks_depth_first_last_child_first() {
    let mut s = store("");
    for (id, p) in [("r", None), ("a", Some("r")), ("b", Some("r")), ("a1", Some("a")), ("b1", Some("b"))] {
        append_message(&mut s, msg(id, p, id, 0));
    }
    let (deleted, leaf) = s.delete_subtree("s", "r").unwrap();
    assert_eq!(deleted, vec!["r", "b", "b1", "a", "a1"]);
    assert_eq!(leaf, None);
    assert!(s.leaf().is_none());
    assert!(linear(&s, None).is_empty());
}

#[test]
fn test_set_title_if_empty_respects_existing_title() {
    let s = store("我的标题");
    assert!(s.title_entry_if_empty("模型起的名字").is_none());
    assert_eq!(s.record().title, "我的标题");

    let mut auto = store("");
    let e = auto.title_entry_if_empty("自动命名").expect("untitled session takes the name");
    auto.entries.push(e);
    assert_eq!(auto.record().title, "自动命名");
    assert!(auto.title_entry_if_empty("另一个名字").is_none());

    let blank = store("");
    assert!(blank.title_entry_if_empty("   ").is_none());
    assert_eq!(blank.record().title, "");
}

#[test]
fn test_context_usage_roundtrip() {
    let mut s = store("T");
    assert!(s.context_usage().is_none());
    let e = s.context_usage_entry(123_456, 1_048_576, 42);
    s.entries.push(e);
    assert_eq!(s.context_usage(), Some((123_456, 1_048_576, 42)));
    let e = s.context_usage_entry(200, 1000, 7);
    s.entries.push(e);
    assert_eq!(s.context_usage(), Some((200, 1000, 7)));
}

#[test]
fn test_context_usage_tolerates_corrupt_value() {
    let mut s = store("T");
    s.entries.push(Entry {
        id: "x".into(),
        parent_id: None,
        timestamp: "2026-01-01T00:00:00.000Z".into(),
        kind: EntryKind::Custom {
            custom_type: "oma.context_usage".into(),
            data: JsonValue::Object(vec![("tokens".into(), JsonValue::Str("oops".into()))]),
        },
    });
    assert!(s.context_usage().is_none());
}

#[test]
fn settings_entries_update_the_record() {
    let mut s = store("T");
    append_message(&mut s, msg("m1", None, "hi", 5000));
    let es = s.settings_entries(Some("acme/large-1"), Some("plan"), Some("high"));
    assert_eq!(es.len(), 3);
    for e in &es {
        assert_eq!(e.parent_id.as_deref(), Some("m1"));
    }
    for e in es {
        s.entries.push(e);
    }
    let rec = s.record();
    assert_eq!(rec.active_model, "acme/large-1");
    assert_eq!(rec.active_agent, "plan");
    assert_eq!(rec.reasoning_level, "high");
    assert_eq!(rec.current_leaf_id.as_deref(), Some("m1"));
    assert!(rec.updated_at >= rec.created_at);
}

#[test]
fn record_times_come_from_the_stamps() {
    let mut s = store("T");
    append_message(&mut s, msg("m1", None, "hi", 1_767_225_600_000 + 3_000));
    let rec = s.record();
    assert_eq!(rec.created_at, 1_767_225_600_000);
    assert_eq!(rec.updated_at, 1_767_225_603_000);
    assert_eq!(ms_from_iso_exec("not a time"), 0);
    assert_eq!(iso_from_ms(0), "1970-01-01T00:00:00.000Z");
    assert_eq!(ms_from_iso_exec(&iso_from_ms(1_767_225_603_000)), 1_767_225_603_000);
}

#[test]
fn leaf_marker_without_a_string_clears_the_leaf() {
    let mut s = store("T");
    append_message(&mut s, msg("m1", None, "hi", 0));
    s.entries.push(Entry {
        id: "x".into(),
        parent_id: None,
        timestamp: "2026-01-01T00:00:00.000Z".into(),
        kind: EntryKind::Custom {
            custom_type: "oma.leaf".into(),
            data: JsonValue::Object(vec![("leafId".into(), JsonValue::Number(JsonNumber::PosInt(3)))]),
        },
    });
    assert!(s.leaf().is_none());
}
