use oma::storage::{list_order, pick_session, SessionRecord};

fn rec(id: &str, workspace: &str, updated_at: i64) -> SessionRecord {
    SessionRecord {
        session_id: id.into(),
        workspace: workspace.into(),
        title: String::new(),
        active_model: String::new(),
        active_agent: String::new(),
        reasoning_level: String::new(),
        current_leaf_id: None,
        created_at: 0,
        updated_at,
        is_running: false,
    }
}

fn ids(v: &[SessionRecord]) -> Vec<&str> {
    v.iter().map(|r| r.session_id.as_str()).collect()
}

#[test]
fn sessions_are_listed_newest_first_per_workspace() {
    let all = || vec![rec("a", "/w", 10), rec("b", "/x", 30), rec("c", "/w", 20), rec("d", "/w", 20)];
    assert_eq!(ids(&list_order(all(), None)), vec!["b", "c", "d", "a"]);
    assert_eq!(ids(&list_order(all(), Some("/w"))), vec!["c", "d", "a"]);
    assert_eq!(ids(&list_order(all(), Some("/nowhere"))), Vec::<&str>::new());
}

#[test]
fn test_pick_session_prefers_explicit_id() {
    let list = vec![rec("s1", "/w", 1), rec("s2", "/w", 2)];
    assert_eq!(pick_session(&list, Some("s2")).unwrap().session_id, "s2");
    assert_eq!(pick_session(&list, Some("已删除")).unwrap().session_id, "s1");
    assert_eq!(pick_session(&list, None).unwrap().session_id, "s1");
    assert!(pick_session(&[], None).is_none());
}
