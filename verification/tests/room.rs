use oma::message::Block;
use oma::room::{
    tool_gate, GateStep,
    allowed_tools, already_named, blocked_by_plugin, naming_feed, queued_command, queued_run, rollback_leaf,
    tool_not_found, tool_refusal, user_turn_blocks, AgentCommand, AgentTemplate,
};
use oma::sse::{ProviderStreamEvent, StopReason};

#[test]
fn test_queued_fork_keeps_parent() {
    let queued = queued_run(AgentCommand::ForkAndRun {
        parent_message_id: "m_parent".into(),
        new_content: Some("edited".into()),
    });
    assert_eq!(queued, Some(("edited".to_string(), Vec::new(), Some("m_parent".to_string()))));

    assert_eq!(
        queued_run(AgentCommand::UserInput { content: "hi".into(), attachments: vec!["a".into()] }),
        Some(("hi".to_string(), vec!["a".to_string()], None))
    );

    assert!(queued_run(AgentCommand::SetModel { model: "m".into() }).is_none());
    assert!(queued_run(AgentCommand::ForkAndRun { parent_message_id: "m_parent".into(), new_content: None }).is_none());
}

#[test]
fn queued_input_runs_as_sent() {
    let cmd = queued_command("edited".into(), vec!["x".into()], Some("p".into()));
    assert_eq!(cmd, AgentCommand::ForkAndRun { parent_message_id: "p".into(), new_content: Some("edited".into()) });
    assert_eq!(queued_run(cmd), Some(("edited".to_string(), vec![], Some("p".to_string()))));
    let cmd = queued_command("hi".into(), vec!["x".into()], None);
    assert_eq!(queued_run(cmd), Some(("hi".to_string(), vec!["x".to_string()], None)));
}

#[test]
fn test_allowed_tools_from_template() {
    let template = AgentTemplate {
        id: "explore".into(),
        name: "Explore".into(),
        description: String::new(),
        tools: vec!["read".into(), "shell".into()],
        system_prompt_body: String::new(),
    };
    let allowed = allowed_tools(&template).unwrap();
    assert!(allowed.contains(&"read".to_string()) && allowed.contains(&"shell".to_string()));
    assert!(!allowed.contains(&"write".to_string()));

    let unrestricted = AgentTemplate { tools: Vec::new(), ..template };
    assert!(allowed_tools(&unrestricted).is_none());
}

#[test]
fn tool_refusals_name_the_tool() {
    let allowed = Some(vec!["read".to_string()]);
    assert_eq!(tool_refusal("read", &allowed), None);
    assert_eq!(
        tool_refusal("write", &allowed).as_deref(),
        Some("Tool 'write' is not permitted for the active agent.")
    );
    assert_eq!(tool_refusal("anything", &None), None);
    assert_eq!(blocked_by_plugin("no shell"), "Execution blocked by plugin: no shell");
    assert_eq!(tool_not_found("fly"), "Tool 'fly' not found in registry");
}

#[test]
fn user_message_holds_text_then_images() {
    let blocks = user_turn_blocks("look".into(), vec!["session_attachment://a.png".into()]);
    assert_eq!(
        blocks,
        vec![
            Block::Text { text: "look".into() },
            Block::Image { mime_type: "image/png".into(), data: "session_attachment://a.png".into() },
        ]
    );
    assert_eq!(user_turn_blocks(String::new(), vec![]), vec![]);
}

#[test]
fn failed_resend_returns_to_the_earlier_leaf() {
    let deleted = vec!["u2".to_string(), "a2".to_string()];
    assert_eq!(rollback_leaf(Some("a1"), &deleted, Some("m0".into())).as_deref(), Some("a1"));
    assert_eq!(rollback_leaf(Some("a2"), &deleted, Some("m0".into())).as_deref(), Some("m0"));
    assert_eq!(rollback_leaf(None, &deleted, None), None);
}

#[test]
fn naming_reads_until_done_or_too_long() {
    let mut raw = String::new();
    assert!(!naming_feed(&mut raw, &ProviderStreamEvent::TextDelta("Fix ".into())));
    assert!(!naming_feed(&mut raw, &ProviderStreamEvent::ThinkingDelta("hm".into())));
    assert!(!naming_feed(&mut raw, &ProviderStreamEvent::TextDelta("login".into())));
    assert!(naming_feed(&mut raw, &ProviderStreamEvent::Done { stop_reason: StopReason::EndTurn }));
    assert_eq!(raw, "Fix login");

    let mut long = "x".repeat(510);
    assert!(!naming_feed(&mut long, &ProviderStreamEvent::TextDelta("yy".into())));
    assert!(naming_feed(&mut long, &ProviderStreamEvent::TextDelta("z".into())));
    assert!(naming_feed(&mut String::new(), &ProviderStreamEvent::Error("e".into())));
}

#[test]
fn sessions_with_titles_are_not_named_again() {
    assert!(already_named(None));
    assert!(already_named(Some("Plan")));
    assert!(!already_named(Some("  ")));
}

#[test]
fn tool_gate_checks_list_then_plugins_then_registry() {
    let allowed = Some(vec!["read".to_string()]);
    assert_eq!(
        tool_gate("write", &allowed, &None, true),
        GateStep::Refuse("Tool 'write' is not permitted for the active agent.".into())
    );
    assert_eq!(tool_gate("read", &allowed, &None, true), GateStep::AskPlugins);
    assert_eq!(
        tool_gate("read", &allowed, &Some(Some("no".into())), true),
        GateStep::Refuse("Execution blocked by plugin: no".into())
    );
    assert_eq!(tool_gate("read", &allowed, &Some(None), true), GateStep::Run);
    assert_eq!(
        tool_gate("read", &None, &Some(None), false),
        GateStep::Refuse("Tool 'read' not found in registry".into())
    );
}
