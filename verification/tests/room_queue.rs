use oma::room::{branch_switch_failed, command_step, AgentCommand, CommandQueue, CommandStep};

fn input(text: &str) -> AgentCommand {
    AgentCommand::UserInput { content: text.into(), attachments: vec![] }
}

#[test]
fn inputs_run_now_or_wait_in_order() {
    let mut q = CommandQueue::new();
    assert_eq!(q.dispatch(true, "now".into(), vec!["a.png".into()], None), Some(("now".into(), vec!["a.png".into()], None)));
    assert_eq!(q.len(), 0);
    assert_eq!(q.dispatch(false, "first".into(), vec![], None), None);
    assert_eq!(q.dispatch(false, "second".into(), vec![], Some("m1".into())), None);
    assert_eq!(q.len(), 2);
    let (pending, turn) = q.next_turn();
    assert_eq!(pending, vec![1]);
    assert_eq!(turn, Some(("first".into(), vec![], None)));
    let (pending, turn) = q.next_turn();
    assert_eq!(pending, vec![0]);
    assert_eq!(turn, Some(("second".into(), vec![], Some("m1".into()))));
    assert_eq!(q.next_turn(), (vec![], None));
}

#[test]
fn commands_that_do_not_run_are_dropped_from_the_queue() {
    let mut q = CommandQueue::new();
    q.items.push_back(AgentCommand::ForkAndRun { parent_message_id: "m".into(), new_content: None });
    q.items.push_back(AgentCommand::SetModel { model: "x".into() });
    q.items.push_back(input("go"));
    q.items.push_back(input("later"));
    let (pending, turn) = q.next_turn();
    assert_eq!(pending, vec![3, 2, 1]);
    assert_eq!(turn, Some(("go".into(), vec![], None)));
    assert_eq!(q.len(), 1);
    q.clear();
    assert_eq!(q.len(), 0);
}

#[test]
fn commands_become_steps() {
    assert_eq!(command_step(input("hi"), true), CommandStep::Input(("hi".into(), vec![], None)));
    assert_eq!(
        command_step(AgentCommand::ForkAndRun { parent_message_id: "p".into(), new_content: Some("again".into()) }, true),
        CommandStep::Input(("again".into(), vec![], Some("p".into())))
    );
    assert_eq!(
        command_step(AgentCommand::ForkAndRun { parent_message_id: "p".into(), new_content: None }, true),
        CommandStep::Nothing
    );
    assert_eq!(command_step(AgentCommand::SetModel { model: "m".into() }, true), CommandStep::SetModel("m".into()));
    assert_eq!(
        command_step(AgentCommand::SetReasoningLevel { level: "high".into() }, true),
        CommandStep::SetReasoningLevel("high".into())
    );
    assert_eq!(
        command_step(AgentCommand::SetReasoningLevel { level: "ultra".into() }, false),
        CommandStep::Reject("Invalid reasoning level: ultra".into())
    );
    assert_eq!(
        command_step(AgentCommand::SwitchBranch { leaf_message_id: "l".into() }, true),
        CommandStep::SwitchBranch("l".into())
    );
    assert_eq!(branch_switch_failed("not found"), "切换分支失败: not found");
}
