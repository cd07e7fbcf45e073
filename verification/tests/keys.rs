use oma::keys::{
    attachments_notice, enter_plan, fork_marker, fork_refused_notice, is_quit_key, key_action, page_down, page_up,
    send_step, EnterPlan, Key, KeyAction, KeyPress, Panel, Screen, SendStep,
};

fn press(key: Key, ctrl: bool) -> KeyPress {
    KeyPress { key, ctrl }
}

fn plain() -> Screen {
    Screen { picker: false, prompt: false, tree: false, settings: false, forking: false }
}

#[test]
fn test_is_quit_key() {
    assert!(is_quit_key(press(Key::Esc, false)));
    assert!(is_quit_key(press(Key::Char('c'), true)));
    assert!(!is_quit_key(press(Key::Char('c'), false)));
    assert!(!is_quit_key(press(Key::Char('q'), false)));
    assert!(!is_quit_key(press(Key::Enter, false)));
}

#[test]
fn ctrl_c_quits_even_over_an_overlay() {
    let over = Screen { picker: true, settings: true, ..plain() };
    assert_eq!(key_action(press(Key::Char('c'), true), over), KeyAction::Quit);
    assert_eq!(key_action(press(Key::Esc, false), over), KeyAction::Picker);
    assert_eq!(key_action(press(Key::Char('x'), false), Screen { prompt: true, tree: true, ..plain() }), KeyAction::Prompt);
    assert_eq!(key_action(press(Key::Enter, false), Screen { tree: true, settings: true, ..plain() }), KeyAction::Tree);
    assert_eq!(key_action(press(Key::Enter, false), Screen { settings: true, ..plain() }), KeyAction::Settings);
}

#[test]
fn esc_leaves_a_fork_before_quitting() {
    let forking = Screen { forking: true, ..plain() };
    assert_eq!(key_action(press(Key::Esc, false), forking), KeyAction::CancelFork);
    assert_eq!(key_action(press(Key::Esc, false), plain()), KeyAction::Quit);
}

#[test]
fn main_keys_edit_scroll_and_open_panels() {
    let s = plain();
    assert_eq!(key_action(press(Key::Char('o'), true), s), KeyAction::Open(Panel::Menu));
    assert_eq!(key_action(press(Key::Char('l'), true), s), KeyAction::Open(Panel::Models));
    assert_eq!(key_action(press(Key::Char('t'), true), s), KeyAction::Open(Panel::Rename));
    assert_eq!(key_action(press(Key::Char('g'), true), s), KeyAction::ToggleThinking);
    assert_eq!(key_action(press(Key::Char('x'), true), s), KeyAction::CancelTurn);
    assert_eq!(key_action(press(Key::Char('d'), true), s), KeyAction::Ignore);
    assert_eq!(key_action(press(Key::Char('d'), false), s), KeyAction::Insert('d'));
    assert_eq!(key_action(press(Key::Backspace, false), s), KeyAction::DeleteChar);
    assert_eq!(key_action(press(Key::PageUp, false), s), KeyAction::ScrollUp);
    assert_eq!(key_action(press(Key::Enter, false), s), KeyAction::Submit);
    assert_eq!(key_action(press(Key::Other, false), s), KeyAction::Ignore);
}

#[test]
fn page_keys_scroll_by_ten_within_bounds() {
    assert_eq!(page_up(25), (15, false));
    assert_eq!(page_up(4), (0, false));
    assert_eq!(page_down(25), (35, true));
    assert_eq!(page_down(u16::MAX - 3), (u16::MAX, true));
}

#[test]
fn enter_reads_slash_commands_and_attachments() {
    assert_eq!(enter_plan("   ", 0), EnterPlan::Ignore);
    assert_eq!(
        enter_plan(" /rename  新名字 ", 0),
        EnterPlan::Slash { command: "rename".into(), args: "新名字".into() }
    );
    assert_eq!(
        enter_plan("@img/a.png 看看这张图", 0),
        EnterPlan::Message { text: "看看这张图".into(), paths: vec!["img/a.png".into()] }
    );
    assert_eq!(enter_plan("", 1), EnterPlan::Message { text: "".into(), paths: vec![] });
}

#[test]
fn sending_refuses_attachments_on_a_fork() {
    assert_eq!(send_step("", 0, false), SendStep::Ignore);
    assert_eq!(send_step("hi", 0, true), SendStep::Send);
    assert_eq!(send_step("", 2, true), SendStep::RefuseFork);
    assert_eq!(send_step("", 2, false), SendStep::Send);
    assert_eq!(fork_refused_notice(), "编辑重发不支持附件：先取消分叉或去掉 @路径");
}

#[test]
fn notices_of_a_sent_message() {
    assert_eq!(fork_marker("第一个问题"), "── 从「第一个问题」处重新开始 ──");
    let paths = vec!["a.png".to_string(), "b.png".to_string()];
    assert_eq!(attachments_notice(&paths, 1, 3), "附件 3 个：a.png、b.png、剪贴板图片 1 张");
    assert_eq!(attachments_notice(&paths, 0, 2), "附件 2 个：a.png、b.png");
}
