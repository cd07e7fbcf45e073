use oma::screen::{CatchUpEntry, EventEffect, ScreenEvent, StatusLine, Tone};
use oma::sse::StopReason;
use oma::tui::EntryKind;

fn status() -> StatusLine {
    StatusLine {
        busy: false,
        stick: false,
        queue: 2,
        model: "p/model-a".into(),
        agent: "build".into(),
        system_prompt_dirty: false,
        context: None,
        current_leaf: None,
        reasoning_level: String::new(),
    }
}

fn notice(effect: &EventEffect) -> Option<(&str, Tone)> {
    effect.notice.as_ref().map(|(t, tone)| (t.as_str(), *tone))
}

#[test]
fn turn_start_and_finish_set_busy_and_report() {
    let mut s = status();
    let e = s.apply_event(ScreenEvent::TurnStarted);
    assert!(s.busy && s.stick);
    assert_eq!(e.notice, None);
    let e = s.apply_event(ScreenEvent::TurnFinished {
        stop_reason: StopReason::EndTurn,
        input_tokens: 1200,
        output_tokens: 34,
        cache_read_tokens: 1000,
        cache_write_tokens: 0,
        elapsed_ms: Some(1500),
    });
    assert!(!s.busy);
    assert_eq!(notice(&e), Some(("轮次完成 · 耗时 1.5s · ↑1200 ↓34 · 缓存读 1000 · 缓存写 0", Tone::Muted)));
    assert_eq!(e.notify.as_deref(), Some("任务完成（完成）"));
}

#[test]
fn failed_turn_is_reported_without_notification() {
    let mut s = status();
    let e = s.apply_event(ScreenEvent::TurnFinished {
        stop_reason: StopReason::Error,
        input_tokens: 0,
        output_tokens: 0,
        cache_read_tokens: 0,
        cache_write_tokens: 0,
        elapsed_ms: None,
    });
    assert_eq!(notice(&e), Some(("轮次出错 · ↑0 ↓0 · 缓存读 0 · 缓存写 0", Tone::Error)));
    assert_eq!(e.notify, None);
}

#[test]
fn status_events_update_the_band() {
    let mut s = status();
    s.apply_event(ScreenEvent::QueueUpdated { pending: 5 });
    assert_eq!(s.queue, 5);
    s.apply_event(ScreenEvent::QueueCleared);
    assert_eq!(s.queue, 0);
    s.apply_event(ScreenEvent::ModelChanged { active_model: "other/model-b".into() });
    assert_eq!(s.model, "other/model-b");
    assert!(s.system_prompt_dirty);
    s.apply_event(ScreenEvent::ContextUsage { tokens: 10, context_len: 100 });
    assert_eq!(s.context, Some((10, 100)));
    let e = s.apply_event(ScreenEvent::Quiet);
    assert_eq!(e, EventEffect { notice: None, notify: None, entries: vec![] });
}

#[test]
fn notices_of_room_events() {
    let mut s = status();
    let e = s.apply_event(ScreenEvent::UserMessage { client_name: "web".into(), content: "hi".into(), queued: true });
    assert_eq!(notice(&e), Some(("web 的消息已排队: hi", Tone::Muted)));
    let e = s.apply_event(ScreenEvent::UserMessage { client_name: "web".into(), content: "hi".into(), queued: false });
    assert_eq!(e.notice, None);
    let e = s.apply_event(ScreenEvent::SyncRequired);
    assert_eq!(notice(&e), Some(("事件流出现缺口，状态可能不完整", Tone::Warning)));
    let e = s.apply_event(ScreenEvent::Error { message: "boom".into() });
    assert_eq!(notice(&e), Some(("boom", Tone::Error)));
    let e = s.apply_event(ScreenEvent::SessionRenamed { title: "新标题".into() });
    assert_eq!(notice(&e), Some(("会话已重命名为 新标题", Tone::Muted)));
    let e = s.apply_event(ScreenEvent::MessagesDeleted { count: 3 });
    assert_eq!(notice(&e), Some(("已删除 3 条消息", Tone::Muted)));
    let e = s.apply_event(ScreenEvent::ActiveBranchChanged { current_leaf_id: "m_0123456789".into() });
    assert_eq!(notice(&e), Some(("切换到分支 m_012345", Tone::Muted)));
    assert_eq!(s.current_leaf.as_deref(), Some("m_0123456789"));
    let e = s.apply_event(ScreenEvent::ReasoningLevelChanged { level: String::new() });
    assert_eq!(notice(&e), Some(("推理等级 → 模型默认", Tone::Muted)));
    let e = s.apply_event(ScreenEvent::ReasoningLevelChanged { level: "high".into() });
    assert_eq!(notice(&e), Some(("推理等级 → high", Tone::Muted)));
    assert_eq!(s.reasoning_level, "high");
}

#[test]
fn catch_up_rebuilds_the_running_blocks() {
    let mut s = status();
    let e = s.apply_event(ScreenEvent::CatchUp {
        thinking: "hmm".into(),
        thinking_ms: Some(40),
        text: String::new(),
        active_call: None,
    });
    assert!(s.busy);
    assert_eq!(
        e.entries,
        vec![CatchUpEntry { kind: EntryKind::Thinking, text: "hmm".into(), open: true, duration_ms: Some(40), call: None }]
    );
    let e = s.apply_event(ScreenEvent::CatchUp {
        thinking: "hmm".into(),
        thinking_ms: None,
        text: "ans".into(),
        active_call: Some(("c1".into(), "read".into(), "a.txt".into())),
    });
    assert_eq!(e.entries.len(), 3);
    assert!(!e.entries[0].open);
    assert_eq!(e.entries[1].kind, EntryKind::Assistant);
    assert!(e.entries[1].open);
    assert_eq!(e.entries[2].kind, EntryKind::Tool);
    assert_eq!(e.entries[2].text, "");
    assert_eq!(e.entries[2].call, Some(("c1".to_string(), "read".to_string(), "a.txt".to_string())));
}

#[test]
fn test_turn_finished_reports_duration_and_usage() {
    let mut s = status();
    let e = s.apply_event(ScreenEvent::TurnFinished {
        stop_reason: StopReason::EndTurn,
        input_tokens: 120,
        output_tokens: 34,
        cache_read_tokens: 100,
        cache_write_tokens: 20,
        elapsed_ms: Some(2500),
    });
    let (text, tone) = e.notice.unwrap();
    assert_eq!(tone, Tone::Muted);
    assert!(text.contains("耗时 2.5s"), "{}", text);
    assert!(text.contains("↑120 ↓34"), "{}", text);
    assert!(text.contains("缓存读 100"), "{}", text);
    assert!(text.contains("缓存写 20"), "{}", text);
}
